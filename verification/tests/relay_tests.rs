use prompt_relay::cors;
use prompt_relay::relay::{
    build_instruction, build_request_body, build_response_body, error_message, error_status,
    fallback, interpret_response, plan_request, Operation, RelayError, UpstreamOutcome,
};

fn chars(s: &str) -> Vec<char> {
    s.chars().collect()
}

fn text(v: &[char]) -> String {
    v.iter().collect()
}

fn interpret_body(op: Operation, body: &str) -> Result<Vec<char>, RelayError> {
    interpret_response(op, UpstreamOutcome::Body(chars(body)))
}

#[test]
fn poem_instruction_is_prefix_then_prompt() {
    let r = build_instruction(Operation::Poem, &chars("autumn"));
    assert_eq!(text(&r), "Write a short poem about autumn");
}

#[test]
fn paraphrase_instruction_is_prefix_then_prompt() {
    let r = build_instruction(Operation::Paraphrase, &chars("The cat sat."));
    assert_eq!(
        text(&r),
        "Paraphrase the following text while keeping the same meaning: The cat sat."
    );
}

#[test]
fn empty_prompt_is_forwarded_verbatim() {
    let poem = build_instruction(Operation::Poem, &chars(""));
    assert_eq!(text(&poem), "Write a short poem about ");
    let para = build_instruction(Operation::Paraphrase, &chars(""));
    assert_eq!(
        text(&para),
        "Paraphrase the following text while keeping the same meaning: "
    );
}

#[test]
fn request_body_has_fixed_model_message_and_temperature() {
    let body = build_request_body(&chars("hi"));
    assert_eq!(
        text(&body),
        "{\"model\":\"meta-llama/Llama-2-70b-chat-hf\",\"messages\":[{\"role\":\"user\",\"content\":\"hi\"}],\"temperature\":0.7}"
    );
}

#[test]
fn request_body_escapes_only_what_json_requires() {
    let body = build_request_body(&chars("a\"b\\c\nd"));
    assert_eq!(
        text(&body),
        "{\"model\":\"meta-llama/Llama-2-70b-chat-hf\",\"messages\":[{\"role\":\"user\",\"content\":\"a\\\"b\\\\c\\u000ad\"}],\"temperature\":0.7}"
    );
}

#[test]
fn missing_credential_is_a_configuration_error_and_no_request_is_planned() {
    let r = plan_request(None, Operation::Poem, &chars("autumn"));
    match r {
        Err(RelayError::Configuration) => {}
        _ => panic!("expected a configuration error"),
    }
    let r = plan_request(None, Operation::Paraphrase, &chars("x"));
    match r {
        Err(e) => {
            assert_eq!(error_status(&e), 500);
            assert_eq!(text(&error_message(&e)), "OPENAI_API_KEY not set");
        }
        Ok(_) => panic!("expected an error"),
    }
}

#[test]
fn planned_request_fixes_endpoint_headers_and_body() {
    let key = chars("SECRET-REDACTED");
    let p = plan_request(Some(&key), Operation::Poem, &chars("autumn")).unwrap();
    assert_eq!(
        text(&p.url),
        "https://api.deepinfra.com/v1/openai/chat/completions"
    );
    assert_eq!(text(&p.auth_header), "Bearer SECRET-REDACTED");
    assert_eq!(text(&p.content_type), "application/json");
    assert_eq!(
        text(&p.body),
        "{\"model\":\"meta-llama/Llama-2-70b-chat-hf\",\"messages\":[{\"role\":\"user\",\"content\":\"Write a short poem about autumn\"}],\"temperature\":0.7}"
    );
}

#[test]
fn upstream_failure_is_an_upstream_error_with_its_cause() {
    let r = interpret_response(
        Operation::Poem,
        UpstreamOutcome::Failure(chars("connection timed out")),
    );
    match r {
        Err(e) => {
            assert_eq!(error_status(&e), 500);
            assert_eq!(
                text(&error_message(&e)),
                "API request failed: connection timed out"
            );
        }
        Ok(_) => panic!("expected an error"),
    }
}

#[test]
fn wellformed_payload_content_is_returned_verbatim() {
    let r = interpret_body(
        Operation::Poem,
        "{\"choices\":[{\"message\":{\"content\":\"Leaves fall...\"}}]}",
    );
    assert_eq!(text(&r.unwrap()), "Leaves fall...");
}

#[test]
fn extra_fields_around_the_path_are_ignored() {
    let r = interpret_body(
        Operation::Poem,
        "{\"id\":\"cmpl-1\",\"choices\":[{\"index\":0,\"message\":{\"role\":\"assistant\",\"content\":\"hi\"},\"finish_reason\":\"stop\"}],\"usage\":{\"total_tokens\":12,\"cost\":1.5e-4}}",
    );
    assert_eq!(text(&r.unwrap()), "hi");
}

#[test]
fn empty_choices_yields_the_paraphrase_fallback() {
    let r = interpret_body(Operation::Paraphrase, "{\"choices\":[]}");
    assert_eq!(text(&r.unwrap()), "Could not paraphrase text");
}

#[test]
fn missing_choices_yields_the_poem_fallback_with_success() {
    let r = interpret_body(Operation::Poem, "{\"answer\":42}");
    assert_eq!(text(&r.unwrap()), "Could not generate poem");
}

#[test]
fn non_object_document_yields_the_fallback() {
    let r = interpret_body(Operation::Poem, "null");
    assert_eq!(text(&r.unwrap()), "Could not generate poem");
    let r = interpret_body(Operation::Paraphrase, "[1,2,3]");
    assert_eq!(text(&r.unwrap()), "Could not paraphrase text");
}

#[test]
fn content_that_is_not_a_string_yields_the_fallback() {
    let r = interpret_body(
        Operation::Poem,
        "{\"choices\":[{\"message\":{\"content\":17}}]}",
    );
    assert_eq!(text(&r.unwrap()), "Could not generate poem");
    let r = interpret_body(Operation::Poem, "{\"choices\":[{\"message\":null}]}");
    assert_eq!(text(&r.unwrap()), "Could not generate poem");
    let r = interpret_body(Operation::Poem, "{\"choices\":[null]}");
    assert_eq!(text(&r.unwrap()), "Could not generate poem");
    let r = interpret_body(Operation::Poem, "{\"choices\":true}");
    assert_eq!(text(&r.unwrap()), "Could not generate poem");
}

#[test]
fn malformed_bodies_are_parse_errors() {
    for body in [
        "",
        "   ",
        "{",
        "{\"choices\":}",
        "{\"choices\":[]",
        "{\"choices\":[]}}",
        "{'choices':[]}",
        "{\"n\":01}",
        "{\"s\":\"unterminated}",
        "{\"s\":\"bad \\x escape\"}",
        "nil",
        "{\"a\":1,}",
    ] {
        let r = interpret_body(Operation::Poem, body);
        match r {
            Err(RelayError::ResponseParse(_)) => {}
            _ => panic!("expected a parse error for {:?}", body),
        }
    }
}

#[test]
fn parse_error_message_names_the_offset() {
    let r = interpret_body(Operation::Poem, "{");
    match r {
        Err(e) => {
            assert_eq!(error_status(&e), 500);
            assert_eq!(
                text(&error_message(&e)),
                "Failed to parse response: unexpected input at offset 1"
            );
        }
        Ok(_) => panic!("expected an error"),
    }
}

#[test]
fn trailing_text_is_reported_at_its_offset() {
    let r = interpret_body(Operation::Poem, "{\"choices\":[]}x");
    match r {
        Err(e) => {
            assert_eq!(
                text(&error_message(&e)),
                "Failed to parse response: unexpected input at offset 14"
            );
        }
        Ok(_) => panic!("expected an error"),
    }
}

#[test]
fn undecodable_body_is_a_parse_error_with_the_decoder_cause() {
    let r = interpret_response(
        Operation::Paraphrase,
        UpstreamOutcome::Undecodable(chars("invalid utf-8 sequence of 1 bytes from index 3")),
    );
    match r {
        Err(e) => {
            assert_eq!(error_status(&e), 500);
            assert_eq!(
                text(&error_message(&e)),
                "Failed to parse response: invalid utf-8 sequence of 1 bytes from index 3"
            );
        }
        Ok(_) => panic!("expected an error"),
    }
}

#[test]
fn whitespace_around_tokens_is_insignificant() {
    let r = interpret_body(
        Operation::Poem,
        " \r\n\t{ \"choices\" : [ { \"message\" : { \"content\" : \"ok\" } } ] } \n",
    );
    assert_eq!(text(&r.unwrap()), "ok");
}

#[test]
fn string_escapes_are_decoded() {
    let r = interpret_body(
        Operation::Poem,
        "{\"choices\":[{\"message\":{\"content\":\"a\\\"b\\\\c\\/d\\be\\ff\\ng\\rh\\ti\\u0041j\"}}]}",
    );
    assert_eq!(
        text(&r.unwrap()),
        "a\"b\\c/d\u{0008}e\u{000C}f\ng\rh\ti\u{0041}j"
    );
}

#[test]
fn surrogate_pairs_are_combined() {
    let r = interpret_body(
        Operation::Poem,
        "{\"choices\":[{\"message\":{\"content\":\"\\uD83D\\uDE00\"}}]}",
    );
    assert_eq!(text(&r.unwrap()), "\u{1F600}");
}

#[test]
fn lone_surrogates_are_malformed() {
    for body in [
        "{\"choices\":[{\"message\":{\"content\":\"\\uD83D\"}}]}",
        "{\"choices\":[{\"message\":{\"content\":\"\\uDE00\"}}]}",
        "{\"choices\":[{\"message\":{\"content\":\"\\uD83D\\u0041\"}}]}",
    ] {
        match interpret_body(Operation::Poem, body) {
            Err(RelayError::ResponseParse(_)) => {}
            _ => panic!("expected a parse error for {:?}", body),
        }
    }
}

#[test]
fn raw_control_characters_in_strings_are_malformed() {
    match interpret_body(Operation::Poem, "{\"s\":\"a\nb\",\"choices\":[]}") {
        Err(RelayError::ResponseParse(_)) => {}
        _ => panic!("expected a parse error"),
    }
}

#[test]
fn last_duplicate_choices_member_wins() {
    let r = interpret_body(
        Operation::Poem,
        "{\"choices\":[{\"message\":{\"content\":\"first\"}}],\"choices\":[]}",
    );
    assert_eq!(text(&r.unwrap()), "Could not generate poem");
    let r = interpret_body(
        Operation::Poem,
        "{\"choices\":[],\"choices\":[{\"message\":{\"content\":\"second\"}}]}",
    );
    assert_eq!(text(&r.unwrap()), "second");
}

#[test]
fn number_spellings_are_accepted() {
    let r = interpret_body(
        Operation::Poem,
        "{\"a\":0,\"b\":-1.5,\"c\":2e10,\"d\":3.25E-2,\"e\":-0.0,\"choices\":[]}",
    );
    assert_eq!(text(&r.unwrap()), "Could not generate poem");
}

#[test]
fn fallback_texts_are_operation_specific() {
    assert_eq!(text(&fallback(Operation::Poem)), "Could not generate poem");
    assert_eq!(
        text(&fallback(Operation::Paraphrase)),
        "Could not paraphrase text"
    );
}

#[test]
fn response_body_wraps_and_escapes_the_content() {
    let body = build_response_body(&chars("Leaves fall..."));
    assert_eq!(text(&body), "{\"content\":\"Leaves fall...\"}");
    let body = build_response_body(&chars("a\"b\\c\nd"));
    assert_eq!(text(&body), "{\"content\":\"a\\\"b\\\\c\\u000ad\"}");
}

#[test]
fn allow_listed_origins_are_accepted() {
    assert!(cors::origin_allowed(&chars(
        "https://paraphrasing-frontend.vercel.app"
    )));
    assert!(cors::origin_allowed(&chars("http://localhost:3000")));
}

#[test]
fn other_origins_are_rejected() {
    assert!(!cors::origin_allowed(&chars("https://evil.example")));
    assert!(!cors::origin_allowed(&chars(
        "https://paraphrasing-frontend.vercel.app/"
    )));
    assert!(!cors::origin_allowed(&chars("http://localhost:3001")));
    assert!(!cors::origin_allowed(&chars("")));
}

#[test]
fn cors_policy_lists_methods_headers_and_lifetime() {
    let origins = cors::allowed_origins();
    assert_eq!(origins.len(), 2);
    assert_eq!(text(&origins[0]), "https://paraphrasing-frontend.vercel.app");
    assert_eq!(text(&origins[1]), "http://localhost:3000");
    let methods = cors::allowed_methods();
    let methods: Vec<String> = methods.iter().map(|m| text(m)).collect();
    assert_eq!(methods, vec!["GET", "POST", "OPTIONS"]);
    let headers = cors::allowed_headers();
    let headers: Vec<String> = headers.iter().map(|h| text(h)).collect();
    assert_eq!(headers, vec!["Authorization", "Accept", "Content-Type"]);
    assert_eq!(cors::preflight_max_age(), 3600);
    assert!(cors::supports_credentials());
}
