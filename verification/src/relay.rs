//! The relay's two operations and their shared downstream-call logic.
//!
//! Each inbound request is handled in two verified phases around the one
//! outbound HTTP call, which the surrounding process performs:
//!
//! 1. [`plan_request`] turns the credential, the operation and the prompt
//!    into the exact request to send — or into [`RelayError::Configuration`]
//!    when the credential is absent, in which case nothing is to be sent.
//! 2. [`interpret_response`] turns whatever came back — a transport failure,
//!    a body that was not text, or a response body — into the text to return
//!    or the error to report, each error carrying its cause.

use vstd::prelude::*;

use crate::json::{JsonNode, content_of, escape_text, hex_char, spec_parse_document};
use crate::parse::{BodyContent, char_from_scalar, content_from_body};
use crate::text::{append_chars, str_to_chars};

verus! {

broadcast use vstd::utf8::char_u32_cast, vstd::utf8::char_is_scalar;

/// The two operations the relay exposes.  They differ only in the
/// instruction prefix sent upstream and in the fallback text.
#[derive(Clone, Copy, PartialEq, Eq, Structural)]
pub enum Operation {
    Poem,
    Paraphrase,
}

/// Why a request could not be answered.  Every variant is reported to the
/// caller as an internal-error status.
#[derive(Debug)]
pub enum RelayError {
    /// The credential is missing from the configuration; nothing was sent.
    Configuration,
    /// The outbound call failed at the transport level; the payload is the
    /// failure's description.
    Upstream(Vec<char>),
    /// The provider's response body is not a well-formed JSON document; the
    /// payload describes the cause.
    ResponseParse(Vec<char>),
}

/// Everything the one outbound HTTP POST needs.
pub struct PlannedRequest {
    /// Where to send the request.
    pub url: Vec<char>,
    /// The authorization header value, carrying the credential.
    pub auth_header: Vec<char>,
    /// The content-type header value.
    pub content_type: Vec<char>,
    /// The serialized JSON request body.
    pub body: Vec<char>,
}

/// What the outbound call produced, as the surrounding process saw it.
pub enum UpstreamOutcome {
    /// The call failed (connection, timeout, or any other transport fault),
    /// with its description.
    Failure(Vec<char>),
    /// The call succeeded but its body could not be decoded as text, with
    /// the decoder's description.
    Undecodable(Vec<char>),
    /// The call succeeded and returned this response body.
    Body(Vec<char>),
}

/// The instruction prefix of an operation.
pub open spec fn instruction_prefix(op: Operation) -> Seq<char> {
    match op {
        Operation::Poem => "Write a short poem about "@,
        Operation::Paraphrase => "Paraphrase the following text while keeping the same meaning: "@,
    }
}

/// The instruction sent upstream: the operation's prefix, then the prompt,
/// verbatim.
pub open spec fn instruction_text(op: Operation, prompt: Seq<char>) -> Seq<char> {
    instruction_prefix(op) + prompt
}

/// The text returned when a well-formed response carries no extractable
/// content.
pub open spec fn fallback_text(op: Operation) -> Seq<char> {
    match op {
        Operation::Poem => "Could not generate poem"@,
        Operation::Paraphrase => "Could not paraphrase text"@,
    }
}

/// The fixed provider endpoint.
pub open spec fn endpoint_url() -> Seq<char> {
    "https://api.deepinfra.com/v1/openai/chat/completions"@
}

/// The bearer-style authorization header value for a credential.
pub open spec fn auth_header_text(key: Seq<char>) -> Seq<char> {
    "Bearer "@ + key
}

/// The serialized outbound request body: fixed model, one user message
/// holding the instruction, fixed sampling temperature.
pub open spec fn request_body_text(instruction: Seq<char>) -> Seq<char> {
    "{\"model\":\"meta-llama/Llama-2-70b-chat-hf\",\"messages\":[{\"role\":\"user\",\"content\":\""@
        + escape_text(instruction) + "\"}],\"temperature\":0.7}"@
}

/// The serialized response body returned to the caller.
pub open spec fn response_body_text(content: Seq<char>) -> Seq<char> {
    "{\"content\":\""@ + escape_text(content) + "\"}"@
}

/// What a well-formed response document yields: the text at
/// `choices[0].message.content`, or the operation's fallback text when that
/// path is missing, empty or not a string.
pub open spec fn response_text(op: Operation, doc: JsonNode) -> Seq<char> {
    match content_of(doc) {
        Some(t) => t,
        None => fallback_text(op),
    }
}

/// Hexadecimal digit character for a value below sixteen.
fn hex_char_x(n: u32) -> (c: char)
    requires
        n < 16,
    ensures
        c == hex_char(n),
{
    if n < 10 {
        char_from_scalar(0x30 + n)
    } else {
        char_from_scalar(0x57 + n)
    }
}

/// JSON-escapes a text: exactly the escaping the serialization format
/// requires, nothing more.
pub fn escape_text_x(s: &Vec<char>) -> (r: Vec<char>)
    ensures
        r@ == escape_text(s@),
{
    let mut acc: Vec<char> = Vec::new();
    let mut i: usize = 0;
    while i < s.len()
        invariant
            i <= s@.len(),
            acc@ == escape_text(s@.take(i as int)),
        decreases s@.len() - i,
    {
        let ghost acc0: Seq<char> = acc@;
        let c = s[i];
        let u = c as u32;
        if c == '"' || c == '\\' {
            acc.push('\\');
            acc.push(c);
        } else if u < 0x20 {
            acc.push('\\');
            acc.push('u');
            acc.push('0');
            acc.push('0');
            acc.push(hex_char_x(u / 16));
            acc.push(hex_char_x(u % 16));
        } else {
            acc.push(c);
        }
        i = i + 1;
        proof {
            assert(s@.take(i as int).drop_last() =~= s@.take(i - 1));
            assert(s@.take(i as int).last() == s@[i - 1]);
            assert(acc@ =~= acc0 + crate::json::escape_char(s@[i - 1]));
        }
    }
    proof {
        assert(s@.take(s@.len() as int) =~= s@);
    }
    acc
}

/// Assembles the instruction for an operation: the fixed prefix, then the
/// prompt, verbatim — no trimming, no escaping.
pub fn build_instruction(op: Operation, prompt: &Vec<char>) -> (r: Vec<char>)
    ensures
        r@ == instruction_text(op, prompt@),
{
    let mut r = match op {
        Operation::Poem => str_to_chars("Write a short poem about "),
        Operation::Paraphrase => str_to_chars(
            "Paraphrase the following text while keeping the same meaning: ",
        ),
    };
    append_chars(&mut r, prompt);
    r
}

/// Serializes the outbound request body around an instruction.
pub fn build_request_body(instruction: &Vec<char>) -> (r: Vec<char>)
    ensures
        r@ == request_body_text(instruction@),
{
    let mut r = str_to_chars(
        "{\"model\":\"meta-llama/Llama-2-70b-chat-hf\",\"messages\":[{\"role\":\"user\",\"content\":\"",
    );
    let esc = escape_text_x(instruction);
    append_chars(&mut r, &esc);
    let tail = str_to_chars("\"}],\"temperature\":0.7}");
    append_chars(&mut r, &tail);
    r
}

/// Serializes the response body returned to the caller.
pub fn build_response_body(content: &Vec<char>) -> (r: Vec<char>)
    ensures
        r@ == response_body_text(content@),
{
    let mut r = str_to_chars("{\"content\":\"");
    let esc = escape_text_x(content);
    append_chars(&mut r, &esc);
    let tail = str_to_chars("\"}");
    append_chars(&mut r, &tail);
    r
}

/// The operation's fallback text.
pub fn fallback(op: Operation) -> (r: Vec<char>)
    ensures
        r@ == fallback_text(op),
{
    match op {
        Operation::Poem => str_to_chars("Could not generate poem"),
        Operation::Paraphrase => str_to_chars("Could not paraphrase text"),
    }
}

/// Decimal spelling of a number.
pub open spec fn dec_text(n: nat) -> Seq<char>
    decreases n,
{
    if n < 10 {
        seq![hex_char(n as u32)]
    } else {
        dec_text(n / 10) + seq![hex_char((n % 10) as u32)]
    }
}

/// Renders the decimal spelling of a number.
fn dec_chars(n: usize) -> (r: Vec<char>)
    ensures
        r@ == dec_text(n as nat),
    decreases n,
{
    if n < 10 {
        let mut r: Vec<char> = Vec::new();
        r.push(hex_char_x((n % 10) as u32));
        r
    } else {
        let mut r = dec_chars(n / 10);
        r.push(hex_char_x((n % 10) as u32));
        proof {
            assert(dec_text((n / 10) as nat).push(hex_char((n as nat % 10) as u32)) =~= dec_text(
                n as nat,
            ));
        }
        r
    }
}

/// The cause reported when the response body is not well-formed JSON: the
/// parser's diagnosis, naming the offset at which it stopped.
pub open spec fn parse_cause_text(p: int) -> Seq<char> {
    "unexpected input at offset "@ + dec_text(p as nat)
}

/// Renders the parser's diagnosis for a malformed body.
fn parse_cause(p: usize) -> (r: Vec<char>)
    ensures
        r@ == parse_cause_text(p as int),
{
    let mut r = str_to_chars("unexpected input at offset ");
    let d = dec_chars(p);
    append_chars(&mut r, &d);
    r
}

/// Plans the one outbound call of a request.  With no credential the plan is
/// refused — the configuration error is the request's outcome and nothing is
/// to be sent.  With a credential, the result fixes the endpoint, the
/// headers and the body exactly.
pub fn plan_request(credential: Option<&Vec<char>>, op: Operation, prompt: &Vec<char>) -> (r:
    Result<PlannedRequest, RelayError>)
    ensures
        r is Err <==> credential is None,
        r is Err ==> r matches Err(RelayError::Configuration),
        credential matches Some(k) ==> r matches Ok(p) && p.url@ == endpoint_url()
            && p.auth_header@ == auth_header_text(k@) && p.content_type@ == "application/json"@
            && p.body@ == request_body_text(instruction_text(op, prompt@)),
{
    match credential {
        None => Err(RelayError::Configuration),
        Some(key) => {
            let instruction = build_instruction(op, prompt);
            let mut auth = str_to_chars("Bearer ");
            append_chars(&mut auth, key);
            Ok(
                PlannedRequest {
                    url: str_to_chars("https://api.deepinfra.com/v1/openai/chat/completions"),
                    auth_header: auth,
                    content_type: str_to_chars("application/json"),
                    body: build_request_body(&instruction),
                },
            )
        },
    }
}

/// Interprets what the outbound call produced.  A transport failure is the
/// upstream error, carrying the failure's description; a body that is not
/// text, or not a well-formed JSON document, is the parse error, carrying a
/// cause; a well-formed body yields the text at `choices[0].message.content`,
/// or the operation's fallback text when that path yields nothing — never an
/// error.
pub fn interpret_response(op: Operation, outcome: UpstreamOutcome) -> (r: Result<
    Vec<char>,
    RelayError,
>)
    ensures
        outcome matches UpstreamOutcome::Failure(m) ==> r matches Err(RelayError::Upstream(m2))
            && m2@ == m@,
        outcome matches UpstreamOutcome::Undecodable(m) ==> r matches Err(
            RelayError::ResponseParse(c),
        ) && c@ == m@,
        outcome matches UpstreamOutcome::Body(b) ==> match spec_parse_document(b@) {
            None => r matches Err(RelayError::ResponseParse(c)) && (exists|p: int|
                0 <= p <= b@.len() && c@ == parse_cause_text(p)),
            Some(doc) => r matches Ok(c) && c@ == response_text(op, doc),
        },
{
    match outcome {
        UpstreamOutcome::Failure(m) => Err(RelayError::Upstream(m)),
        UpstreamOutcome::Undecodable(m) => Err(RelayError::ResponseParse(m)),
        UpstreamOutcome::Body(b) => match content_from_body(&b) {
            BodyContent::Malformed(p) => {
                let cause = parse_cause(p);
                proof {
                    assert(0 <= p as int <= b@.len() && cause@ == parse_cause_text(p as int));
                }
                Err(RelayError::ResponseParse(cause))
            },
            BodyContent::Found(v) => Ok(v),
            BodyContent::Missing => Ok(fallback(op)),
        },
    }
}

/// The HTTP status under which every relay error is reported.
pub fn error_status(e: &RelayError) -> (s: u16)
    ensures
        s == 500,
{
    let _ = e;
    500
}

/// The message reported for a relay error.
pub open spec fn error_message_text(e: RelayError) -> Seq<char> {
    match e {
        RelayError::Configuration => "OPENAI_API_KEY not set"@,
        RelayError::Upstream(m) => "API request failed: "@ + m@,
        RelayError::ResponseParse(m) => "Failed to parse response: "@ + m@,
    }
}

/// Renders the message reported for a relay error.
pub fn error_message(e: &RelayError) -> (r: Vec<char>)
    ensures
        r@ == error_message_text(*e),
{
    match e {
        RelayError::Configuration => str_to_chars("OPENAI_API_KEY not set"),
        RelayError::Upstream(m) => {
            let mut r = str_to_chars("API request failed: ");
            append_chars(&mut r, m);
            r
        },
        RelayError::ResponseParse(m) => {
            let mut r = str_to_chars("Failed to parse response: ");
            append_chars(&mut r, m);
            r
        },
    }
}

/// A well-formed upstream payload is returned verbatim: whenever the
/// document holds text at `choices[0].message.content`, the operation's
/// response content is exactly that text, for either operation.
pub proof fn lemma_wellformed_content_returned(op: Operation, doc: JsonNode, t: Seq<char>)
    requires
        content_of(doc) == Some(t),
    ensures
        response_text(op, doc) == t,
{
}

/// A well-formed document without the expected path never fails: the
/// operation's response content is exactly its fallback text.
pub proof fn lemma_missing_content_falls_back(op: Operation, doc: JsonNode)
    requires
        content_of(doc) is None,
    ensures
        response_text(op, doc) == fallback_text(op),
{
}

/// The instruction carries the prompt verbatim: after the operation's fixed
/// prefix, the instruction is exactly the prompt — no trimming, no escaping.
pub proof fn lemma_instruction_carries_prompt(op: Operation, prompt: Seq<char>)
    ensures
        instruction_text(op, prompt).len() == instruction_prefix(op).len() + prompt.len(),
        instruction_text(op, prompt).subrange(
            instruction_prefix(op).len() as int,
            instruction_text(op, prompt).len() as int,
        ) == prompt,
        instruction_text(op, prompt).subrange(0, instruction_prefix(op).len() as int)
            == instruction_prefix(op),
{
    assert(instruction_text(op, prompt).subrange(
        instruction_prefix(op).len() as int,
        instruction_text(op, prompt).len() as int,
    ) =~= prompt);
    assert(instruction_text(op, prompt).subrange(0, instruction_prefix(op).len() as int)
        =~= instruction_prefix(op));
}

/// The fixed opening of the request body, up to and including the quote
/// that opens the instruction's string field.
pub open spec fn request_body_opening() -> Seq<char> {
    "{\"model\":\"meta-llama/Llama-2-70b-chat-hf\",\"messages\":[{\"role\":\"user\",\"content\":\""@
}

/// The serialized request body carries the instruction without loss: decoding
/// the string field that follows the body's fixed opening yields the
/// instruction again, exactly — the serialization escapes nothing it cannot
/// undo.
pub proof fn lemma_request_body_carries_instruction(instruction: Seq<char>)
    ensures
        crate::json::str_body(
            request_body_text(instruction),
            request_body_opening().len() as int,
        ) == Some(
            (
                instruction,
                (request_body_opening().len() + crate::json::escape_text(instruction).len()
                    + 1) as int,
            ),
        ),
{
    let body = request_body_text(instruction);
    let pre = request_body_opening();
    let esc = crate::json::escape_text(instruction);
    let tail = "\"}],\"temperature\":0.7}"@;
    reveal_strlit("\"}],\"temperature\":0.7}");
    assert(tail[0] == '"');
    assert(body == pre + esc + tail);
    assert(body.subrange(pre.len() as int, (pre.len() + esc.len() + 1) as int) =~= esc
        + seq!['"']);
    crate::json::lemma_escape_round_trip(body, pre.len() as int, instruction);
}

} // verus!
