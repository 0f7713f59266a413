//! The executable JSON parser, proved against the grammar in [`crate::json`].
//!
//! The relay only ever needs the text at `choices[0].message.content`, so the
//! parser works in one pass: it validates the whole document and captures that
//! one string, materializing nothing else.  It recurses on the document's
//! nesting, so its stack use grows with the deepest nesting of the input.  On
//! failure each function reports the input offset at which it stopped; the
//! offset is diagnostic and the grammar does not pin it.

use vstd::prelude::*;

use crate::json::{
    JsonNode, clip, content_of, digits_end, exp_end, extract_choice, extract_choices,
    extract_message, frac_end, hex4, hex_val, int_end, is_digit, is_ws, lookup_member, number_end,
    prepend_char, skip_ws, spec_parse_document, spec_parse_elements, spec_parse_members,
    spec_parse_string, spec_parse_value, str_body, str_of,
};
use crate::text::chars_eq_str;

verus! {

broadcast use vstd::utf8::char_u32_cast, vstd::utf8::char_is_scalar;

/// Relies on `char::from_u32`: per its documentation it returns `Some`
/// exactly when the argument is a Unicode scalar value (below `0x110000` and
/// not a surrogate), and the returned character has that value.
pub assume_specification[ char::from_u32 ](v: u32) -> (r: Option<char>)
    ensures
        r matches Some(c) ==> c as u32 == v,
        r is Some <==> vstd::utf8::is_scalar(v),
;

/// The character with the given Unicode scalar value.
pub(crate) fn char_from_scalar(v: u32) -> (c: char)
    requires
        vstd::utf8::is_scalar(v),
    ensures
        c as u32 == v,
{
    char::from_u32(v).unwrap()
}

/// Whether the character at `j` is JSON whitespace.
fn is_ws_at(s: &Vec<char>, j: usize) -> (b: bool)
    requires
        j < s@.len(),
    ensures
        b == is_ws(s@[j as int]),
{
    let c = s[j];
    c == ' ' || c == '\n' || c == '\r' || c == '\t'
}

/// Whether the character at `j` is a decimal digit.
fn is_digit_at(s: &Vec<char>, j: usize) -> (b: bool)
    requires
        j < s@.len(),
    ensures
        b == is_digit(s@[j as int]),
{
    let u = s[j] as u32;
    0x30 <= u && u <= 0x39
}

/// First position at or after `i` holding no whitespace.
pub fn skip_ws_x(s: &Vec<char>, i: usize) -> (r: usize)
    requires
        i <= s@.len(),
    ensures
        r as int == skip_ws(s@, i as int),
        i <= r <= s@.len(),
{
    let mut j: usize = i;
    while j < s.len() && is_ws_at(s, j)
        invariant
            i <= j <= s@.len(),
            skip_ws(s@, i as int) == skip_ws(s@, j as int),
        decreases s@.len() - j,
    {
        proof {
            assert(skip_ws(s@, j as int) == skip_ws(s@, j + 1));
        }
        j = j + 1;
    }
    j
}

/// First position at or after `i` holding no decimal digit.
fn digits_end_x(s: &Vec<char>, i: usize) -> (r: usize)
    requires
        i <= s@.len(),
    ensures
        r as int == digits_end(s@, i as int),
        i <= r <= s@.len(),
{
    let mut j: usize = i;
    while j < s.len() && is_digit_at(s, j)
        invariant
            i <= j <= s@.len(),
            digits_end(s@, i as int) == digits_end(s@, j as int),
        decreases s@.len() - j,
    {
        proof {
            assert(digits_end(s@, j as int) == digits_end(s@, j + 1));
        }
        j = j + 1;
    }
    j
}

/// End of a complete JSON number starting at `i`, or the offset where it
/// stops being one.
fn number_end_x(s: &Vec<char>, i: usize) -> (r: Result<usize, usize>)
    requires
        i <= s@.len(),
    ensures
        match number_end(s@, i as int) {
            None => r matches Err(p) && p <= s@.len(),
            Some(e) => r matches Ok(re) && re as int == e && i < re <= s@.len(),
        },
{
    // integer part
    let j: usize = if i < s.len() && s[i] == '-' {
        i + 1
    } else {
        i
    };
    let a: usize;
    if j < s.len() && s[j] == '0' {
        a = j + 1;
    } else if j < s.len() && is_digit_at(s, j) {
        proof {
            assert(digits_end(s@, j as int) == digits_end(s@, j + 1));
        }
        a = digits_end_x(s, j + 1);
    } else {
        return Err(j);
    }
    proof {
        assert(int_end(s@, i as int) == Some(a as int));
    }
    // fraction part
    let b: usize;
    if a < s.len() && s[a] == '.' {
        if a + 1 < s.len() && is_digit_at(s, a + 1) {
            b = digits_end_x(s, a + 1);
            proof {
                assert(digits_end(s@, a + 1) == digits_end(s@, a + 2));
            }
        } else {
            return Err(a + 1);
        }
    } else {
        b = a;
    }
    proof {
        assert(frac_end(s@, a as int) == Some(b as int));
    }
    // exponent part
    let e: usize;
    if b < s.len() && (s[b] == 'e' || s[b] == 'E') {
        let k: usize = if b + 1 < s.len() && (s[b + 1] == '+' || s[b + 1] == '-') {
            b + 2
        } else {
            b + 1
        };
        if k < s.len() && is_digit_at(s, k) {
            e = digits_end_x(s, k);
            proof {
                assert(digits_end(s@, k as int) == digits_end(s@, k + 1));
            }
        } else {
            return Err(k);
        }
    } else {
        e = b;
    }
    proof {
        assert(exp_end(s@, b as int) == Some(e as int));
    }
    Ok(e)
}

/// The loop relation for decoding a string body: what remains to be decoded
/// from `cur`, prefixed by what is already decoded in `acc`, is the decoding
/// of the whole body from `start`.
spec fn body_rel(s: Seq<char>, start: int, cur: int, acc: Seq<char>) -> bool {
    match str_body(s, cur) {
        None => str_body(s, start) is None,
        Some((t, e)) => str_body(s, start) == Some((acc + t, e)),
    }
}

proof fn lemma_body_rel_step(s: Seq<char>, start: int, prev: int, next: int, c: char, acc: Seq<char>)
    requires
        body_rel(s, start, prev, acc),
        str_body(s, prev) == prepend_char(c, str_body(s, next)),
    ensures
        body_rel(s, start, next, acc.push(c)),
{
    match str_body(s, next) {
        Some((t, e)) => {
            assert(str_body(s, prev) == Some((seq![c] + t, e)));
            assert(acc + (seq![c] + t) =~= acc.push(c) + t);
        },
        None => {},
    }
}

/// Value of the four hexadecimal digits starting at `i`.
fn hex4_x(s: &Vec<char>, i: usize) -> (r: Option<u32>)
    requires
        i <= s@.len(),
    ensures
        r == hex4(s@, i as int),
{
    if s.len() - i >= 4 {
        let a = hex_val_x(s[i]);
        let b = hex_val_x(s[i + 1]);
        let c = hex_val_x(s[i + 2]);
        let d = hex_val_x(s[i + 3]);
        match (a, b, c, d) {
            (Some(a), Some(b), Some(c), Some(d)) => Some(a * 0x1000 + b * 0x100 + c * 0x10 + d),
            _ => None,
        }
    } else {
        None
    }
}

/// Value of one hexadecimal digit character.
fn hex_val_x(c: char) -> (r: Option<u32>)
    ensures
        r == hex_val(c),
        r matches Some(v) ==> v < 16,
{
    let u = c as u32;
    if 0x30 <= u && u <= 0x39 {
        Some(u - 0x30)
    } else if 0x41 <= u && u <= 0x46 {
        Some(u - 0x41 + 10)
    } else if 0x61 <= u && u <= 0x66 {
        Some(u - 0x61 + 10)
    } else {
        None
    }
}

/// Parses a JSON string at `i` (at the opening quote), returning the decoded
/// text and the position just after the closing quote, or the offset where
/// the string stops being one.
pub fn parse_string_x(s: &Vec<char>, i: usize) -> (r: Result<(Vec<char>, usize), usize>)
    requires
        i <= s@.len(),
    ensures
        match spec_parse_string(s@, i as int) {
            None => r matches Err(q) && q <= s@.len(),
            Some((t, e)) => r matches Ok(p) && p.0@ == t && p.1 as int == e && i < p.1
                <= s@.len(),
        },
{
    if !(i < s.len() && s[i] == '"') {
        return Err(i);
    }
    let ghost start: int = i + 1;
    let mut acc: Vec<char> = Vec::new();
    let mut cur: usize = i + 1;
    loop
        invariant
            i + 1 <= cur <= s@.len(),
            body_rel(s@, start, cur as int, acc@),
            start == i + 1,
            i < s@.len(),
            s@[i as int] == '"',
        decreases s@.len() - cur,
    {
        if cur >= s.len() {
            return Err(cur);
        }
        let c = s[cur];
        if c == '"' {
            proof {
                assert(str_body(s@, cur as int) == Some((Seq::<char>::empty(), cur + 1)));
                assert(acc@ + Seq::<char>::empty() =~= acc@);
            }
            return Ok((acc, cur + 1));
        } else if c == '\\' {
            if cur + 1 >= s.len() {
                return Err(cur);
            }
            let e = s[cur + 1];
            let ghost prev: int = cur as int;
            let ghost acc0: Seq<char> = acc@;
            if e == '"' || e == '\\' || e == '/' {
                acc.push(e);
                cur = cur + 2;
                proof {
                    lemma_body_rel_step(s@, start, prev, cur as int, e, acc0);
                }
            } else if e == 'b' {
                acc.push('\u{0008}');
                cur = cur + 2;
                proof {
                    lemma_body_rel_step(s@, start, prev, cur as int, '\u{0008}', acc0);
                }
            } else if e == 'f' {
                acc.push('\u{000C}');
                cur = cur + 2;
                proof {
                    lemma_body_rel_step(s@, start, prev, cur as int, '\u{000C}', acc0);
                }
            } else if e == 'n' {
                acc.push('\n');
                cur = cur + 2;
                proof {
                    lemma_body_rel_step(s@, start, prev, cur as int, '\n', acc0);
                }
            } else if e == 'r' {
                acc.push('\r');
                cur = cur + 2;
                proof {
                    lemma_body_rel_step(s@, start, prev, cur as int, '\r', acc0);
                }
            } else if e == 't' {
                acc.push('\t');
                cur = cur + 2;
                proof {
                    lemma_body_rel_step(s@, start, prev, cur as int, '\t', acc0);
                }
            } else if e == 'u' {
                match hex4_x(s, cur + 2) {
                    None => {
                        return Err(cur);
                    },
                    Some(h) => {
                        if 0xD800 <= h && h < 0xDC00 {
                            if s.len() - cur >= 8 && s[cur + 6] == '\\' && s[cur + 7] == 'u' {
                                match hex4_x(s, cur + 8) {
                                    None => {
                                        return Err(cur);
                                    },
                                    Some(l) => {
                                        if 0xDC00 <= l && l < 0xE000 {
                                            let cp: u32 = 0x10000 + (h - 0xD800) * 0x400 + (l
                                                - 0xDC00);
                                            let ch = char_from_scalar(cp);
                                            acc.push(ch);
                                            cur = cur + 12;
                                            proof {
                                                assert(str_body(s@, prev) == prepend_char(
                                                    cp as char,
                                                    str_body(s@, cur as int),
                                                ));
                                                lemma_body_rel_step(
                                                    s@,
                                                    start,
                                                    prev,
                                                    cur as int,
                                                    ch,
                                                    acc0,
                                                );
                                            }
                                        } else {
                                            return Err(cur);
                                        }
                                    },
                                }
                            } else {
                                return Err(cur);
                            }
                        } else if 0xDC00 <= h && h < 0xE000 {
                            return Err(cur);
                        } else {
                            let ch = char_from_scalar(h);
                            acc.push(ch);
                            cur = cur + 6;
                            proof {
                                assert(str_body(s@, prev) == prepend_char(
                                    h as char,
                                    str_body(s@, cur as int),
                                ));
                                lemma_body_rel_step(s@, start, prev, cur as int, ch, acc0);
                            }
                        }
                    },
                }
            } else {
                return Err(cur);
            }
        } else if (c as u32) < 0x20 {
            return Err(cur);
        } else {
            let ghost prev: int = cur as int;
            let ghost acc0: Seq<char> = acc@;
            acc.push(c);
            cur = cur + 1;
            proof {
                lemma_body_rel_step(s@, start, prev, cur as int, c, acc0);
            }
        }
    }
}

/// Validates one JSON value at `i`, returning the position just after it, or
/// the offset where it stops being one.
pub fn skip_value(s: &Vec<char>, i: usize) -> (r: Result<usize, usize>)
    requires
        i <= s@.len(),
    ensures
        match spec_parse_value(s@, i as int) {
            None => r matches Err(p) && p <= s@.len(),
            Some((v, e)) => r matches Ok(re) && re as int == e && i < re <= s@.len(),
        },
    decreases s@.len() - i, 1int,
{
    if i >= s.len() {
        return Err(i);
    }
    let c = s[i];
    if c == '{' {
        let j = skip_ws_x(s, i + 1);
        proof {
            assert(clip(skip_ws(s@, i + 1), i + 1, s@.len() as int) == j as int);
        }
        if j < s.len() && s[j] == '}' {
            Ok(j + 1)
        } else {
            skip_members(s, j)
        }
    } else if c == '[' {
        let j = skip_ws_x(s, i + 1);
        proof {
            assert(clip(skip_ws(s@, i + 1), i + 1, s@.len() as int) == j as int);
        }
        if j < s.len() && s[j] == ']' {
            Ok(j + 1)
        } else {
            skip_elements(s, j)
        }
    } else if c == '"' {
        match parse_string_x(s, i) {
            Ok(p) => Ok(p.1),
            Err(q) => Err(q),
        }
    } else if c == 't' {
        if s.len() - i >= 4 && s[i + 1] == 'r' && s[i + 2] == 'u' && s[i + 3] == 'e' {
            Ok(i + 4)
        } else {
            Err(i)
        }
    } else if c == 'f' {
        if s.len() - i >= 5 && s[i + 1] == 'a' && s[i + 2] == 'l' && s[i + 3] == 's' && s[i + 4]
            == 'e' {
            Ok(i + 5)
        } else {
            Err(i)
        }
    } else if c == 'n' {
        if s.len() - i >= 4 && s[i + 1] == 'u' && s[i + 2] == 'l' && s[i + 3] == 'l' {
            Ok(i + 4)
        } else {
            Err(i)
        }
    } else if c == '-' || is_digit_at(s, i) {
        number_end_x(s, i)
    } else {
        Err(i)
    }
}

/// Validates a nonempty member list at `i`, up to and including the closing
/// brace.
pub fn skip_members(s: &Vec<char>, i: usize) -> (r: Result<usize, usize>)
    requires
        i <= s@.len(),
    ensures
        match spec_parse_members(s@, i as int) {
            None => r matches Err(p) && p <= s@.len(),
            Some((ms, e)) => r matches Ok(re) && re as int == e && i < re <= s@.len(),
        },
    decreases s@.len() - i, 2int,
{
    match parse_string_x(s, i) {
        Err(q) => Err(q),
        Ok(p) => {
            let e1 = p.1;
            let j1 = skip_ws_x(s, e1);
            if j1 < s.len() && s[j1] == ':' {
                let j2 = skip_ws_x(s, j1 + 1);
                proof {
                    assert(clip(skip_ws(s@, j1 + 1), i as int, s@.len() as int) == j2 as int);
                }
                match skip_value(s, j2) {
                    Err(q) => Err(q),
                    Ok(e2) => {
                        let j3 = skip_ws_x(s, e2);
                        if j3 < s.len() && s[j3] == ',' {
                            let j4 = skip_ws_x(s, j3 + 1);
                            proof {
                                assert(clip(skip_ws(s@, j3 + 1), i + 1, s@.len() as int)
                                    == j4 as int);
                            }
                            skip_members(s, j4)
                        } else if j3 < s.len() && s[j3] == '}' {
                            Ok(j3 + 1)
                        } else {
                            Err(j3)
                        }
                    },
                }
            } else {
                Err(j1)
            }
        },
    }
}

/// Validates a nonempty element list at `i`, up to and including the closing
/// bracket.
pub fn skip_elements(s: &Vec<char>, i: usize) -> (r: Result<usize, usize>)
    requires
        i <= s@.len(),
    ensures
        match spec_parse_elements(s@, i as int) {
            None => r matches Err(p) && p <= s@.len(),
            Some((es, e)) => r matches Ok(re) && re as int == e && i < re <= s@.len(),
        },
    decreases s@.len() - i, 2int,
{
    if i >= s.len() {
        return Err(i);
    }
    match skip_value(s, i) {
        Err(q) => Err(q),
        Ok(e1) => {
            let j1 = skip_ws_x(s, e1);
            if j1 < s.len() && s[j1] == ',' {
                let j2 = skip_ws_x(s, j1 + 1);
                proof {
                    assert(clip(skip_ws(s@, j1 + 1), i + 1, s@.len() as int) == j2 as int);
                }
                skip_elements(s, j2)
            } else if j1 < s.len() && s[j1] == ']' {
                Ok(j1 + 1)
            } else {
                Err(j1)
            }
        },
    }
}

/// Whether a captured string agrees with what the grammar says the capture
/// should be.
spec fn cap_matches(cap: Option<Vec<char>>, t: Option<Seq<char>>) -> bool {
    match cap {
        Some(v) => t matches Some(tt) && v@ == tt,
        None => t is None,
    }
}

/// Parses the value of a `content` member, capturing it when it is a string.
fn extract_content_value(s: &Vec<char>, i: usize) -> (r: Result<(Option<Vec<char>>, usize), usize>)
    requires
        i <= s@.len(),
    ensures
        match spec_parse_value(s@, i as int) {
            None => r matches Err(q) && q <= s@.len(),
            Some((v, e)) => r matches Ok(p) && p.1 as int == e && i < p.1 <= s@.len()
                && cap_matches(p.0, str_of(v)),
        },
{
    if i < s.len() && s[i] == '"' {
        match parse_string_x(s, i) {
            Ok(p) => Ok((Some(p.0), p.1)),
            Err(q) => Err(q),
        }
    } else {
        match skip_value(s, i) {
            Ok(e) => Ok((None, e)),
            Err(q) => Err(q),
        }
    }
}


/// Scans a member list for the `content` member, validating everything else.
/// Besides the capture and the end position, reports whether the key occurs
/// at all; with duplicate keys the last occurrence wins, as in the grammar.
#[verifier::rlimit(100)]
fn scan_members_content(s: &Vec<char>, i: usize) -> (r: Result<(Option<Vec<char>>, bool, usize), usize>)
    requires
        i <= s@.len(),
    ensures
        match spec_parse_members(s@, i as int) {
            None => r matches Err(q) && q <= s@.len(),
            Some((ms, e)) => r matches Ok(p) && p.2 as int == e && i < p.2 <= s@.len()
                && (p.1 <==> lookup_member(ms, "content"@) is Some)
                && cap_matches(p.0, extract_message(JsonNode::Obj(ms))),
        },
    decreases s@.len() - i,
{
    match parse_string_x(s, i) {
        Err(q) => Err(q),
        Ok(kp) => {
            let key = kp.0;
            let j1 = skip_ws_x(s, kp.1);
            if j1 < s.len() && s[j1] == ':' {
                let j2 = skip_ws_x(s, j1 + 1);
                proof {
                    assert(clip(skip_ws(s@, j1 + 1), i as int, s@.len() as int) == j2 as int);
                }
                let is_target = chars_eq_str(&key, "content");
                let step: Result<(Option<Vec<char>>, usize), usize> = if is_target {
                    extract_content_value(s, j2)
                } else {
                    match skip_value(s, j2) {
                        Ok(e2) => Ok((None, e2)),
                        Err(q) => Err(q),
                    }
                };
                match step {
                    Err(q) => Err(q),
                    Ok(sp) => {
                        let cap0 = sp.0;
                        let j3 = skip_ws_x(s, sp.1);
                        if j3 < s.len() && s[j3] == ',' {
                            let j4 = skip_ws_x(s, j3 + 1);
                            proof {
                                assert(clip(skip_ws(s@, j3 + 1), i + 1, s@.len() as int)
                                    == j4 as int);
                            }
                            match scan_members_content(s, j4) {
                                Err(q) => Err(q),
                                Ok(rp) => {
                                    let seen_rest = rp.1;
                                    let res = if seen_rest {
                                        rp.0
                                    } else if is_target {
                                        cap0
                                    } else {
                                        None
                                    };
                                    proof {
                                        match spec_parse_value(s@, j2 as int) {
                                            Some((v, _ev)) => match spec_parse_members(
                                                s@,
                                                j4 as int,
                                            ) {
                                                Some((rest, _er)) => {
                                                    let ms = seq![(key@, v)] + rest;
                                                    assert(ms[0] == (key@, v));
                                                    assert(ms.drop_first() =~= rest);
                                                    assert(spec_parse_members(s@, i as int)
                                                        == Some((ms, rp.2 as int)));
                                                    if lookup_member(rest, "content"@) is Some {
                                                        assert(lookup_member(ms, "content"@)
                                                            == lookup_member(rest, "content"@));
                                                        assert(extract_message(JsonNode::Obj(ms))
                                                            == extract_message(JsonNode::Obj(rest)));
                                                    } else if key@ == "content"@ {
                                                        assert(lookup_member(ms, "content"@)
                                                            == Some(v));
                                                        assert(extract_message(JsonNode::Obj(ms))
                                                            == str_of(v));
                                                    } else {
                                                        assert(lookup_member(ms, "content"@) is None);
                                                        assert(extract_message(JsonNode::Obj(ms)) is None);
                                                    }
                                                },
                                                None => {},
                                            },
                                            None => {},
                                        }
                                    }
                                    Ok((res, is_target || seen_rest, rp.2))
                                },
                            }
                        } else if j3 < s.len() && s[j3] == '}' {
                            let res = if is_target {
                                cap0
                            } else {
                                None
                            };
                            proof {
                                match spec_parse_value(s@, j2 as int) {
                                    Some((v, _ev)) => {
                                        let ms = seq![(key@, v)];
                                        assert(ms[0] == (key@, v));
                                        assert(ms.drop_first() =~= Seq::<
                                            (Seq<char>, JsonNode),
                                        >::empty());
                                        assert(spec_parse_members(s@, i as int)
                                            == Some((ms, j3 + 1)));
                                        assert(lookup_member(
                                            Seq::<(Seq<char>, JsonNode)>::empty(),
                                            "content"@,
                                        ) is None);
                                        if key@ == "content"@ {
                                            assert(lookup_member(ms, "content"@) == Some(v));
                                            assert(extract_message(JsonNode::Obj(ms)) == str_of(v));
                                        } else {
                                            assert(lookup_member(ms, "content"@) is None);
                                            assert(extract_message(JsonNode::Obj(ms)) is None);
                                        }
                                    },
                                    None => {},
                                }
                            }
                            Ok((res, is_target, j3 + 1))
                        } else {
                            Err(j3)
                        }
                    },
                }
            } else {
                Err(j1)
            }
        },
    }
}


/// Parses the value of a `message` member, capturing the text its `content`
/// member yields.
fn extract_message_value(s: &Vec<char>, i: usize) -> (r: Result<(Option<Vec<char>>, usize), usize>)
    requires
        i <= s@.len(),
    ensures
        match spec_parse_value(s@, i as int) {
            None => r matches Err(q) && q <= s@.len(),
            Some((v, e)) => r matches Ok(p) && p.1 as int == e && i < p.1 <= s@.len()
                && cap_matches(p.0, extract_message(v)),
        },
{
    if i < s.len() && s[i] == '{' {
        let j = skip_ws_x(s, i + 1);
        proof {
            assert(clip(skip_ws(s@, i + 1), i + 1, s@.len() as int) == j as int);
        }
        if j < s.len() && s[j] == '}' {
            Ok((None, j + 1))
        } else {
            match scan_members_content(s, j) {
                Err(q) => Err(q),
                Ok(t) => Ok((t.0, t.2)),
            }
        }
    } else {
        match skip_value(s, i) {
            Ok(e) => Ok((None, e)),
            Err(q) => Err(q),
        }
    }
}


/// Scans a member list for the `message` member, validating everything else.
/// Besides the capture and the end position, reports whether the key occurs
/// at all; with duplicate keys the last occurrence wins, as in the grammar.
#[verifier::rlimit(100)]
fn scan_members_message(s: &Vec<char>, i: usize) -> (r: Result<(Option<Vec<char>>, bool, usize), usize>)
    requires
        i <= s@.len(),
    ensures
        match spec_parse_members(s@, i as int) {
            None => r matches Err(q) && q <= s@.len(),
            Some((ms, e)) => r matches Ok(p) && p.2 as int == e && i < p.2 <= s@.len()
                && (p.1 <==> lookup_member(ms, "message"@) is Some)
                && cap_matches(p.0, extract_choice(JsonNode::Obj(ms))),
        },
    decreases s@.len() - i,
{
    match parse_string_x(s, i) {
        Err(q) => Err(q),
        Ok(kp) => {
            let key = kp.0;
            let j1 = skip_ws_x(s, kp.1);
            if j1 < s.len() && s[j1] == ':' {
                let j2 = skip_ws_x(s, j1 + 1);
                proof {
                    assert(clip(skip_ws(s@, j1 + 1), i as int, s@.len() as int) == j2 as int);
                }
                let is_target = chars_eq_str(&key, "message");
                let step: Result<(Option<Vec<char>>, usize), usize> = if is_target {
                    extract_message_value(s, j2)
                } else {
                    match skip_value(s, j2) {
                        Ok(e2) => Ok((None, e2)),
                        Err(q) => Err(q),
                    }
                };
                match step {
                    Err(q) => Err(q),
                    Ok(sp) => {
                        let cap0 = sp.0;
                        let j3 = skip_ws_x(s, sp.1);
                        if j3 < s.len() && s[j3] == ',' {
                            let j4 = skip_ws_x(s, j3 + 1);
                            proof {
                                assert(clip(skip_ws(s@, j3 + 1), i + 1, s@.len() as int)
                                    == j4 as int);
                            }
                            match scan_members_message(s, j4) {
                                Err(q) => Err(q),
                                Ok(rp) => {
                                    let seen_rest = rp.1;
                                    let res = if seen_rest {
                                        rp.0
                                    } else if is_target {
                                        cap0
                                    } else {
                                        None
                                    };
                                    proof {
                                        match spec_parse_value(s@, j2 as int) {
                                            Some((v, _ev)) => match spec_parse_members(
                                                s@,
                                                j4 as int,
                                            ) {
                                                Some((rest, _er)) => {
                                                    let ms = seq![(key@, v)] + rest;
                                                    assert(ms[0] == (key@, v));
                                                    assert(ms.drop_first() =~= rest);
                                                    assert(spec_parse_members(s@, i as int)
                                                        == Some((ms, rp.2 as int)));
                                                    if lookup_member(rest, "message"@) is Some {
                                                        assert(lookup_member(ms, "message"@)
                                                            == lookup_member(rest, "message"@));
                                                        assert(extract_choice(JsonNode::Obj(ms))
                                                            == extract_choice(JsonNode::Obj(rest)));
                                                    } else if key@ == "message"@ {
                                                        assert(lookup_member(ms, "message"@)
                                                            == Some(v));
                                                        assert(extract_choice(JsonNode::Obj(ms))
                                                            == extract_message(v));
                                                    } else {
                                                        assert(lookup_member(ms, "message"@) is None);
                                                        assert(extract_choice(JsonNode::Obj(ms)) is None);
                                                    }
                                                },
                                                None => {},
                                            },
                                            None => {},
                                        }
                                    }
                                    Ok((res, is_target || seen_rest, rp.2))
                                },
                            }
                        } else if j3 < s.len() && s[j3] == '}' {
                            let res = if is_target {
                                cap0
                            } else {
                                None
                            };
                            proof {
                                match spec_parse_value(s@, j2 as int) {
                                    Some((v, _ev)) => {
                                        let ms = seq![(key@, v)];
                                        assert(ms[0] == (key@, v));
                                        assert(ms.drop_first() =~= Seq::<
                                            (Seq<char>, JsonNode),
                                        >::empty());
                                        assert(spec_parse_members(s@, i as int)
                                            == Some((ms, j3 + 1)));
                                        assert(lookup_member(
                                            Seq::<(Seq<char>, JsonNode)>::empty(),
                                            "message"@,
                                        ) is None);
                                        if key@ == "message"@ {
                                            assert(lookup_member(ms, "message"@) == Some(v));
                                            assert(extract_choice(JsonNode::Obj(ms)) == extract_message(v));
                                        } else {
                                            assert(lookup_member(ms, "message"@) is None);
                                            assert(extract_choice(JsonNode::Obj(ms)) is None);
                                        }
                                    },
                                    None => {},
                                }
                            }
                            Ok((res, is_target, j3 + 1))
                        } else {
                            Err(j3)
                        }
                    },
                }
            } else {
                Err(j1)
            }
        },
    }
}


/// Parses one element of `choices`, capturing the text its `message` member
/// yields.
fn extract_choice_value(s: &Vec<char>, i: usize) -> (r: Result<(Option<Vec<char>>, usize), usize>)
    requires
        i <= s@.len(),
    ensures
        match spec_parse_value(s@, i as int) {
            None => r matches Err(q) && q <= s@.len(),
            Some((v, e)) => r matches Ok(p) && p.1 as int == e && i < p.1 <= s@.len()
                && cap_matches(p.0, extract_choice(v)),
        },
{
    if i < s.len() && s[i] == '{' {
        let j = skip_ws_x(s, i + 1);
        proof {
            assert(clip(skip_ws(s@, i + 1), i + 1, s@.len() as int) == j as int);
        }
        if j < s.len() && s[j] == '}' {
            Ok((None, j + 1))
        } else {
            match scan_members_message(s, j) {
                Err(q) => Err(q),
                Ok(t) => Ok((t.0, t.2)),
            }
        }
    } else {
        match skip_value(s, i) {
            Ok(e) => Ok((None, e)),
            Err(q) => Err(q),
        }
    }
}


/// Parses the value of a `choices` member, capturing the text its first
/// element yields when the value is a nonempty array.
fn extract_choices_value(s: &Vec<char>, i: usize) -> (r: Result<(Option<Vec<char>>, usize), usize>)
    requires
        i <= s@.len(),
    ensures
        match spec_parse_value(s@, i as int) {
            None => r matches Err(q) && q <= s@.len(),
            Some((v, e)) => r matches Ok(p) && p.1 as int == e && i < p.1 <= s@.len()
                && cap_matches(p.0, extract_choices(v)),
        },
{
    if i < s.len() && s[i] == '[' {
        let j = skip_ws_x(s, i + 1);
        proof {
            assert(clip(skip_ws(s@, i + 1), i + 1, s@.len() as int) == j as int);
        }
        if j < s.len() && s[j] == ']' {
            Ok((None, j + 1))
        } else {
            match extract_choice_value(s, j) {
                Err(q) => Err(q),
                Ok(fp) => {
                    let cap0 = fp.0;
                    let j1 = skip_ws_x(s, fp.1);
                    if j1 < s.len() && s[j1] == ',' {
                        let j2 = skip_ws_x(s, j1 + 1);
                        proof {
                            assert(clip(skip_ws(s@, j1 + 1), j + 1, s@.len() as int) == j2 as int);
                        }
                        match skip_elements(s, j2) {
                            Err(q) => Err(q),
                            Ok(e) => {
                                proof {
                                    match spec_parse_value(s@, j as int) {
                                        Some((v0, _ev)) => match spec_parse_elements(
                                            s@,
                                            j2 as int,
                                        ) {
                                            Some((rest, _er)) => {
                                                let es = seq![v0] + rest;
                                                assert(es[0] == v0);
                                                assert(es.len() > 0);
                                            },
                                            None => {},
                                        },
                                        None => {},
                                    }
                                }
                                Ok((cap0, e))
                            },
                        }
                    } else if j1 < s.len() && s[j1] == ']' {
                        proof {
                            match spec_parse_value(s@, j as int) {
                                Some((v0, _ev)) => {
                                    let es = seq![v0];
                                    assert(es[0] == v0);
                                },
                                None => {},
                            }
                        }
                        Ok((cap0, j1 + 1))
                    } else {
                        Err(j1)
                    }
                },
            }
        }
    } else {
        match skip_value(s, i) {
            Ok(e) => Ok((None, e)),
            Err(q) => Err(q),
        }
    }
}


/// Scans a member list for the `choices` member, validating everything else.
/// Besides the capture and the end position, reports whether the key occurs
/// at all; with duplicate keys the last occurrence wins, as in the grammar.
#[verifier::rlimit(100)]
fn scan_members_choices(s: &Vec<char>, i: usize) -> (r: Result<(Option<Vec<char>>, bool, usize), usize>)
    requires
        i <= s@.len(),
    ensures
        match spec_parse_members(s@, i as int) {
            None => r matches Err(q) && q <= s@.len(),
            Some((ms, e)) => r matches Ok(p) && p.2 as int == e && i < p.2 <= s@.len()
                && (p.1 <==> lookup_member(ms, "choices"@) is Some)
                && cap_matches(p.0, content_of(JsonNode::Obj(ms))),
        },
    decreases s@.len() - i,
{
    match parse_string_x(s, i) {
        Err(q) => Err(q),
        Ok(kp) => {
            let key = kp.0;
            let j1 = skip_ws_x(s, kp.1);
            if j1 < s.len() && s[j1] == ':' {
                let j2 = skip_ws_x(s, j1 + 1);
                proof {
                    assert(clip(skip_ws(s@, j1 + 1), i as int, s@.len() as int) == j2 as int);
                }
                let is_target = chars_eq_str(&key, "choices");
                let step: Result<(Option<Vec<char>>, usize), usize> = if is_target {
                    extract_choices_value(s, j2)
                } else {
                    match skip_value(s, j2) {
                        Ok(e2) => Ok((None, e2)),
                        Err(q) => Err(q),
                    }
                };
                match step {
                    Err(q) => Err(q),
                    Ok(sp) => {
                        let cap0 = sp.0;
                        let j3 = skip_ws_x(s, sp.1);
                        if j3 < s.len() && s[j3] == ',' {
                            let j4 = skip_ws_x(s, j3 + 1);
                            proof {
                                assert(clip(skip_ws(s@, j3 + 1), i + 1, s@.len() as int)
                                    == j4 as int);
                            }
                            match scan_members_choices(s, j4) {
                                Err(q) => Err(q),
                                Ok(rp) => {
                                    let seen_rest = rp.1;
                                    let res = if seen_rest {
                                        rp.0
                                    } else if is_target {
                                        cap0
                                    } else {
                                        None
                                    };
                                    proof {
                                        match spec_parse_value(s@, j2 as int) {
                                            Some((v, _ev)) => match spec_parse_members(
                                                s@,
                                                j4 as int,
                                            ) {
                                                Some((rest, _er)) => {
                                                    let ms = seq![(key@, v)] + rest;
                                                    assert(ms[0] == (key@, v));
                                                    assert(ms.drop_first() =~= rest);
                                                    assert(spec_parse_members(s@, i as int)
                                                        == Some((ms, rp.2 as int)));
                                                    if lookup_member(rest, "choices"@) is Some {
                                                        assert(lookup_member(ms, "choices"@)
                                                            == lookup_member(rest, "choices"@));
                                                        assert(content_of(JsonNode::Obj(ms))
                                                            == content_of(JsonNode::Obj(rest)));
                                                    } else if key@ == "choices"@ {
                                                        assert(lookup_member(ms, "choices"@)
                                                            == Some(v));
                                                        assert(content_of(JsonNode::Obj(ms))
                                                            == extract_choices(v));
                                                    } else {
                                                        assert(lookup_member(ms, "choices"@) is None);
                                                        assert(content_of(JsonNode::Obj(ms)) is None);
                                                    }
                                                },
                                                None => {},
                                            },
                                            None => {},
                                        }
                                    }
                                    Ok((res, is_target || seen_rest, rp.2))
                                },
                            }
                        } else if j3 < s.len() && s[j3] == '}' {
                            let res = if is_target {
                                cap0
                            } else {
                                None
                            };
                            proof {
                                match spec_parse_value(s@, j2 as int) {
                                    Some((v, _ev)) => {
                                        let ms = seq![(key@, v)];
                                        assert(ms[0] == (key@, v));
                                        assert(ms.drop_first() =~= Seq::<
                                            (Seq<char>, JsonNode),
                                        >::empty());
                                        assert(spec_parse_members(s@, i as int)
                                            == Some((ms, j3 + 1)));
                                        assert(lookup_member(
                                            Seq::<(Seq<char>, JsonNode)>::empty(),
                                            "choices"@,
                                        ) is None);
                                        if key@ == "choices"@ {
                                            assert(lookup_member(ms, "choices"@) == Some(v));
                                            assert(content_of(JsonNode::Obj(ms)) == extract_choices(v));
                                        } else {
                                            assert(lookup_member(ms, "choices"@) is None);
                                            assert(content_of(JsonNode::Obj(ms)) is None);
                                        }
                                    },
                                    None => {},
                                }
                            }
                            Ok((res, is_target, j3 + 1))
                        } else {
                            Err(j3)
                        }
                    },
                }
            } else {
                Err(j1)
            }
        },
    }
}


/// Parses the root value of a document, capturing the text at
/// `choices[0].message.content`.
fn extract_root_value(s: &Vec<char>, i: usize) -> (r: Result<(Option<Vec<char>>, usize), usize>)
    requires
        i <= s@.len(),
    ensures
        match spec_parse_value(s@, i as int) {
            None => r matches Err(q) && q <= s@.len(),
            Some((v, e)) => r matches Ok(p) && p.1 as int == e && i < p.1 <= s@.len()
                && cap_matches(p.0, content_of(v)),
        },
{
    if i < s.len() && s[i] == '{' {
        let j = skip_ws_x(s, i + 1);
        proof {
            assert(clip(skip_ws(s@, i + 1), i + 1, s@.len() as int) == j as int);
        }
        if j < s.len() && s[j] == '}' {
            Ok((None, j + 1))
        } else {
            match scan_members_choices(s, j) {
                Err(q) => Err(q),
                Ok(t) => Ok((t.0, t.2)),
            }
        }
    } else {
        match skip_value(s, i) {
            Ok(e) => Ok((None, e)),
            Err(q) => Err(q),
        }
    }
}


/// What reading a response body yields: a malformed document with the offset
/// at which parsing stopped, a well-formed document without the expected
/// text, or the text itself.
pub enum BodyContent {
    Malformed(usize),
    Missing,
    Found(Vec<char>),
}

/// Parses a whole response body and extracts the text at
/// `choices[0].message.content`.  For a malformed body the reported offset
/// is a diagnosis, bounded by the body's length; the grammar does not pin it.
pub fn content_from_body(s: &Vec<char>) -> (r: BodyContent)
    ensures
        match spec_parse_document(s@) {
            None => r matches BodyContent::Malformed(p) && p <= s@.len(),
            Some(doc) => match content_of(doc) {
                Some(t) => r matches BodyContent::Found(v) && v@ == t,
                None => r is Missing,
            },
        },
{
    let i = skip_ws_x(s, 0);
    match extract_root_value(s, i) {
        Err(q) => BodyContent::Malformed(q),
        Ok(p) => {
            let j = skip_ws_x(s, p.1);
            if j == s.len() {
                match p.0 {
                    Some(v) => BodyContent::Found(v),
                    None => BodyContent::Missing,
                }
            } else {
                BodyContent::Malformed(j)
            }
        },
    }
}

} // verus!
