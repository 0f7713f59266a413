//! A mathematical model of JSON documents and of this library's JSON grammar.
//!
//! The grammar is stated as total specification functions over a character
//! sequence and a position.  `spec_parse_document` is the meaning of "the body
//! is a well-formed JSON document"; `content_of` is the meaning of "the text
//! found at `choices[0].message.content`".  The executable parser in
//! [`crate::parse`] is proved to return exactly what these functions describe.

use vstd::prelude::*;

verus! {

/// A JSON value.  Numbers keep their source spelling: the relay never reads
/// them, so nothing is gained by interpreting them numerically.
pub enum JsonNode {
    Null,
    Bool(bool),
    Num(Seq<char>),
    Str(Seq<char>),
    Arr(Seq<JsonNode>),
    Obj(Seq<(Seq<char>, JsonNode)>),
}

/// JSON insignificant whitespace.
pub open spec fn is_ws(c: char) -> bool {
    c == ' ' || c == '\n' || c == '\r' || c == '\t'
}

/// An ASCII decimal digit.
pub open spec fn is_digit(c: char) -> bool {
    0x30 <= c as u32 <= 0x39
}

/// First position at or after `i` holding no whitespace.
pub open spec fn skip_ws(s: Seq<char>, i: int) -> int
    decreases s.len() - i,
{
    if 0 <= i < s.len() && is_ws(s[i]) {
        skip_ws(s, i + 1)
    } else {
        i
    }
}

/// `j`, but never below `lo` nor above `hi`.  The grammar functions guard
/// their recursive calls with it so that each call visibly advances in the
/// input; on every reachable path it is the identity.
pub open spec fn clip(j: int, lo: int, hi: int) -> int {
    if j < lo {
        lo
    } else if j > hi {
        hi
    } else {
        j
    }
}

/// Value of a hexadecimal digit character.
pub open spec fn hex_val(c: char) -> Option<u32> {
    let u = c as u32;
    if 0x30 <= u <= 0x39 {
        Some((u - 0x30) as u32)
    } else if 0x41 <= u <= 0x46 {
        Some((u - 0x41 + 10) as u32)
    } else if 0x61 <= u <= 0x66 {
        Some((u - 0x61 + 10) as u32)
    } else {
        None
    }
}

/// Value of the four hexadecimal digits starting at `i`.
pub open spec fn hex4(s: Seq<char>, i: int) -> Option<u32> {
    if 0 <= i && i + 4 <= s.len() {
        match (hex_val(s[i]), hex_val(s[i + 1]), hex_val(s[i + 2]), hex_val(s[i + 3])) {
            (Some(a), Some(b), Some(c), Some(d)) => Some(
                ((a * 0x1000 + b * 0x100 + c * 0x10 + d)) as u32,
            ),
            _ => None,
        }
    } else {
        None
    }
}

/// Prepends one decoded character to the result of parsing the rest of a
/// string body.
pub open spec fn prepend_char(c: char, rest: Option<(Seq<char>, int)>) -> Option<(Seq<char>, int)> {
    match rest {
        Some((t, e)) => Some((seq![c] + t, e)),
        None => None,
    }
}

/// Decodes a JSON string body beginning at `i` (just after the opening
/// quote).  Returns the decoded characters and the position just after the
/// closing quote.  Escapes are the eight single-character escapes and
/// `\uXXXX`, with surrogate pairs combined and lone surrogates rejected;
/// unescaped control characters are rejected.
pub open spec fn str_body(s: Seq<char>, i: int) -> Option<(Seq<char>, int)>
    decreases s.len() - i,
{
    if i < 0 || i >= s.len() {
        None
    } else {
        let c = s[i];
        if c == '"' {
            Some((Seq::empty(), i + 1))
        } else if c == '\\' {
            if i + 1 >= s.len() {
                None
            } else {
                let e = s[i + 1];
                if e == '"' {
                    prepend_char('"', str_body(s, i + 2))
                } else if e == '\\' {
                    prepend_char('\\', str_body(s, i + 2))
                } else if e == '/' {
                    prepend_char('/', str_body(s, i + 2))
                } else if e == 'b' {
                    prepend_char('\u{0008}', str_body(s, i + 2))
                } else if e == 'f' {
                    prepend_char('\u{000C}', str_body(s, i + 2))
                } else if e == 'n' {
                    prepend_char('\n', str_body(s, i + 2))
                } else if e == 'r' {
                    prepend_char('\r', str_body(s, i + 2))
                } else if e == 't' {
                    prepend_char('\t', str_body(s, i + 2))
                } else if e == 'u' {
                    match hex4(s, i + 2) {
                        None => None,
                        Some(h) => {
                            if 0xD800 <= h < 0xDC00 {
                                if i + 8 <= s.len() && s[i + 6] == '\\' && s[i + 7] == 'u' {
                                    match hex4(s, i + 8) {
                                        None => None,
                                        Some(l) => {
                                            if 0xDC00 <= l < 0xE000 {
                                                let cp = (0x10000 + (h - 0xD800) * 0x400 + (l
                                                    - 0xDC00)) as u32;
                                                prepend_char(cp as char, str_body(s, i + 12))
                                            } else {
                                                None
                                            }
                                        },
                                    }
                                } else {
                                    None
                                }
                            } else if 0xDC00 <= h < 0xE000 {
                                None
                            } else {
                                prepend_char(h as char, str_body(s, i + 6))
                            }
                        },
                    }
                } else {
                    None
                }
            }
        } else if (c as u32) < 0x20 {
            None
        } else {
            prepend_char(c, str_body(s, i + 1))
        }
    }
}

/// Parses a JSON string at `i` (at the opening quote).
pub open spec fn spec_parse_string(s: Seq<char>, i: int) -> Option<(Seq<char>, int)> {
    if 0 <= i < s.len() && s[i] == '"' {
        str_body(s, i + 1)
    } else {
        None
    }
}

/// First position at or after `i` holding no decimal digit.
pub open spec fn digits_end(s: Seq<char>, i: int) -> int
    decreases s.len() - i,
{
    if 0 <= i < s.len() && is_digit(s[i]) {
        digits_end(s, i + 1)
    } else {
        i
    }
}

/// End of the integer part of a JSON number starting at `i`: an optional
/// minus sign, then either a single zero or a nonzero digit run.
pub open spec fn int_end(s: Seq<char>, i: int) -> Option<int> {
    let j = if 0 <= i < s.len() && s[i] == '-' {
        i + 1
    } else {
        i
    };
    if 0 <= j < s.len() && s[j] == '0' {
        Some(j + 1)
    } else if 0 <= j < s.len() && is_digit(s[j]) {
        Some(digits_end(s, j))
    } else {
        None
    }
}

/// End of an optional fraction part at `i`.
pub open spec fn frac_end(s: Seq<char>, i: int) -> Option<int> {
    if 0 <= i < s.len() && s[i] == '.' {
        if i + 1 < s.len() && is_digit(s[i + 1]) {
            Some(digits_end(s, i + 1))
        } else {
            None
        }
    } else {
        Some(i)
    }
}

/// End of an optional exponent part at `i`.
pub open spec fn exp_end(s: Seq<char>, i: int) -> Option<int> {
    if 0 <= i < s.len() && (s[i] == 'e' || s[i] == 'E') {
        let j = if i + 1 < s.len() && (s[i + 1] == '+' || s[i + 1] == '-') {
            i + 2
        } else {
            i + 1
        };
        if 0 <= j < s.len() && is_digit(s[j]) {
            Some(digits_end(s, j))
        } else {
            None
        }
    } else {
        Some(i)
    }
}

/// End of a complete JSON number starting at `i`.
pub open spec fn number_end(s: Seq<char>, i: int) -> Option<int> {
    match int_end(s, i) {
        None => None,
        Some(a) => match frac_end(s, a) {
            None => None,
            Some(b) => exp_end(s, b),
        },
    }
}

/// Parses one JSON value at `i` (no leading whitespace).  Returns the value
/// and the position just after it.
pub open spec fn spec_parse_value(s: Seq<char>, i: int) -> Option<(JsonNode, int)>
    decreases s.len() - i, 1int,
{
    if i < 0 || i >= s.len() {
        None
    } else {
        let c = s[i];
        if c == '{' {
            let j = clip(skip_ws(s, i + 1), i + 1, s.len() as int);
            if j < s.len() && s[j] == '}' {
                Some((JsonNode::Obj(Seq::empty()), j + 1))
            } else {
                match spec_parse_members(s, j) {
                    Some((ms, e)) => Some((JsonNode::Obj(ms), e)),
                    None => None,
                }
            }
        } else if c == '[' {
            let j = clip(skip_ws(s, i + 1), i + 1, s.len() as int);
            if j < s.len() && s[j] == ']' {
                Some((JsonNode::Arr(Seq::empty()), j + 1))
            } else {
                match spec_parse_elements(s, j) {
                    Some((es, e)) => Some((JsonNode::Arr(es), e)),
                    None => None,
                }
            }
        } else if c == '"' {
            match spec_parse_string(s, i) {
                Some((t, e)) => Some((JsonNode::Str(t), e)),
                None => None,
            }
        } else if c == 't' {
            if i + 4 <= s.len() && s[i + 1] == 'r' && s[i + 2] == 'u' && s[i + 3] == 'e' {
                Some((JsonNode::Bool(true), i + 4))
            } else {
                None
            }
        } else if c == 'f' {
            if i + 5 <= s.len() && s[i + 1] == 'a' && s[i + 2] == 'l' && s[i + 3] == 's' && s[i + 4]
                == 'e' {
                Some((JsonNode::Bool(false), i + 5))
            } else {
                None
            }
        } else if c == 'n' {
            if i + 4 <= s.len() && s[i + 1] == 'u' && s[i + 2] == 'l' && s[i + 3] == 'l' {
                Some((JsonNode::Null, i + 4))
            } else {
                None
            }
        } else if c == '-' || is_digit(c) {
            match number_end(s, i) {
                Some(e) => Some((JsonNode::Num(s.subrange(i, e)), e)),
                None => None,
            }
        } else {
            None
        }
    }
}

/// Parses a nonempty comma-separated member list at `i` (at the first key),
/// up to and including the closing brace.
pub open spec fn spec_parse_members(s: Seq<char>, i: int) -> Option<
    (Seq<(Seq<char>, JsonNode)>, int),
>
    decreases s.len() - i, 2int,
{
    match spec_parse_string(s, i) {
        None => None,
        Some((k, e1)) => {
            let j1 = skip_ws(s, e1);
            if 0 <= j1 < s.len() && s[j1] == ':' {
                let j2 = clip(skip_ws(s, j1 + 1), i, s.len() as int);
                match spec_parse_value(s, j2) {
                    None => None,
                    Some((v, e2)) => {
                        let j3 = skip_ws(s, e2);
                        if 0 <= j3 < s.len() && s[j3] == ',' {
                            let j4 = clip(skip_ws(s, j3 + 1), i + 1, s.len() as int);
                            match spec_parse_members(s, j4) {
                                Some((rest, e)) => Some((seq![(k, v)] + rest, e)),
                                None => None,
                            }
                        } else if 0 <= j3 < s.len() && s[j3] == '}' {
                            Some((seq![(k, v)], j3 + 1))
                        } else {
                            None
                        }
                    },
                }
            } else {
                None
            }
        },
    }
}

/// Parses a nonempty comma-separated element list at `i` (at the first
/// element), up to and including the closing bracket.
pub open spec fn spec_parse_elements(s: Seq<char>, i: int) -> Option<(Seq<JsonNode>, int)>
    decreases s.len() - i, 2int,
{
    if i < 0 || i >= s.len() {
        None
    } else {
        match spec_parse_value(s, i) {
        None => None,
        Some((v, e1)) => {
            let j1 = skip_ws(s, e1);
            if 0 <= j1 < s.len() && s[j1] == ',' {
                let j2 = clip(skip_ws(s, j1 + 1), i + 1, s.len() as int);
                match spec_parse_elements(s, j2) {
                    Some((rest, e)) => Some((seq![v] + rest, e)),
                    None => None,
                }
            } else if 0 <= j1 < s.len() && s[j1] == ']' {
                Some((seq![v], j1 + 1))
            } else {
                None
            }
        },
        }
    }
}

/// Parses a whole document: one value surrounded by whitespace and nothing
/// else.
pub open spec fn spec_parse_document(s: Seq<char>) -> Option<JsonNode> {
    match spec_parse_value(s, skip_ws(s, 0)) {
        Some((v, e)) => if skip_ws(s, e) == s.len() {
            Some(v)
        } else {
            None
        },
        None => None,
    }
}

/// Value of the last member with the given key, if any: a later duplicate
/// replaces an earlier one.
pub open spec fn lookup_member(ms: Seq<(Seq<char>, JsonNode)>, key: Seq<char>) -> Option<JsonNode>
    decreases ms.len(),
{
    if ms.len() == 0 {
        None
    } else {
        match lookup_member(ms.drop_first(), key) {
            Some(v) => Some(v),
            None => if ms[0].0 == key {
                Some(ms[0].1)
            } else {
                None
            },
        }
    }
}

/// The text of a value, when the value is a string.
pub open spec fn str_of(v: JsonNode) -> Option<Seq<char>> {
    match v {
        JsonNode::Str(t) => Some(t),
        _ => None,
    }
}

/// Text of a `message` object: the value of its `content` member, when that
/// value is a string.
pub open spec fn extract_message(v: JsonNode) -> Option<Seq<char>> {
    match v {
        JsonNode::Obj(ms) => match lookup_member(ms, "content"@) {
            Some(c) => str_of(c),
            None => None,
        },
        _ => None,
    }
}

/// Text of one element of `choices`: what its `message` member yields.
pub open spec fn extract_choice(v: JsonNode) -> Option<Seq<char>> {
    match v {
        JsonNode::Obj(ms) => match lookup_member(ms, "message"@) {
            Some(m) => extract_message(m),
            None => None,
        },
        _ => None,
    }
}

/// Text of a `choices` value: what its first element yields, when the value
/// is a nonempty array.
pub open spec fn extract_choices(v: JsonNode) -> Option<Seq<char>> {
    match v {
        JsonNode::Arr(es) => if es.len() > 0 {
            extract_choice(es[0])
        } else {
            None
        },
        _ => None,
    }
}

/// The text at `choices[0].message.content` of a document, when every step of
/// that path exists and ends at a string.
pub open spec fn content_of(doc: JsonNode) -> Option<Seq<char>> {
    match doc {
        JsonNode::Obj(ms) => match lookup_member(ms, "choices"@) {
            Some(c) => extract_choices(c),
            None => None,
        },
        _ => None,
    }
}

/// Hexadecimal digit character for a value below sixteen.
pub open spec fn hex_char(n: u32) -> char {
    if n < 10 {
        ((0x30 + n) as u32) as char
    } else {
        ((0x57 + n) as u32) as char
    }
}

/// JSON escaping of one character: quote and backslash get a backslash
/// escape, control characters a `\u00XX` escape, everything else stands as
/// itself.
pub open spec fn escape_char(c: char) -> Seq<char> {
    if c == '"' {
        seq!['\\', '"']
    } else if c == '\\' {
        seq!['\\', '\\']
    } else if (c as u32) < 0x20 {
        seq!['\\', 'u', '0', '0', hex_char((c as u32) / 16), hex_char((c as u32) % 16)]
    } else {
        seq![c]
    }
}

/// JSON escaping of a whole text.
pub open spec fn escape_text(s: Seq<char>) -> Seq<char>
    decreases s.len(),
{
    if s.len() == 0 {
        Seq::empty()
    } else {
        escape_text(s.drop_last()) + escape_char(s.last())
    }
}

/// Escaping distributes over concatenation.
pub proof fn lemma_escape_append(a: Seq<char>, b: Seq<char>)
    ensures
        escape_text(a + b) == escape_text(a) + escape_text(b),
    decreases b.len(),
{
    if b.len() == 0 {
        assert(a + b =~= a);
        assert(escape_text(a) + escape_text(b) =~= escape_text(a));
    } else {
        assert((a + b).drop_last() =~= a + b.drop_last());
        assert((a + b).last() == b.last());
        lemma_escape_append(a, b.drop_last());
        assert(escape_text(a) + escape_text(b.drop_last()) + escape_char(b.last()) =~= escape_text(
            a,
        ) + escape_text(b));
    }
}

/// Escaping one character is that character's escape.
proof fn lemma_escape_single(c: char)
    ensures
        escape_text(seq![c]) == escape_char(c),
{
    assert(seq![c].drop_last() =~= Seq::<char>::empty());
    assert(seq![c].last() == c);
    assert(escape_text(Seq::<char>::empty()) == Seq::<char>::empty());
    assert(Seq::<char>::empty() + escape_char(c) =~= escape_char(c));
}

/// A hexadecimal digit character decodes back to its value.
proof fn lemma_hex_char_val(n: u32)
    requires
        n < 16,
    ensures
        hex_val(hex_char(n)) == Some(n),
{
    if n == 0 {
        vstd::utf8::char_u32_cast('0', 0x30);
    } else if n == 1 {
        vstd::utf8::char_u32_cast('1', 0x31);
    } else if n == 2 {
        vstd::utf8::char_u32_cast('2', 0x32);
    } else if n == 3 {
        vstd::utf8::char_u32_cast('3', 0x33);
    } else if n == 4 {
        vstd::utf8::char_u32_cast('4', 0x34);
    } else if n == 5 {
        vstd::utf8::char_u32_cast('5', 0x35);
    } else if n == 6 {
        vstd::utf8::char_u32_cast('6', 0x36);
    } else if n == 7 {
        vstd::utf8::char_u32_cast('7', 0x37);
    } else if n == 8 {
        vstd::utf8::char_u32_cast('8', 0x38);
    } else if n == 9 {
        vstd::utf8::char_u32_cast('9', 0x39);
    } else if n == 10 {
        vstd::utf8::char_u32_cast('a', 0x61);
    } else if n == 11 {
        vstd::utf8::char_u32_cast('b', 0x62);
    } else if n == 12 {
        vstd::utf8::char_u32_cast('c', 0x63);
    } else if n == 13 {
        vstd::utf8::char_u32_cast('d', 0x64);
    } else if n == 14 {
        vstd::utf8::char_u32_cast('e', 0x65);
    } else {
        vstd::utf8::char_u32_cast('f', 0x66);
    }
}

/// Escaping loses nothing: wherever a text's escape stands in a document,
/// followed by a closing quote, decoding the string body from there yields
/// the original text, exactly.
#[verifier::rlimit(100)]
pub proof fn lemma_escape_round_trip(t: Seq<char>, i: int, s: Seq<char>)
    requires
        0 <= i,
        i + escape_text(s).len() + 1 <= t.len(),
        t.subrange(i, i + escape_text(s).len() + 1) == escape_text(s) + seq!['"'],
    ensures
        str_body(t, i) == Some((s, i + escape_text(s).len() + 1)),
    decreases s.len(),
{
    let full = escape_text(s) + seq!['"'];
    assert forall|j: int| i <= j < i + full.len() implies t[j] == full[j - i] by {
        assert(t.subrange(i, i + escape_text(s).len() + 1)[j - i] == t[j]);
    }
    if s.len() == 0 {
        assert(t[i] == '"');
        assert(str_body(t, i) == Some((Seq::<char>::empty(), i + 1)));
        assert(s =~= Seq::<char>::empty());
    } else {
        let c = s[0];
        let rest = s.drop_first();
        assert(seq![c] + rest =~= s);
        lemma_escape_append(seq![c], rest);
        lemma_escape_single(c);
        let e0 = escape_char(c);
        let r = escape_text(rest);
        let n = e0.len();
        assert(escape_text(s) == e0 + r);
        // the tail of the escape is itself an escape followed by the quote
        assert(t.subrange(i + n, i + n + r.len() + 1) =~= r + seq!['"']);
        lemma_escape_round_trip(t, i + n, rest);
        let e = i + n + r.len() + 1;
        assert(e == i + escape_text(s).len() + 1);
        let u = c as u32;
        if c == '"' {
            assert(t[i] == '\\' && t[i + 1] == '"');
            assert(str_body(t, i) == prepend_char('"', str_body(t, i + 2)));
            assert(seq!['"'] + rest =~= s);
        } else if c == '\\' {
            assert(t[i] == '\\' && t[i + 1] == '\\');
            assert(str_body(t, i) == prepend_char('\\', str_body(t, i + 2)));
            assert(seq!['\\'] + rest =~= s);
        } else if u < 0x20 {
            assert(t[i] == '\\' && t[i + 1] == 'u' && t[i + 2] == '0' && t[i + 3] == '0');
            assert(t[i + 4] == hex_char(u / 16) && t[i + 5] == hex_char(u % 16));
            vstd::utf8::char_u32_cast('0', 0x30);
            lemma_hex_char_val(u / 16);
            lemma_hex_char_val(u % 16);
            assert(hex4(t, i + 2) == Some((0 * 0x1000 + 0 * 0x100 + (u / 16) * 0x10 + (u
                % 16)) as u32));
            assert(u / 16 * 0x10 + u % 16 == u) by (nonlinear_arith);
            assert(hex4(t, i + 2) == Some(u));
            vstd::utf8::char_u32_cast(c, u);
            assert(str_body(t, i) == prepend_char(c, str_body(t, i + 6)));
            assert(seq![c] + rest =~= s);
        } else {
            assert(t[i] == c);
            assert(str_body(t, i) == prepend_char(c, str_body(t, i + 1)));
            assert(seq![c] + rest =~= s);
        }
    }
}

/// A serialized string field parses back to exactly the text it was built
/// from: quote, escaped text, quote decodes to the text, with nothing added,
/// lost or reordered.
pub proof fn lemma_string_serialization_round_trip(s: Seq<char>)
    ensures
        spec_parse_string(seq!['"'] + escape_text(s) + seq!['"'], 0) == Some(
            (s, (escape_text(s).len() + 2) as int),
        ),
{
    let t = seq!['"'] + escape_text(s) + seq!['"'];
    assert(t[0] == '"');
    assert(t.subrange(1, (1 + escape_text(s).len() + 1) as int) =~= escape_text(s) + seq!['"']);
    lemma_escape_round_trip(t, 1, s);
}

} // verus!
