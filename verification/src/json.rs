//! The JSON envelope of the wire protocol: string escaping for outbound
//! messages, and a parser for the flat JSON objects that clients send.
//!
//! The grammar accepted by the parser is the subset of JSON that the
//! protocol's control messages use: one object with string keys and
//! string, unsigned-integer, boolean or null values, with arbitrary
//! whitespace, field order and unknown fields.  Messages outside this
//! subset (nested containers, signed or fractional numbers, `\u` escapes)
//! are reported as malformed, and the caller drops them as the protocol
//! drops every malformed message.

use vstd::prelude::*;
use crate::digits::is_digit_char;
use crate::strutil::push_char;
use crate::strutil::str_eq;

verus! {

/// The hexadecimal digit for one value below 16, lower case.
pub open spec fn hex_char(d: int) -> char {
    if d < 10 {
        crate::digits::digit_char(d)
    } else if d == 10 {
        'a'
    } else if d == 11 {
        'b'
    } else if d == 12 {
        'c'
    } else if d == 13 {
        'd'
    } else if d == 14 {
        'e'
    } else {
        'f'
    }
}

/// The JSON escape of one character: quote, backslash and control
/// characters are escaped, everything else passes through.
pub open spec fn escape_char(c: char) -> Seq<char> {
    if c == '"' {
        seq!['\\', '"']
    } else if c == '\\' {
        seq!['\\', '\\']
    } else if c == '\u{8}' {
        seq!['\\', 'b']
    } else if c == '\u{c}' {
        seq!['\\', 'f']
    } else if c == '\n' {
        seq!['\\', 'n']
    } else if c == '\r' {
        seq!['\\', 'r']
    } else if c == '\t' {
        seq!['\\', 't']
    } else if (c as u32) < 32 {
        seq!['\\', 'u', '0', '0', hex_char((c as u32) as int / 16), hex_char((c as u32) as int % 16)]
    } else {
        seq![c]
    }
}

/// The JSON escape of a whole string, without the surrounding quotes.
pub open spec fn escape_string(s: Seq<char>) -> Seq<char>
    decreases s.len(),
{
    if s.len() == 0 {
        Seq::empty()
    } else {
        escape_char(s[0]) + escape_string(s.skip(1))
    }
}

fn hex_char_exec(d: u32) -> (c: char)
    requires
        d < 16,
    ensures
        c == hex_char(d as int),
{
    if d < 10 {
        crate::digits::digit_char_exec(d as usize)
    } else if d == 10 {
        'a'
    } else if d == 11 {
        'b'
    } else if d == 12 {
        'c'
    } else if d == 13 {
        'd'
    } else if d == 14 {
        'e'
    } else {
        'f'
    }
}

fn append_escaped_char(out: &mut String, c: char)
    ensures
        final(out)@ == old(out)@ + escape_char(c),
{
    let ghost pre = out@;
    if c == '"' {
        push_char(out, '\\');
        push_char(out, '"');
    } else if c == '\\' {
        push_char(out, '\\');
        push_char(out, '\\');
    } else if c == '\u{8}' {
        push_char(out, '\\');
        push_char(out, 'b');
    } else if c == '\u{c}' {
        push_char(out, '\\');
        push_char(out, 'f');
    } else if c == '\n' {
        push_char(out, '\\');
        push_char(out, 'n');
    } else if c == '\r' {
        push_char(out, '\\');
        push_char(out, 'r');
    } else if c == '\t' {
        push_char(out, '\\');
        push_char(out, 't');
    } else if (c as u32) < 32 {
        push_char(out, '\\');
        push_char(out, 'u');
        push_char(out, '0');
        push_char(out, '0');
        push_char(out, hex_char_exec((c as u32) / 16));
        push_char(out, hex_char_exec((c as u32) % 16));
    } else {
        push_char(out, c);
    }
    assert(out@ =~= pre + escape_char(c));
}

/// Appends the JSON escape of `s` to `out`.
pub fn append_escaped(out: &mut String, s: &str)
    ensures
        final(out)@ == old(out)@ + escape_string(s@),
{
    let len = s.unicode_len();
    let mut i: usize = 0;
    proof {
        assert(s@.skip(0) =~= s@);
        assert(old(out)@ + Seq::<char>::empty() =~= old(out)@);
    }
    while i < len
        invariant
            len == s@.len(),
            i <= len,
            out@ + escape_string(s@.skip(i as int)) == old(out)@ + escape_string(s@),
        decreases len - i,
    {
        let ghost pre = out@;
        let ghost rest = s@.skip(i as int);
        let c = s.get_char(i);
        assert(rest[0] == c);
        append_escaped_char(out, c);
        proof {
            assert(rest.skip(1) =~= s@.skip(i + 1));
            assert(escape_string(rest) =~= escape_char(c) + escape_string(s@.skip(i + 1)));
            assert(out@ + escape_string(s@.skip(i + 1)) =~= pre + escape_string(rest));
        }
        i += 1;
    }
    proof {
        assert(s@.skip(len as int) =~= Seq::<char>::empty());
        assert(out@ =~= old(out)@ + escape_string(s@));
    }
}

/// Whether `c` is JSON whitespace.
pub open spec fn is_ws(c: char) -> bool {
    c == ' ' || c == '\t' || c == '\n' || c == '\r'
}

/// The first position at or after `i` that does not hold whitespace.
pub open spec fn skip_ws(s: Seq<char>, i: int) -> int
    decreases s.len() - i,
{
    if 0 <= i < s.len() && is_ws(s[i]) {
        skip_ws(s, i + 1)
    } else {
        i
    }
}

proof fn lemma_skip_ws_bounds(s: Seq<char>, i: int)
    requires
        0 <= i <= s.len(),
    ensures
        i <= skip_ws(s, i) <= s.len(),
    decreases s.len() - i,
{
    if i < s.len() && is_ws(s[i]) {
        lemma_skip_ws_bounds(s, i + 1);
    }
}

fn skip_ws_exec(s: &str, len: usize, i: usize) -> (r: usize)
    requires
        len == s@.len(),
        i <= len,
    ensures
        r == skip_ws(s@, i as int),
        i <= r <= len,
    decreases len - i,
{
    if i < len {
        let c = s.get_char(i);
        if c == ' ' || c == '\t' || c == '\n' || c == '\r' {
            return skip_ws_exec(s, len, i + 1);
        }
    }
    i
}

/// The replacement character of a single-character JSON escape sequence.
pub open spec fn unescape(c: char) -> Option<char> {
    if c == '"' {
        Some('"')
    } else if c == '\\' {
        Some('\\')
    } else if c == '/' {
        Some('/')
    } else if c == 'b' {
        Some('\u{8}')
    } else if c == 'f' {
        Some('\u{c}')
    } else if c == 'n' {
        Some('\n')
    } else if c == 'r' {
        Some('\r')
    } else if c == 't' {
        Some('\t')
    } else {
        None
    }
}

/// Parses the body of a JSON string starting just after the opening quote:
/// returns the unescaped content and the position after the closing quote.
pub open spec fn parse_string_body(s: Seq<char>, i: int) -> Option<(Seq<char>, int)>
    decreases s.len() - i,
{
    if !(0 <= i < s.len()) {
        None
    } else if s[i] == '"' {
        Some((Seq::empty(), i + 1))
    } else if s[i] == '\\' {
        if i + 1 < s.len() && unescape(s[i + 1]) is Some {
            match parse_string_body(s, i + 2) {
                Some(p) => Some((seq![unescape(s[i + 1]).unwrap()] + p.0, p.1)),
                None => None,
            }
        } else {
            None
        }
    } else {
        match parse_string_body(s, i + 1) {
            Some(p) => Some((seq![s[i]] + p.0, p.1)),
            None => None,
        }
    }
}

proof fn lemma_string_body_bounds(s: Seq<char>, i: int)
    requires
        0 <= i,
    ensures
        parse_string_body(s, i) matches Some(p) ==> i < p.1 <= s.len(),
    decreases s.len() - i,
{
    if 0 <= i < s.len() && s[i] != '"' {
        if s[i] == '\\' {
            if i + 1 < s.len() && unescape(s[i + 1]) is Some {
                lemma_string_body_bounds(s, i + 2);
            }
        } else {
            lemma_string_body_bounds(s, i + 1);
        }
    }
}

fn parse_string_body_exec(s: &str, len: usize, i: usize) -> (r: Option<(String, usize)>)
    requires
        len == s@.len(),
        i <= len,
    ensures
        r is Some <==> parse_string_body(s@, i as int) is Some,
        r matches Some(p) ==> parse_string_body(s@, i as int) == Some((p.0@, p.1 as int))
            && i < p.1 <= len,
    decreases len - i,
{
    proof {
        lemma_string_body_bounds(s@, i as int);
    }
    if i >= len {
        return None;
    }
    let c = s.get_char(i);
    if c == '"' {
        let out = String::new();
        return Some((out, i + 1));
    }
    if c == '\\' {
        if i + 1 >= len {
            return None;
        }
        let e = s.get_char(i + 1);
        let u: char = if e == '"' {
            '"'
        } else if e == '\\' {
            '\\'
        } else if e == '/' {
            '/'
        } else if e == 'b' {
            '\u{8}'
        } else if e == 'f' {
            '\u{c}'
        } else if e == 'n' {
            '\n'
        } else if e == 'r' {
            '\r'
        } else if e == 't' {
            '\t'
        } else {
            return None;
        };
        assert(unescape(s@[i + 1]) == Some(u));
        match parse_string_body_exec(s, len, i + 2) {
            Some(p) => {
                let mut out = String::new();
                push_char(&mut out, u);
                out.append(p.0.as_str());
                assert(out@ =~= seq![u] + p.0@);
                return Some((out, p.1));
            }
            None => {
                return None;
            }
        }
    }
    match parse_string_body_exec(s, len, i + 1) {
        Some(p) => {
            let mut out = String::new();
            push_char(&mut out, c);
            out.append(p.0.as_str());
            assert(out@ =~= seq![c] + p.0@);
            Some((out, p.1))
        }
        None => None,
    }
}

/// The end of the run of decimal digits starting at `i`.
pub open spec fn digits_end(s: Seq<char>, i: int) -> int
    decreases s.len() - i,
{
    if 0 <= i < s.len() && is_digit_char(s[i]) {
        digits_end(s, i + 1)
    } else {
        i
    }
}

proof fn lemma_digits_end_bounds(s: Seq<char>, i: int)
    requires
        0 <= i <= s.len(),
    ensures
        i <= digits_end(s, i) <= s.len(),
    decreases s.len() - i,
{
    if i < s.len() && is_digit_char(s[i]) {
        lemma_digits_end_bounds(s, i + 1);
    }
}

fn digits_run_exec(s: &str, len: usize, i: usize) -> (r: (String, usize))
    requires
        len == s@.len(),
        i <= len,
    ensures
        r.1 == digits_end(s@, i as int),
        i <= r.1 <= len,
        r.0@ == s@.subrange(i as int, r.1 as int),
    decreases len - i,
{
    proof {
        lemma_digits_end_bounds(s@, i as int);
    }
    if i < len {
        let c = s.get_char(i);
        let v = c as u32;
        if 48 <= v && v <= 57 {
            let p = digits_run_exec(s, len, i + 1);
            let mut out = String::new();
            push_char(&mut out, c);
            out.append(p.0.as_str());
            assert(out@ =~= seq![c] + p.0@);
            assert(out@ =~= s@.subrange(i as int, p.1 as int));
            return (out, p.1);
        }
    }
    let out = String::new();
    assert(out@ =~= s@.subrange(i as int, i as int));
    (out, i)
}

/// Whether the characters of `w` stand in `s` at position `i`.
pub open spec fn matches_at(s: Seq<char>, i: int, w: Seq<char>) -> bool {
    0 <= i && i + w.len() <= s.len() && s.subrange(i, i + w.len()) == w
}

fn matches_lit(s: &str, len: usize, i: usize, w: &str) -> (r: bool)
    requires
        len == s@.len(),
        i <= len,
    ensures
        r == matches_at(s@, i as int, w@),
{
    let wlen = w.unicode_len();
    if wlen > len - i {
        assert(!matches_at(s@, i as int, w@));
        return false;
    }
    let mut j: usize = 0;
    while j < wlen
        invariant
            len == s@.len(),
            wlen == w@.len(),
            i + wlen <= len,
            j <= wlen,
            forall|k: int| 0 <= k < j ==> s@[i + k] == w@[k],
        decreases wlen - j,
    {
        if s.get_char(i + j) != w.get_char(j) {
            assert(s@.subrange(i as int, i + w@.len())[j as int] != w@[j as int]);
            return false;
        }
        j += 1;
    }
    assert(s@.subrange(i as int, i + w@.len()) =~= w@);
    true
}

/// One JSON value of the flat subset: a string, a run of digits
/// (kept as text), a boolean, or null.
pub enum JsonValue {
    Text(Seq<char>),
    Digits(Seq<char>),
    Truth(bool),
    Nothing,
}

/// The executable form of one parsed JSON value.
pub enum JsonValueExec {
    Text(String),
    Digits(String),
    Truth(bool),
    Nothing,
}

impl JsonValueExec {
    pub open spec fn view(&self) -> JsonValue {
        match self {
            JsonValueExec::Text(t) => JsonValue::Text(t@),
            JsonValueExec::Digits(d) => JsonValue::Digits(d@),
            JsonValueExec::Truth(b) => JsonValue::Truth(*b),
            JsonValueExec::Nothing => JsonValue::Nothing,
        }
    }
}

/// Parses one value of the flat subset at position `i`.
pub open spec fn parse_value(s: Seq<char>, i: int) -> Option<(JsonValue, int)> {
    if !(0 <= i < s.len()) {
        None
    } else if s[i] == '"' {
        match parse_string_body(s, i + 1) {
            Some(p) => Some((JsonValue::Text(p.0), p.1)),
            None => None,
        }
    } else if is_digit_char(s[i]) {
        Some((JsonValue::Digits(s.subrange(i, digits_end(s, i))), digits_end(s, i)))
    } else if matches_at(s, i, "true"@) {
        Some((JsonValue::Truth(true), i + 4))
    } else if matches_at(s, i, "false"@) {
        Some((JsonValue::Truth(false), i + 5))
    } else if matches_at(s, i, "null"@) {
        Some((JsonValue::Nothing, i + 4))
    } else {
        None
    }
}

proof fn lemma_value_bounds(s: Seq<char>, i: int)
    requires
        0 <= i,
    ensures
        parse_value(s, i) matches Some(p) ==> i < p.1 <= s.len(),
{
    reveal_strlit("true");
    reveal_strlit("false");
    reveal_strlit("null");
    if 0 <= i < s.len() {
        if s[i] == '"' {
            lemma_string_body_bounds(s, i + 1);
        } else if is_digit_char(s[i]) {
            lemma_digits_end_bounds(s, i + 1);
        }
    }
}

fn parse_value_exec(s: &str, len: usize, i: usize) -> (r: Option<(JsonValueExec, usize)>)
    requires
        len == s@.len(),
        i <= len,
    ensures
        r is Some <==> parse_value(s@, i as int) is Some,
        r matches Some(p) ==> parse_value(s@, i as int) == Some((p.0@, p.1 as int))
            && i < p.1 <= len,
{
    proof {
        lemma_value_bounds(s@, i as int);
    }
    if i >= len {
        return None;
    }
    let c = s.get_char(i);
    if c == '"' {
        match parse_string_body_exec(s, len, i + 1) {
            Some(p) => Some((JsonValueExec::Text(p.0), p.1)),
            None => None,
        }
    } else if 48 <= (c as u32) && (c as u32) <= 57 {
        let p = digits_run_exec(s, len, i);
        assert(digits_end(s@, i as int) > i);
        Some((JsonValueExec::Digits(p.0), p.1))
    } else if matches_lit(s, len, i, "true") {
        proof {
            reveal_strlit("true");
        }
        Some((JsonValueExec::Truth(true), i + 4))
    } else if matches_lit(s, len, i, "false") {
        proof {
            reveal_strlit("false");
        }
        Some((JsonValueExec::Truth(false), i + 5))
    } else if matches_lit(s, len, i, "null") {
        proof {
            reveal_strlit("null");
        }
        Some((JsonValueExec::Nothing, i + 4))
    } else {
        None
    }
}

/// The fields of a client control message that the protocol reads:
/// the `type` tag and the two count fields of the two streaming shapes.
/// Counts are kept as digit strings; their numeric value is checked
/// where the message is interpreted.
pub struct ProtocolFields {
    pub tag: Option<Seq<char>>,
    pub chunk_count: Option<Seq<char>>,
    pub count: Option<Seq<char>>,
}

/// The executable form of the protocol fields.
pub struct ProtocolFieldsExec {
    pub tag: Option<String>,
    pub chunk_count: Option<String>,
    pub count: Option<String>,
}

pub open spec fn opt_view(o: Option<String>) -> Option<Seq<char>> {
    match o {
        Some(s) => Some(s@),
        None => None,
    }
}

impl ProtocolFieldsExec {
    pub open spec fn view(&self) -> ProtocolFields {
        ProtocolFields {
            tag: opt_view(self.tag),
            chunk_count: opt_view(self.chunk_count),
            count: opt_view(self.count),
        }
    }
}

pub open spec fn empty_fields() -> ProtocolFields {
    ProtocolFields { tag: None, chunk_count: None, count: None }
}

/// Records one parsed member.  A known key must carry a value of its
/// expected kind and must not repeat; an unknown key is skipped.
pub open spec fn add_field(f: ProtocolFields, k: Seq<char>, v: JsonValue) -> Option<ProtocolFields> {
    if k == "type"@ {
        if f.tag is Some {
            None
        } else {
            match v {
                JsonValue::Text(t) => Some(ProtocolFields { tag: Some(t), ..f }),
                _ => None,
            }
        }
    } else if k == "chunk_count"@ {
        if f.chunk_count is Some {
            None
        } else {
            match v {
                JsonValue::Digits(d) => Some(ProtocolFields { chunk_count: Some(d), ..f }),
                _ => None,
            }
        }
    } else if k == "count"@ {
        if f.count is Some {
            None
        } else {
            match v {
                JsonValue::Digits(d) => Some(ProtocolFields { count: Some(d), ..f }),
                _ => None,
            }
        }
    } else {
        Some(f)
    }
}

fn add_field_exec(f: ProtocolFieldsExec, k: &String, v: JsonValueExec) -> (r: Option<
    ProtocolFieldsExec,
>)
    ensures
        r is Some <==> add_field(f@, k@, v@) is Some,
        r matches Some(g) ==> add_field(f@, k@, v@) == Some(g@),
{
    if str_eq(k.as_str(), "type") {
        if f.tag.is_some() {
            None
        } else {
            match v {
                JsonValueExec::Text(t) => Some(ProtocolFieldsExec { tag: Some(t), ..f }),
                _ => None,
            }
        }
    } else if str_eq(k.as_str(), "chunk_count") {
        if f.chunk_count.is_some() {
            None
        } else {
            match v {
                JsonValueExec::Digits(d) => Some(ProtocolFieldsExec { chunk_count: Some(d), ..f }),
                _ => None,
            }
        }
    } else if str_eq(k.as_str(), "count") {
        if f.count.is_some() {
            None
        } else {
            match v {
                JsonValueExec::Digits(d) => Some(ProtocolFieldsExec { count: Some(d), ..f }),
                _ => None,
            }
        }
    } else {
        Some(f)
    }
}

/// Parses the members of an object from the start of a key, collecting
/// the protocol fields, up to and including the closing brace.
pub open spec fn parse_members(s: Seq<char>, i: int, f: ProtocolFields) -> Option<
    (ProtocolFields, int),
>
    decreases s.len() - i,
    when 0 <= i
    via parse_members_decreases
{
    if !(0 <= i < s.len() && s[i] == '"') {
        None
    } else {
        match parse_string_body(s, i + 1) {
            None => None,
            Some(kp) => {
                let j = skip_ws(s, kp.1);
                if !(j < s.len() && s[j] == ':') {
                    None
                } else {
                    match parse_value(s, skip_ws(s, j + 1)) {
                        None => None,
                        Some(vp) => match add_field(f, kp.0, vp.0) {
                            None => None,
                            Some(f2) => {
                                let e = skip_ws(s, vp.1);
                                if e < s.len() && s[e] == ',' {
                                    parse_members(s, skip_ws(s, e + 1), f2)
                                } else if e < s.len() && s[e] == '}' {
                                    Some((f2, e + 1))
                                } else {
                                    None
                                }
                            },
                        },
                    }
                }
            },
        }
    }
}

#[via_fn]
proof fn parse_members_decreases(s: Seq<char>, i: int, f: ProtocolFields) {
    if 0 <= i < s.len() && s[i] == '"' {
        lemma_string_body_bounds(s, i + 1);
        match parse_string_body(s, i + 1) {
            None => {}
            Some(kp) => {
                lemma_skip_ws_bounds(s, kp.1);
                let j = skip_ws(s, kp.1);
                if j < s.len() && s[j] == ':' {
                    lemma_skip_ws_bounds(s, j + 1);
                    lemma_value_bounds(s, skip_ws(s, j + 1));
                    match parse_value(s, skip_ws(s, j + 1)) {
                        None => {}
                        Some(vp) => {
                            lemma_skip_ws_bounds(s, vp.1);
                            let e = skip_ws(s, vp.1);
                            if e < s.len() && s[e] == ',' {
                                lemma_skip_ws_bounds(s, e + 1);
                            }
                        }
                    }
                }
            }
        }
    }
}

proof fn lemma_members_bounds(s: Seq<char>, i: int, f: ProtocolFields)
    requires
        0 <= i,
    ensures
        parse_members(s, i, f) matches Some(p) ==> i < p.1 <= s.len(),
    decreases s.len() - i,
{
    if 0 <= i < s.len() && s[i] == '"' {
        lemma_string_body_bounds(s, i + 1);
        match parse_string_body(s, i + 1) {
            None => {}
            Some(kp) => {
                lemma_skip_ws_bounds(s, kp.1);
                let j = skip_ws(s, kp.1);
                if j < s.len() && s[j] == ':' {
                    lemma_skip_ws_bounds(s, j + 1);
                    lemma_value_bounds(s, skip_ws(s, j + 1));
                    match parse_value(s, skip_ws(s, j + 1)) {
                        None => {}
                        Some(vp) => {
                            lemma_skip_ws_bounds(s, vp.1);
                            let e = skip_ws(s, vp.1);
                            if e < s.len() && s[e] == ',' {
                                lemma_skip_ws_bounds(s, e + 1);
                                match add_field(f, kp.0, vp.0) {
                                    None => {}
                                    Some(f2) => {
                                        lemma_members_bounds(s, skip_ws(s, e + 1), f2);
                                    }
                                }
                            }
                        }
                    }
                }
            }
        }
    }
}

fn parse_members_exec(s: &str, len: usize, i: usize, f: ProtocolFieldsExec) -> (r: Option<
    (ProtocolFieldsExec, usize),
>)
    requires
        len == s@.len(),
        i <= len,
    ensures
        r is Some <==> parse_members(s@, i as int, f@) is Some,
        r matches Some(p) ==> parse_members(s@, i as int, f@) == Some((p.0@, p.1 as int))
            && i < p.1 <= len,
    decreases len - i,
{
    proof {
        lemma_members_bounds(s@, i as int, f@);
    }
    if i >= len {
        return None;
    }
    if s.get_char(i) != '"' {
        return None;
    }
    let kp = match parse_string_body_exec(s, len, i + 1) {
        Some(kp) => kp,
        None => {
            return None;
        },
    };
    let j = skip_ws_exec(s, len, kp.1);
    if !(j < len && s.get_char(j) == ':') {
        return None;
    }
    let vstart = skip_ws_exec(s, len, j + 1);
    let vp = match parse_value_exec(s, len, vstart) {
        Some(vp) => vp,
        None => {
            return None;
        },
    };
    let f2 = match add_field_exec(f, &kp.0, vp.0) {
        Some(f2) => f2,
        None => {
            return None;
        },
    };
    let e = skip_ws_exec(s, len, vp.1);
    if e < len && s.get_char(e) == ',' {
        let next = skip_ws_exec(s, len, e + 1);
        parse_members_exec(s, len, next, f2)
    } else if e < len && s.get_char(e) == '}' {
        Some((f2, e + 1))
    } else {
        None
    }
}

/// Parses one whole text frame as a flat JSON object and collects the
/// protocol fields; `None` for anything outside the accepted subset.
pub open spec fn parse_object(s: Seq<char>) -> Option<ProtocolFields> {
    let i = skip_ws(s, 0);
    if !(i < s.len() && s[i] == '{') {
        None
    } else {
        let j = skip_ws(s, i + 1);
        if j < s.len() && s[j] == '}' {
            if skip_ws(s, j + 1) == s.len() {
                Some(empty_fields())
            } else {
                None
            }
        } else {
            match parse_members(s, j, empty_fields()) {
                None => None,
                Some(p) => {
                    if skip_ws(s, p.1) == s.len() {
                        Some(p.0)
                    } else {
                        None
                    }
                },
            }
        }
    }
}

/// Parses one whole text frame as a flat JSON object.
pub fn parse_object_exec(s: &str) -> (r: Option<ProtocolFieldsExec>)
    ensures
        r is Some <==> parse_object(s@) is Some,
        r matches Some(f) ==> parse_object(s@) == Some(f@),
{
    let len = s.unicode_len();
    let i = skip_ws_exec(s, len, 0);
    if !(i < len && s.get_char(i) == '{') {
        return None;
    }
    let j = skip_ws_exec(s, len, i + 1);
    if j < len && s.get_char(j) == '}' {
        if skip_ws_exec(s, len, j + 1) == len {
            let f = ProtocolFieldsExec { tag: None, chunk_count: None, count: None };
            assert(f@ == empty_fields());
            return Some(f);
        } else {
            return None;
        }
    }
    let f0 = ProtocolFieldsExec { tag: None, chunk_count: None, count: None };
    assert(f0@ == empty_fields());
    match parse_members_exec(s, len, j, f0) {
        None => None,
        Some(p) => {
            if skip_ws_exec(s, len, p.1) == len {
                Some(p.0)
            } else {
                None
            }
        },
    }
}

} // verus!
