//! The connection-upgrade handshake of the streaming endpoints: the
//! upgrade check, and the session identity derived from the request's
//! path and query.

use vstd::prelude::*;
use crate::strutil::push_char;
use crate::session::VernamSession;
use crate::messages::render_connected;

verus! {

/// A non-upgrade request reached a streaming-only endpoint; no session
/// is created.
#[derive(Clone, Copy, PartialEq, Eq, Structural, Debug)]
pub struct TransportRequired;

pub open spec fn opt_str_view(h: Option<String>) -> Option<Seq<char>> {
    match h {
        Some(s) => Some(s@),
        None => None,
    }
}

/// Whether an `Upgrade` header names a WebSocket upgrade.
pub open spec fn spec_upgrade_is_websocket(h: Option<Seq<char>>) -> bool {
    h matches Some(v) && v == "websocket"@
}

/// Checks the `Upgrade` header of a streaming request.
pub fn upgrade_is_websocket(h: &Option<String>) -> (r: bool)
    ensures
        r == spec_upgrade_is_websocket(opt_str_view(*h)),
{
    match h {
        Some(v) => crate::strutil::str_eq(v.as_str(), "websocket"),
        None => false,
    }
}

/// The last `/`-separated segment of a path: the session id of a
/// session-scoped connection.
pub open spec fn spec_last_segment(p: Seq<char>) -> Seq<char>
    decreases p.len(),
{
    if p.len() == 0 {
        Seq::empty()
    } else if p.last() == '/' {
        Seq::empty()
    } else {
        spec_last_segment(p.drop_last()).push(p.last())
    }
}

fn last_segment_upto(s: &str, end: usize) -> (r: String)
    requires
        end <= s@.len(),
    ensures
        r@ == spec_last_segment(s@.take(end as int)),
    decreases end,
{
    if end == 0 {
        let r = String::new();
        assert(s@.take(0) =~= Seq::<char>::empty());
        r
    } else {
        let c = s.get_char(end - 1);
        assert(s@.take(end as int).last() == c);
        if c == '/' {
            String::new()
        } else {
            let mut r = last_segment_upto(s, end - 1);
            push_char(&mut r, c);
            proof {
                assert(s@.take(end as int).drop_last() =~= s@.take(end as int - 1));
            }
            r
        }
    }
}

/// Extracts the last path segment.
pub fn last_segment(s: &str) -> (r: String)
    ensures
        r@ == spec_last_segment(s@),
{
    let l = s.unicode_len();
    let r = last_segment_upto(s, l);
    proof {
        assert(s@.take(l as int) =~= s@);
    }
    r
}

/// The end of the query pair starting at `i`: the next `&` or the end.
pub open spec fn pair_end(q: Seq<char>, i: int) -> int
    decreases q.len() - i,
{
    if 0 <= i < q.len() && q[i] != '&' {
        pair_end(q, i + 1)
    } else {
        i
    }
}

proof fn lemma_pair_end_bounds(q: Seq<char>, i: int)
    requires
        0 <= i <= q.len(),
    ensures
        i <= pair_end(q, i) <= q.len(),
    decreases q.len() - i,
{
    if i < q.len() && q[i] != '&' {
        lemma_pair_end_bounds(q, i + 1);
    }
}

/// The position of the first `=` in `[i, end)`, or `end`.
pub open spec fn key_end(q: Seq<char>, i: int, end: int) -> int
    decreases end - i,
{
    if 0 <= i < end <= q.len() && q[i] != '=' {
        key_end(q, i + 1, end)
    } else {
        i
    }
}

proof fn lemma_key_end_bounds(q: Seq<char>, i: int, end: int)
    requires
        0 <= i <= end <= q.len(),
    ensures
        i <= key_end(q, i, end) <= end,
    decreases end - i,
{
    if i < end && q[i] != '=' {
        lemma_key_end_bounds(q, i + 1, end);
    }
}

/// The value of one hexadecimal digit, or a negative value for any
/// other character.
pub open spec fn hex_val(c: char) -> int {
    if '0' <= c && c <= '9' {
        c as int - '0' as int
    } else if 'a' <= c && c <= 'f' {
        c as int - 'a' as int + 10
    } else if 'A' <= c && c <= 'F' {
        c as int - 'A' as int + 10
    } else {
        -1
    }
}

/// Form-decoding of one query component: `+` stands for a space and
/// `%XX` with an ASCII code for that character; anything else, a
/// non-ASCII escape included, passes through unchanged.
pub open spec fn pct_decode(s: Seq<char>) -> Seq<char>
    decreases s.len(),
{
    if s.len() == 0 {
        Seq::empty()
    } else if s[0] == '+' {
        seq![' '] + pct_decode(s.skip(1))
    } else if s[0] == '%' && s.len() >= 3 && hex_val(s[1]) >= 0 && hex_val(s[2]) >= 0 && hex_val(
        s[1],
    ) * 16 + hex_val(s[2]) < 128 {
        seq![((hex_val(s[1]) * 16 + hex_val(s[2])) as u8) as char] + pct_decode(s.skip(3))
    } else {
        seq![s[0]] + pct_decode(s.skip(1))
    }
}

fn hex_val_exec(c: char) -> (r: i8)
    ensures
        r as int == hex_val(c),
{
    let v = c as u32;
    if 48 <= v && v <= 57 {
        (v - 48) as i8
    } else if 97 <= v && v <= 102 {
        (v - 97 + 10) as i8
    } else if 65 <= v && v <= 70 {
        (v - 65 + 10) as i8
    } else {
        -1
    }
}

fn pct_decode_from(s: &str, len: usize, i: usize) -> (r: String)
    requires
        len == s@.len(),
        i <= len,
    ensures
        r@ == pct_decode(s@.skip(i as int)),
    decreases len - i,
{
    let ghost rest = s@.skip(i as int);
    if i >= len {
        let r = String::new();
        assert(rest =~= Seq::<char>::empty());
        return r;
    }
    let c = s.get_char(i);
    assert(rest[0] == c);
    if c == '+' {
        let mut out = String::new();
        push_char(&mut out, ' ');
        out.append(pct_decode_from(s, len, i + 1).as_str());
        proof {
            assert(rest.skip(1) =~= s@.skip(i + 1));
            assert(out@ =~= seq![' '] + pct_decode(s@.skip(i + 1)));
        }
        return out;
    }
    if c == '%' && len - i > 2 {
        let h = hex_val_exec(s.get_char(i + 1));
        let l = hex_val_exec(s.get_char(i + 2));
        assert(rest[1] == s@[i + 1] && rest[2] == s@[i + 2]);
        if h >= 0 && l >= 0 {
            let code: u32 = (h as u32) * 16 + (l as u32);
            if code < 128 {
                let mut out = String::new();
                push_char(&mut out, (code as u8) as char);
                out.append(pct_decode_from(s, len, i + 3).as_str());
                proof {
                    assert(rest.skip(3) =~= s@.skip(i + 3));
                    assert(out@ =~= seq![(code as u8) as char] + pct_decode(s@.skip(i + 3)));
                }
                return out;
            }
        }
    }
    let mut out = String::new();
    push_char(&mut out, c);
    out.append(pct_decode_from(s, len, i + 1).as_str());
    proof {
        assert(rest.skip(1) =~= s@.skip(i + 1));
        assert(out@ =~= seq![c] + pct_decode(s@.skip(i + 1)));
    }
    out
}

/// Form-decodes one query component.
pub fn pct_decode_str(s: &str) -> (r: String)
    ensures
        r@ == pct_decode(s@),
{
    let len = s.unicode_len();
    let r = pct_decode_from(s, len, 0);
    proof {
        assert(s@.skip(0) =~= s@);
    }
    r
}

/// The value of the `role` query parameter among the pairs from `i` on,
/// keys and values form-decoded; a later pair overrides an earlier one,
/// as a map collected from the pairs would have it.
pub open spec fn spec_role_from(q: Seq<char>, i: int) -> Option<Seq<char>>
    decreases q.len() - i,
    when 0 <= i
    via spec_role_from_decreases
{
    if !(0 <= i < q.len()) {
        None
    } else {
        let pe = pair_end(q, i);
        let ke = key_end(q, i, pe);
        let this: Option<Seq<char>> = if pct_decode(q.subrange(i, ke)) == "role"@ {
            Some(
                if ke < pe {
                    pct_decode(q.subrange(ke + 1, pe))
                } else {
                    Seq::empty()
                },
            )
        } else {
            None
        };
        if pe >= q.len() {
            this
        } else {
            match spec_role_from(q, pe + 1) {
                Some(v) => Some(v),
                None => this,
            }
        }
    }
}

#[via_fn]
proof fn spec_role_from_decreases(q: Seq<char>, i: int) {
    if 0 <= i < q.len() {
        lemma_pair_end_bounds(q, i);
    }
}

/// The role of a session-scoped connection: the `role` query parameter,
/// or `sender` when the query names none.
pub open spec fn spec_role(q: Seq<char>) -> Seq<char> {
    match spec_role_from(q, 0) {
        Some(v) => v,
        None => "sender"@,
    }
}

fn substring_of(s: &str, from: usize, to: usize) -> (r: String)
    requires
        from <= to <= s@.len(),
    ensures
        r@ == s@.subrange(from as int, to as int),
    decreases to - from,
{
    if from == to {
        let r = String::new();
        assert(s@.subrange(from as int, to as int) =~= Seq::<char>::empty());
        r
    } else {
        let mut r = substring_of(s, from, to - 1);
        let c = s.get_char(to - 1);
        push_char(&mut r, c);
        proof {
            assert(s@.subrange(from as int, to as int).drop_last() =~= s@.subrange(
                from as int,
                to as int - 1,
            ));
            assert(s@.subrange(from as int, to as int).last() == c);
            assert(r@ =~= s@.subrange(from as int, to as int));
        }
        r
    }
}

fn pair_end_exec(q: &str, len: usize, i: usize) -> (r: usize)
    requires
        len == q@.len(),
        i <= len,
    ensures
        r == pair_end(q@, i as int),
        i <= r <= len,
    decreases len - i,
{
    proof {
        lemma_pair_end_bounds(q@, i as int);
    }
    if i < len && q.get_char(i) != '&' {
        pair_end_exec(q, len, i + 1)
    } else {
        i
    }
}

fn key_end_exec(q: &str, len: usize, i: usize, end: usize) -> (r: usize)
    requires
        len == q@.len(),
        i <= end <= len,
    ensures
        r == key_end(q@, i as int, end as int),
        i <= r <= end,
    decreases end - i,
{
    proof {
        lemma_key_end_bounds(q@, i as int, end as int);
    }
    if i < end && q.get_char(i) != '=' {
        key_end_exec(q, len, i + 1, end)
    } else {
        i
    }
}

fn role_from(q: &str, len: usize, i: usize) -> (r: Option<String>)
    requires
        len == q@.len(),
        i <= len,
    ensures
        r is Some <==> spec_role_from(q@, i as int) is Some,
        r matches Some(v) ==> spec_role_from(q@, i as int) == Some(v@),
    decreases len - i,
{
    proof {
        if (i as int) < len as int {
            lemma_pair_end_bounds(q@, i as int);
            lemma_key_end_bounds(q@, i as int, pair_end(q@, i as int));
        }
    }
    if i >= len {
        return None;
    }
    let pe = pair_end_exec(q, len, i);
    let ke = key_end_exec(q, len, i, pe);
    let this: Option<String> = if crate::strutil::str_eq(
        pct_decode_str(substring_of(q, i, ke).as_str()).as_str(),
        "role",
    ) {
        Some(
            if ke < pe {
                pct_decode_str(substring_of(q, ke + 1, pe).as_str())
            } else {
                String::new()
            },
        )
    } else {
        None
    };
    if pe >= len {
        this
    } else {
        match role_from(q, len, pe + 1) {
            Some(v) => Some(v),
            None => this,
        }
    }
}

/// Extracts the role from a query string, defaulting to `sender`.
pub fn role_of_query(q: &str) -> (r: String)
    ensures
        r@ == spec_role(q@),
{
    let len = q.unicode_len();
    match role_from(q, len, 0) {
        Some(v) => v,
        None => String::from_str("sender"),
    }
}

/// Performs the handshake decisions for one session-scoped upgrade
/// request: rejects a non-upgrade request, derives the session id from
/// the last path segment and the role from the query, and produces the
/// `connected` greeting for the transport to send first.
pub fn connect(path: &str, query: &str, upgrade: &Option<String>) -> (r: Result<
    (VernamSession, String),
    TransportRequired,
>)
    ensures
        r is Ok <==> spec_upgrade_is_websocket(opt_str_view(*upgrade)),
        r matches Ok(p) ==> {
            &&& p.0.session_id@ == spec_last_segment(path@)
            &&& p.0.role@ == spec_role(query@)
            &&& p.0.chunks_generated == 0
            &&& p.0.phase is Idle
            &&& p.0.mode is Text
            &&& p.0.wf()
            &&& p.1@ == render_connected(spec_last_segment(path@), spec_role(query@))
        },
{
    if !upgrade_is_websocket(upgrade) {
        return Err(TransportRequired);
    }
    let session_id = last_segment(path);
    let role = role_of_query(query);
    let s = VernamSession::new_session(session_id, role);
    let greeting = s.connected_message();
    Ok((s, greeting))
}

} // verus!
