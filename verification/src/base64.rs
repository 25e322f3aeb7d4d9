//! Base64 encoding of key chunks for JSON-embedded delivery: the standard
//! alphabet, `=` padding, no line wrapping.

use vstd::prelude::*;
use crate::strutil::push_char;

verus! {

/// The base64 alphabet: the character for one 6-bit value.
pub open spec fn b64_char(v: u8) -> char {
    if v < 26 {
        ((65 + v) as u8) as char
    } else if v < 52 {
        ((97 + (v - 26)) as u8) as char
    } else if v < 62 {
        ((48 + (v - 52)) as u8) as char
    } else if v == 62 {
        '+'
    } else {
        '/'
    }
}

/// Standard base64 with `=` padding: three input bytes become four output
/// characters; a final group of one or two bytes is padded with `=`.
pub open spec fn spec_base64(s: Seq<u8>) -> Seq<char>
    decreases s.len(),
{
    if s.len() == 0 {
        Seq::empty()
    } else {
        let b0 = s[0];
        if s.len() == 1 {
            seq![b64_char(b0 >> 2), b64_char((b0 & 3) << 4), '=', '=']
        } else {
            let b1 = s[1];
            if s.len() == 2 {
                seq![
                    b64_char(b0 >> 2),
                    b64_char(((b0 & 3) << 4) | (b1 >> 4)),
                    b64_char((b1 & 15) << 2),
                    '=',
                ]
            } else {
                let b2 = s[2];
                seq![
                    b64_char(b0 >> 2),
                    b64_char(((b0 & 3) << 4) | (b1 >> 4)),
                    b64_char(((b1 & 15) << 2) | (b2 >> 6)),
                    b64_char(b2 & 63),
                ] + spec_base64(s.skip(3))
            }
        }
    }
}

fn b64_char_exec(v: u8) -> (c: char)
    ensures
        c == b64_char(v),
{
    if v < 26 {
        (65 + v) as char
    } else if v < 52 {
        (97 + (v - 26)) as char
    } else if v < 62 {
        (48 + (v - 52)) as char
    } else if v == 62 {
        '+'
    } else {
        '/'
    }
}

/// Encodes `data` as base64.
pub fn base64_encode(data: &Vec<u8>) -> (r: String)
    ensures
        r@ == spec_base64(data@),
{
    let len = data.len();
    let mut out = String::new();
    let mut i: usize = 0;
    proof {
        assert(data@.skip(0) =~= data@);
        assert(out@ + spec_base64(data@) =~= spec_base64(data@));
    }
    while i < len
        invariant
            len == data@.len(),
            i <= len,
            out@ + spec_base64(data@.skip(i as int)) == spec_base64(data@),
        decreases len - i,
    {
        let ghost pre = out@;
        let ghost rest = data@.skip(i as int);
        let b0 = data[i];
        assert(rest[0] == b0);
        if len - i == 1 {
            push_char(&mut out, b64_char_exec(b0 >> 2));
            push_char(&mut out, b64_char_exec((b0 & 3) << 4));
            push_char(&mut out, '=');
            push_char(&mut out, '=');
            proof {
                assert(spec_base64(rest) =~= seq![
                    b64_char(b0 >> 2),
                    b64_char((b0 & 3) << 4),
                    '=',
                    '=',
                ]);
                assert(out@ =~= pre + spec_base64(rest));
                assert(data@.skip(len as int) =~= Seq::<u8>::empty());
                assert(out@ + spec_base64(data@.skip(len as int)) =~= spec_base64(data@));
            }
            i = len;
        } else if len - i == 2 {
            let b1 = data[i + 1];
            assert(rest[1] == b1);
            push_char(&mut out, b64_char_exec(b0 >> 2));
            push_char(&mut out, b64_char_exec(((b0 & 3) << 4) | (b1 >> 4)));
            push_char(&mut out, b64_char_exec((b1 & 15) << 2));
            push_char(&mut out, '=');
            proof {
                assert(spec_base64(rest) =~= seq![
                    b64_char(b0 >> 2),
                    b64_char(((b0 & 3) << 4) | (b1 >> 4)),
                    b64_char((b1 & 15) << 2),
                    '=',
                ]);
                assert(out@ =~= pre + spec_base64(rest));
                assert(data@.skip(len as int) =~= Seq::<u8>::empty());
                assert(out@ + spec_base64(data@.skip(len as int)) =~= spec_base64(data@));
            }
            i = len;
        } else {
            let b1 = data[i + 1];
            let b2 = data[i + 2];
            assert(rest[1] == b1);
            assert(rest[2] == b2);
            push_char(&mut out, b64_char_exec(b0 >> 2));
            push_char(&mut out, b64_char_exec(((b0 & 3) << 4) | (b1 >> 4)));
            push_char(&mut out, b64_char_exec(((b1 & 15) << 2) | (b2 >> 6)));
            push_char(&mut out, b64_char_exec(b2 & 63));
            proof {
                assert(rest.skip(3) =~= data@.skip(i + 3));
                assert(spec_base64(rest) =~= seq![
                    b64_char(b0 >> 2),
                    b64_char(((b0 & 3) << 4) | (b1 >> 4)),
                    b64_char(((b1 & 15) << 2) | (b2 >> 6)),
                    b64_char(b2 & 63),
                ] + spec_base64(data@.skip(i + 3)));
                assert(out@ =~= pre + seq![
                    b64_char(b0 >> 2),
                    b64_char(((b0 & 3) << 4) | (b1 >> 4)),
                    b64_char(((b1 & 15) << 2) | (b2 >> 6)),
                    b64_char(b2 & 63),
                ]);
                assert(out@ + spec_base64(data@.skip(i + 3)) =~= pre + spec_base64(rest));
            }
            i += 3;
        }
    }
    proof {
        assert(data@.skip(len as int) =~= Seq::<u8>::empty());
        assert(out@ =~= spec_base64(data@));
    }
    out
}

/// The length of a base64 encoding: four characters for every started
/// group of three input bytes.
pub proof fn lemma_base64_len(s: Seq<u8>)
    ensures
        spec_base64(s).len() == 4 * ((s.len() + 2) / 3),
    decreases s.len(),
{
    if s.len() > 2 {
        lemma_base64_len(s.skip(3));
    }
}

} // verus!
