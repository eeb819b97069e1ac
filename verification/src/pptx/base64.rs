//! Base64url (RFC 4648 §5, unpadded), used by the `pptd:icon` extension
//! that carries an icon's name through a PPTX round trip.

use vstd::prelude::*;

use crate::text::{chars_of, push_char};

verus! {

/// The alphabet letter of a six-bit value.
pub open spec fn b64_char(v: int) -> char {
    if v < 26 {
        (65 + v) as char
    } else if v < 52 {
        (97 + v - 26) as char
    } else if v < 62 {
        (48 + v - 52) as char
    } else if v == 62 {
        '-'
    } else {
        '_'
    }
}

/// The six-bit value of an alphabet letter.
pub open spec fn b64_value(c: char) -> Option<int> {
    if 'A' <= c && c <= 'Z' {
        Some(c as int - 65)
    } else if 'a' <= c && c <= 'z' {
        Some(c as int - 97 + 26)
    } else if '0' <= c && c <= '9' {
        Some(c as int - 48 + 52)
    } else if c == '-' {
        Some(62)
    } else if c == '_' {
        Some(63)
    } else {
        None
    }
}

/// One group of one to three bytes as two to four letters.
pub open spec fn encode_group(d: Seq<u8>) -> Seq<char> {
    let b0 = d[0] as int;
    let b1 = if d.len() > 1 { d[1] as int } else { 0 };
    let b2 = if d.len() > 2 { d[2] as int } else { 0 };
    let head = seq![b64_char(b0 / 4), b64_char((b0 % 4) * 16 + b1 / 16)];
    if d.len() == 1 {
        head
    } else if d.len() == 2 {
        head.push(b64_char((b1 % 16) * 4 + b2 / 64))
    } else {
        head.push(b64_char((b1 % 16) * 4 + b2 / 64)).push(b64_char(b2 % 64))
    }
}

/// Base64url without padding: each group of three bytes becomes four
/// letters; a final group of one or two bytes becomes two or three.
pub open spec fn base64url_spec(d: Seq<u8>) -> Seq<char>
    decreases d.len(),
{
    if d.len() == 0 {
        Seq::empty()
    } else if d.len() <= 3 {
        encode_group(d)
    } else {
        encode_group(d.take(3)) + base64url_spec(d.skip(3))
    }
}

/// The value of the letter at `i` (zero for a non-letter).
pub open spec fn value_at(s: Seq<char>, i: int) -> int {
    match b64_value(s[i]) {
        Some(v) => v,
        None => 0,
    }
}

/// The bytes of a group of up to four letters: eight bits for every full
/// byte their six-bit values hold.
pub open spec fn decode_group(s: Seq<char>) -> Seq<u8> {
    let v0 = value_at(s, 0);
    let v1 = value_at(s, 1);
    let v2 = value_at(s, 2);
    let v3 = value_at(s, 3);
    let b0 = (v0 * 4 + v1 / 16) as u8;
    let b1 = ((v1 % 16) * 16 + v2 / 4) as u8;
    let b2 = ((v2 % 4) * 64 + v3) as u8;
    if s.len() < 2 {
        Seq::empty()
    } else if s.len() == 2 {
        seq![b0]
    } else if s.len() == 3 {
        seq![b0, b1]
    } else {
        seq![b0, b1, b2]
    }
}

/// The bytes of a letter sequence, group by group.
pub open spec fn decode_groups(s: Seq<char>) -> Seq<u8>
    decreases s.len(),
{
    if s.len() <= 4 {
        decode_group(s)
    } else {
        decode_group(s.take(4)) + decode_groups(s.skip(4))
    }
}

/// Every character is in the alphabet.
pub open spec fn all_letters(s: Seq<char>) -> bool {
    forall|i: int| 0 <= i < s.len() ==> (#[trigger] b64_value(s[i])) is Some
}

/// Base64url decoding: `None` when a character is outside the alphabet.
pub open spec fn base64url_decode_spec(s: Seq<char>) -> Option<Seq<u8>> {
    if all_letters(s) {
        Some(decode_groups(s))
    } else {
        None
    }
}

fn letter(v: u8) -> (c: char)
    requires
        v < 64,
    ensures
        c == b64_char(v as int),
{
    if v < 26 {
        (65 + v) as char
    } else if v < 52 {
        (97 + v - 26) as char
    } else if v < 62 {
        (48 + v - 52) as char
    } else if v == 62 {
        '-'
    } else {
        '_'
    }
}

fn letter_value(c: char) -> (r: Option<u8>)
    ensures
        match r {
            Some(v) => b64_value(c) == Some(v as int) && v < 64,
            None => b64_value(c) is None,
        },
{
    if 'A' <= c && c <= 'Z' {
        Some(((c as u32) - 65) as u8)
    } else if 'a' <= c && c <= 'z' {
        Some(((c as u32) - 97 + 26) as u8)
    } else if '0' <= c && c <= '9' {
        Some(((c as u32) - 48 + 52) as u8)
    } else if c == '-' {
        Some(62)
    } else if c == '_' {
        Some(63)
    } else {
        None
    }
}

/// Base64url (RFC 4648 §5, unpadded) of `data`.
pub fn base64url(data: &[u8]) -> (out: String)
    ensures
        out@ == base64url_spec(data@),
{
    let mut out = String::new();
    let n = data.len();
    let mut i: usize = 0;
    assert(data@.skip(0) =~= data@);
    assert(out@ + base64url_spec(data@) =~= base64url_spec(data@));
    while i < n
        invariant
            n == data@.len(),
            i <= n,
            i % 3 == 0 || i == n,
            out@ + base64url_spec(data@.skip(i as int)) == base64url_spec(data@),
        decreases n - i,
    {
        let rest = n - i;
        let b0 = data[i];
        let b1 = if rest > 1 {
            data[i + 1]
        } else {
            0
        };
        let b2 = if rest > 2 {
            data[i + 2]
        } else {
            0
        };
        let ghost before = out@;
        let ghost tail = data@.skip(i as int);
        push_char(&mut out, letter(b0 / 4));
        push_char(&mut out, letter((b0 % 4) * 16 + b1 / 16));
        if rest > 1 {
            push_char(&mut out, letter((b1 % 16) * 4 + b2 / 64));
        }
        if rest > 2 {
            push_char(&mut out, letter(b2 % 64));
        }
        proof {
            let g = if rest <= 3 {
                tail
            } else {
                tail.take(3)
            };
            assert(out@ =~= before + encode_group(g));
            if rest <= 3 {
                assert(data@.skip(n as int) =~= Seq::<u8>::empty());
            } else {
                assert(tail.skip(3) =~= data@.skip(i + 3));
                assert(before + base64url_spec(tail) =~= out@ + base64url_spec(tail.skip(3)));
            }
        }
        if rest <= 3 {
            i = n;
        } else {
            i = i + 3;
        }
    }
    assert(data@.skip(n as int) =~= Seq::<u8>::empty());
    assert(out@ + Seq::<char>::empty() =~= out@);
    out
}

/// Decode base64url text (unpadded); `None` when a character is outside
/// the alphabet.
pub fn base64url_decode(s: &str) -> (r: Option<Vec<u8>>)
    ensures
        match r {
            Some(v) => base64url_decode_spec(s@) == Some(v@),
            None => base64url_decode_spec(s@) is None,
        },
{
    let cs = chars_of(s);
    let mut vals: Vec<u8> = Vec::new();
    let mut i: usize = 0;
    while i < cs.len()
        invariant
            cs@ == s@,
            i <= cs.len(),
            vals@.len() == i,
            forall|k: int| 0 <= k < i ==> b64_value(cs@[k]) == Some(#[trigger] vals@[k] as int),
            forall|k: int| 0 <= k < i ==> #[trigger] vals@[k] < 64,
        decreases cs.len() - i,
    {
        match letter_value(cs[i]) {
            Some(v) => vals.push(v),
            None => {
                assert(!all_letters(s@));
                return None;
            },
        }
        i = i + 1;
    }
    let n = vals.len();
    let mut out: Vec<u8> = Vec::new();
    let mut j: usize = 0;
    assert(cs@.skip(0) =~= cs@);
    assert(out@ + decode_groups(cs@) =~= decode_groups(cs@));
    assert(all_letters(s@)) by {
        assert forall|k: int| 0 <= k < s@.len() implies (#[trigger] b64_value(s@[k])) is Some by {
            assert(b64_value(cs@[k]) == Some(vals@[k] as int));
        }
    }
    while j < n
        invariant
            n == vals@.len(),
            n == cs@.len(),
            cs@ == s@,
            j <= n,
            j % 4 == 0 || j == n,
            forall|k: int| 0 <= k < n ==> b64_value(cs@[k]) == Some(#[trigger] vals@[k] as int),
            forall|k: int| 0 <= k < n ==> #[trigger] vals@[k] < 64,
            out@ + decode_groups(cs@.skip(j as int)) == decode_groups(cs@),
        decreases n - j,
    {
        let rest = n - j;
        let v0 = vals[j];
        let v1 = if rest > 1 {
            vals[j + 1]
        } else {
            0
        };
        let v2 = if rest > 2 {
            vals[j + 2]
        } else {
            0
        };
        let v3 = if rest > 3 {
            vals[j + 3]
        } else {
            0
        };
        let ghost before = out@;
        let ghost tail = cs@.skip(j as int);
        let ghost g = if rest <= 4 {
            tail
        } else {
            tail.take(4)
        };
        proof {
            assert(value_at(g, 0) == v0);
            if rest > 1 {
                assert(value_at(g, 1) == v1);
            }
            if rest > 2 {
                assert(value_at(g, 2) == v2);
            }
            if rest > 3 {
                assert(value_at(g, 3) == v3);
            }
        }
        if rest > 1 {
            out.push(v0 * 4 + v1 / 16);
        }
        if rest > 2 {
            out.push((v1 % 16) * 16 + v2 / 4);
        }
        if rest > 3 {
            out.push((v2 % 4) * 64 + v3);
        }
        proof {
            assert(out@ =~= before + decode_group(g));
            if rest <= 4 {
                assert(cs@.skip(n as int) =~= Seq::<char>::empty());
            } else {
                assert(tail.skip(4) =~= cs@.skip(j + 4));
                assert(before + decode_groups(tail) =~= out@ + decode_groups(tail.skip(4)));
            }
        }
        if rest <= 4 {
            j = n;
        } else {
            j = j + 4;
        }
    }
    assert(cs@.skip(n as int) =~= Seq::<char>::empty());
    assert(decode_groups(Seq::<char>::empty()) =~= Seq::<u8>::empty());
    assert(out@ + Seq::<u8>::empty() =~= out@);
    Some(out)
}

proof fn lemma_letter_value(v: int)
    requires
        0 <= v < 64,
    ensures
        b64_value(b64_char(v)) == Some(v),
{
}

proof fn lemma_group_roundtrip(d: Seq<u8>)
    requires
        1 <= d.len() <= 3,
    ensures
        all_letters(encode_group(d)),
        decode_group(encode_group(d)) == d,
{
    let b0 = d[0] as int;
    let b1 = if d.len() > 1 { d[1] as int } else { 0 };
    let b2 = if d.len() > 2 { d[2] as int } else { 0 };
    let c0 = b0 / 4;
    let c1 = (b0 % 4) * 16 + b1 / 16;
    let c2 = (b1 % 16) * 4 + b2 / 64;
    let c3 = b2 % 64;
    lemma_letter_value(c0);
    lemma_letter_value(c1);
    lemma_letter_value(c2);
    lemma_letter_value(c3);
    let e = encode_group(d);
    assert(value_at(e, 0) == c0);
    assert(value_at(e, 1) == c1);
    if d.len() > 1 {
        assert(value_at(e, 2) == c2);
    }
    if d.len() > 2 {
        assert(value_at(e, 3) == c3);
    }
    assert(c0 * 4 + c1 / 16 == b0);
    assert((c1 % 16) * 16 + c2 / 4 == b1);
    assert((c2 % 4) * 64 + c3 == b2);
    assert(decode_group(e) =~= d);
}

/// Decoding undoes encoding: for all bytes `d`,
/// `base64url_decode(base64url(d)) == Some(d)`.
pub proof fn lemma_base64url_roundtrip(d: Seq<u8>)
    ensures
        base64url_decode_spec(base64url_spec(d)) == Some(d),
    decreases d.len(),
{
    if d.len() == 0 {
        assert(decode_groups(Seq::<char>::empty()) =~= d);
    } else if d.len() <= 3 {
        lemma_group_roundtrip(d);
    } else {
        lemma_group_roundtrip(d.take(3));
        lemma_base64url_roundtrip(d.skip(3));
        let head = encode_group(d.take(3));
        let tail = base64url_spec(d.skip(3));
        let s = head + tail;
        assert(head.len() == 4);
        assert(s.take(4) =~= head);
        assert(s.skip(4) =~= tail);
        assert(all_letters(s)) by {
            assert forall|i: int| 0 <= i < s.len() implies (#[trigger] b64_value(s[i])) is Some by {
                if i < 4 {
                    assert(s[i] == head[i]);
                } else {
                    assert(s[i] == tail[i - 4]);
                }
            }
        }
        if tail.len() == 0 {
            assert(d.skip(3).len() == 0);
        }
        assert(d.take(3) + d.skip(3) =~= d);
    }
}

} // verus!
