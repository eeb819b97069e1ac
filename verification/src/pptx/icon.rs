//! The `pptd:icon` round-trip extension: an icon's PPTD name travels
//! through a PPTX as base64url-encoded JSON (`{"iconName":"..."}`).

use vstd::prelude::*;
use vstd::utf8::{decode_utf8, encode_utf8, encode_utf8_decode_utf8, valid_utf8, encode_utf8_valid_utf8};

use super::base64::{b64_char, b64_value, base64url, base64url_decode, base64url_decode_spec, base64url_spec, lemma_base64url_roundtrip};
use crate::text::{chars_of, is_ws, push_str, string_of, trim, trim_chars};

verus! {

/// The JSON text carried for an icon.
pub open spec fn payload_json(name: Seq<char>) -> Seq<char> {
    "{\"iconName\":\""@ + name + "\"}"@
}

/// First position `i >= from` where `pat` occurs in `s`.
pub open spec fn find_from(s: Seq<char>, pat: Seq<char>, from: int) -> Option<int>
    decreases s.len() - from,
{
    if from < 0 || from >= s.len() || from + pat.len() > s.len() {
        None
    } else if s.subrange(from, from + pat.len()) == pat {
        Some(from)
    } else {
        find_from(s, pat, from + 1)
    }
}

/// The icon name in a decoded payload: the text after `"iconName":"` up to
/// the next `"`.
pub open spec fn icon_name_in(json: Seq<char>) -> Option<Seq<char>> {
    match find_from(json, "\"iconName\":\""@, 0) {
        None => None,
        Some(k) => {
            let start = k + 12;
            match find_from(json, seq!['"'], start) {
                None => None,
                Some(end) => Some(json.subrange(start, end)),
            }
        },
    }
}

/// The icon name carried by a payload text: trimmed, base64url-decoded,
/// read as UTF-8, and searched for the name.
pub open spec fn icon_payload_spec(text: Seq<char>) -> Option<Seq<char>> {
    match base64url_decode_spec(trim(text)) {
        None => None,
        Some(bytes) => if valid_utf8(bytes) {
            icon_name_in(decode_utf8(bytes))
        } else {
            None
        },
    }
}

/// `std::str::from_utf8`: the text of `bytes` when they are valid UTF-8.
#[verifier::external_body]
fn utf8_text(bytes: &[u8]) -> (r: Option<String>)
    ensures
        r is Some <==> valid_utf8(bytes@),
        r matches Some(s) ==> s@ == decode_utf8(bytes@),
{
    match std::str::from_utf8(bytes) {
        Ok(s) => Some(s.to_string()),
        Err(_) => None,
    }
}

/// The payload text for an icon name.
pub fn icon_payload_text(icon_name: &str) -> (r: String)
    ensures
        r@ == base64url_spec(encode_utf8(payload_json(icon_name@))),
{
    let mut json = String::from_str("{\"iconName\":\"");
    push_str(&mut json, icon_name);
    push_str(&mut json, "\"}");
    let bytes = json.as_str().as_bytes();
    base64url(bytes)
}

fn find_chars(s: &Vec<char>, pat: &Vec<char>, from: usize) -> (r: Option<usize>)
    requires
        from <= s@.len(),
        pat@.len() > 0,
    ensures
        match r {
            Some(i) => find_from(s@, pat@, from as int) == Some(i as int) && i + pat@.len() <= s@.len()
                && from <= i,
            None => find_from(s@, pat@, from as int) is None,
        },
{
    let mut i = from;
    while i < s.len() && pat.len() <= s.len() - i
        invariant
            from <= i <= s@.len(),
            find_from(s@, pat@, from as int) == find_from(s@, pat@, i as int),
        decreases s.len() - i,
    {
        let mut k: usize = 0;
        let mut same = true;
        while k < pat.len()
            invariant
                k <= pat@.len(),
                i + pat@.len() <= s@.len(),
                pat.len() <= s.len() - i,
                same <==> forall|m: int| 0 <= m < k ==> s@[i + m] == pat@[m],
            decreases pat.len() - k,
        {
            if s[i + k] != pat[k] {
                same = false;
            }
            k = k + 1;
        }
        if same {
            assert(s@.subrange(i as int, i + pat@.len()) =~= pat@);
            return Some(i);
        }
        proof {
            let m = choose|m: int| 0 <= m < pat@.len() && s@[i + m] != pat@[m];
            assert(s@.subrange(i as int, i + pat@.len())[m] != pat@[m]);
        }
        i = i + 1;
    }
    None
}

/// Decode the base64url `pptd:icon` payload text → icon name.
pub fn icon_payload(text: &str) -> (r: Option<String>)
    ensures
        match r {
            Some(name) => icon_payload_spec(text@) == Some(name@),
            None => icon_payload_spec(text@) is None,
        },
{
    let cs = chars_of(text);
    let trimmed = trim_chars(&cs);
    let t = string_of(&trimmed);
    let bytes = match base64url_decode(t.as_str()) {
        Some(b) => b,
        None => return None,
    };
    let json = match utf8_text(bytes.as_slice()) {
        Some(s) => s,
        None => return None,
    };
    let js = chars_of(json.as_str());
    let key = chars_of("\"iconName\":\"");
    proof {
        reveal_strlit("\"iconName\":\"");
    }
    assert(key@.len() == 12);
    let k = match find_chars(&js, &key, 0) {
        Some(k) => k,
        None => return None,
    };
    assert(k + 12 <= js.len());
    let start = k + 12;
    let quote: Vec<char> = vec!['"'];
    assert(quote@ =~= seq!['"']);
    let end = match find_chars(&js, &quote, start) {
        Some(e) => e,
        None => return None,
    };
    let mut name: Vec<char> = Vec::new();
    let mut m = start;
    while m < end
        invariant
            start <= m <= end <= js@.len(),
            name@ == js@.subrange(start as int, m as int),
        decreases end - m,
    {
        name.push(js[m]);
        assert(js@.subrange(start as int, m + 1) =~= js@.subrange(start as int, m as int).push(js@[m as int]));
        m = m + 1;
    }
    Some(string_of(&name))
}

proof fn lemma_find_quote(json: Seq<char>, start: int, n: int)
    requires
        0 <= start,
        0 <= n,
        start + n < json.len(),
        json[start + n] == '"',
        forall|k: int| start <= k < start + n ==> json[k] != '"',
    ensures
        find_from(json, seq!['"'], start) == Some(start + n),
    decreases n,
{
    if n == 0 {
        assert(json.subrange(start, start + 1) =~= seq!['"']);
    } else {
        assert(json.subrange(start, start + 1)[0] != '"');
        lemma_find_quote(json, start + 1, n - 1);
    }
}

proof fn lemma_base64_nonempty(d: Seq<u8>)
    requires
        d.len() > 0,
    ensures
        base64url_spec(d).len() > 0,
{
    if d.len() > 3 {
        assert(super::base64::encode_group(d.take(3)).len() > 0);
    }
}

proof fn lemma_utf8_nonempty(cs: Seq<char>)
    requires
        cs.len() > 0,
    ensures
        encode_utf8(cs).len() > 0,
{
    assert(vstd::utf8::encode_scalar(cs[0] as u32).len() > 0);
}

/// Encoding an icon name into its payload and decoding the payload gives
/// the name back, for every name without a `"`.
pub proof fn lemma_icon_payload_roundtrip(name: Seq<char>)
    requires
        forall|i: int| 0 <= i < name.len() ==> name[i] != '"',
    ensures
        icon_payload_spec(base64url_spec(encode_utf8(payload_json(name)))) == Some(name),
{
    reveal_strlit("{\"iconName\":\"");
    reveal_strlit("\"iconName\":\"");
    reveal_strlit("\"}");
    let json = payload_json(name);
    let bytes = encode_utf8(json);
    let text = base64url_spec(bytes);
    lemma_base64url_roundtrip(bytes);
    lemma_utf8_nonempty(json);
    lemma_base64_nonempty(bytes);
    assert(!is_ws(text[0])) by {
        assert(b64_value(text[0]) is Some);
    }
    assert(!is_ws(text.last())) by {
        assert(b64_value(text[text.len() - 1]) is Some);
    }
    assert(trim(text) == text);
    encode_utf8_valid_utf8(json);
    encode_utf8_decode_utf8(json);
    let key = "\"iconName\":\""@;
    assert(json.subrange(0, 12)[0] != key[0]);
    assert(json.subrange(0, 12) != key);
    assert(json.subrange(1, 13) =~= key);
    assert(find_from(json, key, 1) == Some(1int));
    assert(find_from(json, key, 0) == Some(1int));
    assert forall|k: int| 13 <= k < 13 + name.len() implies json[k] != '"' by {
        assert(json[k] == name[k - 13]);
    }
    assert(json[13 + name.len() as int] == '"');
    lemma_find_quote(json, 13, name.len() as int);
    assert(json.subrange(13, 13 + name.len() as int) =~= name);
}

/// The position of the first `c` in `s`.
pub open spec fn first_index_of(s: Seq<char>, c: char) -> Option<int>
    decreases s.len(),
{
    if s.len() == 0 {
        None
    } else if s[0] == c {
        Some(0)
    } else {
        match first_index_of(s.skip(1), c) {
            Some(i) => Some(i + 1),
            None => None,
        }
    }
}

proof fn lemma_first_index_of(s: Seq<char>, c: char, i: int)
    requires
        0 <= i <= s.len(),
        forall|k: int| 0 <= k < i ==> s[k] != c,
        i < s.len() ==> s[i] == c,
    ensures
        first_index_of(s, c) == (if i == s.len() {
            None
        } else {
            Some(i)
        }),
    decreases i,
{
    if i > 0 {
        assert forall|k: int| 0 <= k < i - 1 implies s.skip(1)[k] != c by {
            assert(s.skip(1)[k] == s[k + 1]);
        }
        if i < s.len() {
            assert(s.skip(1)[i - 1] == s[i]);
        }
        lemma_first_index_of(s.skip(1), c, i - 1);
    }
}

/// The dataset key of a PPTD icon name: the text after the first `:` when
/// the name has the `fas` style prefix, the whole name when it has no
/// prefix, and none for any other style prefix.
pub open spec fn icon_key_spec(name: Seq<char>) -> Option<Seq<char>> {
    match first_index_of(name, ':') {
        None => Some(name),
        Some(i) => if name.take(i) == "fas"@ {
            Some(name.skip(i + 1))
        } else {
            None
        },
    }
}

/// The dataset key of a PPTD icon name (see [`icon_key_spec`]).
pub fn icon_key(name: &str) -> (r: Option<String>)
    ensures
        match r {
            Some(k) => icon_key_spec(name@) == Some(k@),
            None => icon_key_spec(name@) is None,
        },
{
    let cs = chars_of(name);
    let mut i: usize = 0;
    while i < cs.len() && cs[i] != ':'
        invariant
            i <= cs.len(),
            cs@ == name@,
            forall|k: int| 0 <= k < i ==> cs@[k] != ':',
        decreases cs.len() - i,
    {
        i = i + 1;
    }
    proof {
        lemma_first_index_of(name@, ':', i as int);
    }
    if i == cs.len() {
        return Some(string_of(&cs));
    }
    let prefix = crate::text::prefix_chars(&cs, i);
    let p = string_of(&prefix);
    if crate::text::str_eq(p.as_str(), "fas") {
        let rest = crate::text::suffix_chars(&cs, i + 1);
        Some(string_of(&rest))
    } else {
        None
    }
}

} // verus!
