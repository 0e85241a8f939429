//! Reading the EPSG code of a coordinate reference system out of its WKT text.
use vstd::prelude::*;
use vstd::string::{StrSliceExecFns, StringExecFns};

verus! {

/// The authority clause that introduces an EPSG code: `AUTHORITY["EPSG","`.
pub open spec fn epsg_key() -> Seq<char> {
    seq!['A', 'U', 'T', 'H', 'O', 'R', 'I', 'T', 'Y', '[', '"', 'E', 'P', 'S', 'G', '"', ',', '"']
}

/// Whether `key` occurs in `s` at position `i`.
pub open spec fn occurs_at(s: Seq<char>, key: Seq<char>, i: int) -> bool {
    0 <= i && i + key.len() <= s.len() && s.subrange(i, i + key.len()) == key
}

/// The last occurrence of `key` in `s` at or before position `i`.
pub open spec fn last_occurrence_from(s: Seq<char>, key: Seq<char>, i: int) -> Option<int>
    decreases i + 1,
{
    if i < 0 {
        None
    } else if occurs_at(s, key, i) {
        Some(i)
    } else {
        last_occurrence_from(s, key, i - 1)
    }
}

/// The first double quote of `s` at or after position `j`.
pub open spec fn first_quote_from(s: Seq<char>, j: int) -> Option<int>
    decreases s.len() - j,
{
    if j >= s.len() || j < 0 {
        None
    } else if s[j] == '"' {
        Some(j)
    } else {
        first_quote_from(s, j + 1)
    }
}

/// `EPSG:<code>` for the code quoted after the last EPSG authority clause of `wkt`.
pub open spec fn epsg_label(wkt: Seq<char>) -> Option<Seq<char>> {
    let klen = epsg_key().len() as int;
    match last_occurrence_from(wkt, epsg_key(), wkt.len() - klen) {
        None => None,
        Some(i) => match first_quote_from(wkt, i + klen) {
            None => None,
            Some(e) => Some("EPSG:"@ + wkt.subrange(i + klen, e)),
        },
    }
}

/// The EPSG label of a WKT coordinate system: `EPSG:` followed by the text between the
/// last `AUTHORITY["EPSG","` and the next double quote, if both are present.
pub fn parse_epsg(wkt: &str) -> (r: Option<String>)
    ensures
        match epsg_label(wkt@) {
            Some(label) => r is Some && r->0@ == label,
            None => r is None,
        },
{
    let n: usize = wkt.unicode_len();
    let mut chars: Vec<char> = Vec::with_capacity(n);
    let mut i: usize = 0;
    while i < n
        invariant
            n == wkt@.len(),
            i <= n,
            chars@ == wkt@.take(i as int),
        decreases n - i,
    {
        chars.push(wkt.get_char(i));
        i = i + 1;
        assert(chars@ =~= wkt@.take(i as int));
    }
    assert(chars@ =~= wkt@);
    let key: Vec<char> = vec!['A', 'U', 'T', 'H', 'O', 'R', 'I', 'T', 'Y', '[', '"', 'E', 'P', 'S', 'G', '"', ',', '"'];
    assert(key@ =~= epsg_key());
    let klen: usize = 18;
    if n < klen {
        proof {
            assert(last_occurrence_from(wkt@, epsg_key(), n - klen) == None::<int>);
        }
        return None;
    }
    let ghost s = wkt@;
    let mut pos: usize = n - klen + 1;
    let mut found: bool = false;
    while pos > 0 && !found
        invariant
            chars@ == s,
            s.len() == n,
            key@ == epsg_key(),
            klen == 18,
            n >= klen,
            pos <= n - klen + 1,
            !found ==> last_occurrence_from(s, epsg_key(), n - klen) == last_occurrence_from(
                s,
                epsg_key(),
                pos - 1,
            ),
            found ==> pos <= n - klen && last_occurrence_from(s, epsg_key(), n - klen) == Some(pos as int),
        decreases pos + (if found { 0int } else { 1int }),
    {
        let start: usize = pos - 1;
        let mut j: usize = 0;
        while j < klen && chars[start + j] == key[j]
            invariant
                chars@ == s,
                s.len() == n,
                key@ == epsg_key(),
                klen == 18,
                start + klen <= n,
                j <= klen,
                forall|t: int| 0 <= t < j ==> s[start + t] == epsg_key()[t],
            decreases klen - j,
        {
            j = j + 1;
        }
        if j == klen {
            assert(s.subrange(start as int, start + 18) =~= epsg_key());
            found = true;
            pos = start;
        } else {
            assert(s.subrange(start as int, start + 18)[j as int] != epsg_key()[j as int]);
            pos = start;
        }
    }
    if !found {
        return None;
    }
    let begin: usize = pos + klen;
    let mut e: usize = begin;
    while e < n && chars[e] != '"'
        invariant
            chars@ == s,
            s.len() == n,
            begin <= e <= n,
            first_quote_from(s, begin as int) == first_quote_from(s, e as int),
        decreases n - e,
    {
        e = e + 1;
    }
    if e == n {
        return None;
    }
    let mut label = String::from_str("EPSG:");
    proof {
        reveal_strlit("EPSG:");
    }
    let code: &str = wkt.substring_char(begin, e);
    label.append(code);
    Some(label)
}

} // verus!
