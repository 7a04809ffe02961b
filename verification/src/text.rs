//! Text helpers that the engine's messages and matching rules are built from.

use vstd::prelude::*;
use vstd::string::*;
use vstd::utf8::*;

verus! {

/// The lowercase form of a text as `str::to_lowercase` of the standard
/// library gives it. It follows Unicode's case mapping, which depends on the
/// text alone.
pub uninterp spec fn lowercase_of(s: Seq<char>) -> Seq<char>;

/// Calls `str::to_lowercase`. Trusted: the returned text is the one that
/// `lowercase_of` names for the argument.
#[verifier::external_body]
pub(crate) fn to_lower(s: &str) -> (r: String)
    ensures
        r@ == lowercase_of(s@),
{
    s.to_lowercase()
}

/// The words of a line as `str::split_whitespace` of the standard library
/// gives them: the stretches of the line between whitespace, in order,
/// where whitespace is what Unicode calls so. They depend on the line alone.
pub uninterp spec fn words_of(line: Seq<char>) -> Seq<Seq<char>>;

/// Calls `str::split_whitespace`. Trusted: the returned words are those
/// that `words_of` names for the line, in the same order.
#[verifier::external_body]
pub(crate) fn split_words(line: &str) -> (r: Vec<String>)
    ensures
        texts(r@) == words_of(line@),
{
    line.split_whitespace().map(String::from).collect()
}

/// Whether two texts hold the same characters.
pub fn str_eq(a: &str, b: &str) -> (r: bool)
    ensures
        r == (a@ == b@),
{
    let x = a.as_bytes();
    let y = b.as_bytes();
    proof {
        encode_utf8_decode_utf8(a@);
        encode_utf8_decode_utf8(b@);
    }
    if x.len() != y.len() {
        return false;
    }
    let mut i: usize = 0;
    while i < x.len()
        invariant
            x@.len() == y@.len(),
            i <= x@.len(),
            forall|j: int| 0 <= j < i ==> x@[j] == y@[j],
            x@ == encode_utf8(a@),
            y@ == encode_utf8(b@),
            decode_utf8(encode_utf8(a@)) == a@,
            decode_utf8(encode_utf8(b@)) == b@,
        decreases x@.len() - i,
    {
        if x[i] != y[i] {
            return false;
        }
        i += 1;
    }
    assert(x@ =~= y@);
    true
}

/// `n` copies of the character `c`.
pub open spec fn run_of(c: char, n: nat) -> Seq<char> {
    Seq::new(n, |i: int| c)
}

/// The texts of `parts` in order, with `sep` between neighbours.
pub open spec fn joined(parts: Seq<Seq<char>>, sep: Seq<char>) -> Seq<char>
    decreases parts.len(),
{
    if parts.len() == 0 {
        Seq::empty()
    } else if parts.len() == 1 {
        parts[0]
    } else {
        joined(parts.drop_last(), sep) + sep + parts.last()
    }
}

/// The characters of each text of a list.
pub open spec fn texts(v: Seq<String>) -> Seq<Seq<char>> {
    v.map_values(|s: String| s@)
}

/// A line of `n` dashes.
pub fn dashes(n: usize) -> (r: String)
    ensures
        r@ == run_of('-', n as nat),
{
    let mut out = String::new();
    let mut i: usize = 0;
    proof {
        reveal_strlit("-");
    }
    while i < n
        invariant
            i <= n,
            out@ == run_of('-', i as nat),
            "-"@ == seq!['-'],
        decreases n - i,
    {
        out.append("-");
        i += 1;
        assert(out@ =~= run_of('-', i as nat));
    }
    out
}

/// Joins the texts of `parts` with `sep` between neighbours.
pub fn join(parts: &Vec<String>, sep: &str) -> (r: String)
    ensures
        r@ == joined(texts(parts@), sep@),
{
    let mut out = String::new();
    let mut i: usize = 0;
    while i < parts.len()
        invariant
            i <= parts.len(),
            out@ == joined(texts(parts@).take(i as int), sep@),
        decreases parts.len() - i,
    {
        let ghost before = texts(parts@).take(i as int);
        let ghost after = texts(parts@).take(i + 1);
        proof {
            assert(after.drop_last() =~= before);
            assert(after.last() == parts@[i as int]@);
        }
        if i > 0 {
            out.append(sep);
        }
        out.append(parts[i].as_str());
        i += 1;
        assert(out@ =~= joined(after, sep@));
    }
    assert(texts(parts@).take(parts.len() as int) =~= texts(parts@));
    out
}

/// `i` is the place of the one colon of `s`.
pub open spec fn one_colon(s: Seq<char>, i: int) -> bool {
    &&& 0 <= i < s.len()
    &&& s[i] == ':'
    &&& forall|j: int| 0 <= j < s.len() && j != i ==> s[j] != ':'
}

/// The two parts of a text that holds one colon: what stands before the
/// colon and what stands after it. A text with no colon, or with more than
/// one, has no two parts.
pub open spec fn two_parts(s: Seq<char>) -> Option<(Seq<char>, Seq<char>)> {
    if exists|i: int| one_colon(s, i) {
        let i = choose|i: int| one_colon(s, i);
        Some((s.subrange(0, i), s.subrange(i + 1, s.len() as int)))
    } else {
        None
    }
}

/// Splits a text at its one colon.
pub fn split_pair(s: &str) -> (r: Option<(String, String)>)
    ensures
        match r {
            Some((a, b)) => two_parts(s@) == Some((a@, b@)),
            None => two_parts(s@) is None,
        },
{
    let n = s.unicode_len();
    let mut at: Option<usize> = None;
    let mut i: usize = 0;
    while i < n
        invariant
            n == s@.len(),
            i <= n,
            match at {
                Some(p) => p < i && s@[p as int] == ':' && forall|j: int|
                    0 <= j < i && j != p ==> s@[j] != ':',
                None => forall|j: int| 0 <= j < i ==> s@[j] != ':',
            },
        decreases n - i,
    {
        if s.get_char(i) == ':' {
            match at {
                Some(p) => {
                    assert forall|k: int| !one_colon(s@, k) by {
                        if one_colon(s@, k) {
                            if k == p as int {
                                assert(s@[i as int] == ':');
                            } else {
                                assert(s@[p as int] == ':');
                            }
                        }
                    }
                    return None;
                },
                None => {
                    at = Some(i);
                },
            }
        }
        i += 1;
    }
    match at {
        Some(p) => {
            assert(one_colon(s@, p as int));
            proof {
                let q = choose|k: int| one_colon(s@, k);
                assert(q == p);
            }
            let a = s.substring_char(0, p);
            let b = s.substring_char(p + 1, n);
            Some((String::from_str(a), String::from_str(b)))
        },
        None => {
            assert forall|k: int| !one_colon(s@, k) by {
                if one_colon(s@, k) {
                    assert(s@[k] == ':');
                }
            }
            None
        },
    }
}

/// A list of its own with the same texts.
pub fn copy_texts(v: &Vec<String>) -> (r: Vec<String>)
    ensures
        texts(r@) == texts(v@),
{
    let mut out: Vec<String> = Vec::new();
    let mut i: usize = 0;
    while i < v.len()
        invariant
            i <= v.len(),
            texts(out@) == texts(v@).take(i as int),
        decreases v.len() - i,
    {
        let ghost before = texts(out@);
        out.push(v[i].clone());
        assert(texts(out@) =~= before.push(v@[i as int]@));
        i += 1;
        assert(texts(out@) =~= texts(v@).take(i as int));
    }
    assert(texts(v@).take(v.len() as int) =~= texts(v@));
    out
}

/// The first place of `key` in `keys`.
pub fn position(keys: &Vec<String>, key: &str) -> (r: Option<usize>)
    ensures
        match r {
            Some(i) => {
                &&& i < keys@.len()
                &&& texts(keys@)[i as int] == key@
                &&& texts(keys@).contains(key@)
                &&& texts(keys@).index_of_first(key@) == Some(i as int)
            },
            None => !texts(keys@).contains(key@),
        },
{
    let mut i: usize = 0;
    while i < keys.len()
        invariant
            i <= keys.len(),
            forall|j: int| 0 <= j < i ==> texts(keys@)[j] != key@,
        decreases keys.len() - i,
    {
        if str_eq(keys[i].as_str(), key) {
            proof {
                assert(texts(keys@)[i as int] == key@);
                texts(keys@).index_of_first_ensures(key@);
            }
            return Some(i);
        }
        i += 1;
    }
    None
}

} // verus!
