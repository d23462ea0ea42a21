//! Character-level text helpers shared by the wikitext parser and the
//! character model: whitespace trimming, searching and slicing over the
//! `Seq<char>` view of strings.

use vstd::prelude::*;

verus! {

/// `String::push` appends one character to the end of the string.
pub assume_specification[ std::string::String::push ](s: &mut std::string::String, ch: char)
    ensures
        final(s)@ == old(s)@.push(ch),
;

/// Unicode `White_Space`, the set that `char::is_whitespace` and `str::trim`
/// use.
pub open spec fn is_space(c: char) -> bool {
    ||| ('\u{9}' <= c && c <= '\u{d}')
    ||| c == ' '
    ||| c == '\u{85}'
    ||| c == '\u{a0}'
    ||| c == '\u{1680}'
    ||| ('\u{2000}' <= c && c <= '\u{200a}')
    ||| c == '\u{2028}'
    ||| c == '\u{2029}'
    ||| c == '\u{202f}'
    ||| c == '\u{205f}'
    ||| c == '\u{3000}'
}

/// Number of whitespace characters at the start of `s`.
pub open spec fn leading_space(s: Seq<char>) -> nat
    decreases s.len(),
{
    if s.len() > 0 && is_space(s[0]) {
        1 + leading_space(s.drop_first())
    } else {
        0
    }
}

/// Number of whitespace characters at the end of `s`.
pub open spec fn trailing_space(s: Seq<char>) -> nat
    decreases s.len(),
{
    if s.len() > 0 && is_space(s.last()) {
        1 + trailing_space(s.drop_last())
    } else {
        0
    }
}

/// `s` without leading whitespace.
pub open spec fn trim_start(s: Seq<char>) -> Seq<char> {
    s.subrange(leading_space(s) as int, s.len() as int)
}

/// `s` without trailing whitespace.
pub open spec fn trim_end(s: Seq<char>) -> Seq<char> {
    s.subrange(0, s.len() - trailing_space(s))
}

/// `s` without leading or trailing whitespace, as `str::trim` returns it.
pub open spec fn trim(s: Seq<char>) -> Seq<char> {
    trim_end(trim_start(s))
}

/// Index of the first occurrence of `c` in `s`.
pub open spec fn index_of(s: Seq<char>, c: char) -> Option<int>
    decreases s.len(),
{
    if s.len() == 0 {
        None
    } else if s[0] == c {
        Some(0)
    } else {
        match index_of(s.drop_first(), c) {
            Some(i) => Some(i + 1),
            None => None,
        }
    }
}

/// `pat` occurs in `s` at position `i`.
pub open spec fn occurs_at(s: Seq<char>, pat: Seq<char>, i: int) -> bool {
    0 <= i && i + pat.len() <= s.len() && s.subrange(i, i + pat.len()) == pat
}

/// Position of the first occurrence of `pat` in `s` at or after `from`, as
/// `str::find` reports it (counted in characters).
pub open spec fn find_from(s: Seq<char>, pat: Seq<char>, from: int) -> Option<int>
    decreases s.len() + 1 - from,
{
    if from < 0 || from + pat.len() > s.len() {
        None
    } else if occurs_at(s, pat, from) {
        Some(from)
    } else {
        find_from(s, pat, from + 1)
    }
}

pub proof fn lemma_leading_space_bound(s: Seq<char>)
    ensures
        leading_space(s) <= s.len(),
        forall|j: int| 0 <= j < leading_space(s) ==> is_space(#[trigger] s[j]),
        leading_space(s) < s.len() ==> !is_space(s[leading_space(s) as int]),
    decreases s.len(),
{
    if s.len() > 0 && is_space(s[0]) {
        lemma_leading_space_bound(s.drop_first());
        assert forall|j: int| 0 <= j < leading_space(s) implies is_space(#[trigger] s[j]) by {
            if j > 0 {
                assert(s[j] == s.drop_first()[j - 1]);
            }
        }
    }
}

pub proof fn lemma_trailing_space_bound(s: Seq<char>)
    ensures
        trailing_space(s) <= s.len(),
        forall|j: int| s.len() - trailing_space(s) <= j < s.len() ==> is_space(#[trigger] s[j]),
        trailing_space(s) < s.len() ==> !is_space(s[s.len() - trailing_space(s) - 1]),
    decreases s.len(),
{
    if s.len() > 0 && is_space(s.last()) {
        lemma_trailing_space_bound(s.drop_last());
        assert forall|j: int| s.len() - trailing_space(s) <= j < s.len() implies is_space(
            #[trigger] s[j],
        ) by {
            if j < s.len() - 1 {
                assert(s[j] == s.drop_last()[j]);
            }
        }
    }
}

pub proof fn lemma_index_of_bound(s: Seq<char>, c: char)
    ensures
        index_of(s, c) matches Some(i) ==> 0 <= i < s.len() && s[i] == c,
        index_of(s, c) is None ==> forall|j: int| 0 <= j < s.len() ==> s[j] != c,
    decreases s.len(),
{
    if s.len() > 0 && s[0] != c {
        lemma_index_of_bound(s.drop_first(), c);
        assert forall|j: int| 0 <= j < s.len() && index_of(s, c) is None implies s[j] != c by {
            if j > 0 {
                assert(s[j] == s.drop_first()[j - 1]);
            }
        }
    }
}

/// Whitespace test matching `is_space`.
pub fn char_is_space(c: char) -> (r: bool)
    ensures
        r == is_space(c),
{
    ('\u{9}' <= c && c <= '\u{d}') || c == ' ' || c == '\u{85}' || c == '\u{a0}' || c
        == '\u{1680}' || ('\u{2000}' <= c && c <= '\u{200a}') || c == '\u{2028}' || c
        == '\u{2029}' || c == '\u{202f}' || c == '\u{205f}' || c == '\u{3000}'
}

/// The characters of `s`, in order.
pub fn chars_of(s: &str) -> (r: Vec<char>)
    ensures
        r@ == s@,
{
    let mut v: Vec<char> = Vec::new();
    let n = s.unicode_len();
    let mut i: usize = 0;
    while i < n
        invariant
            n == s@.len(),
            i <= n,
            v@ == s@.subrange(0, i as int),
        decreases n - i,
    {
        v.push(s.get_char(i));
        i = i + 1;
    }
    v
}

/// A new string holding `v[from..to]`.
pub fn string_of(v: &Vec<char>, from: usize, to: usize) -> (r: String)
    requires
        from <= to <= v@.len(),
    ensures
        r@ == v@.subrange(from as int, to as int),
{
    let mut s = String::new();
    let mut i = from;
    while i < to
        invariant
            from <= i <= to <= v@.len(),
            s@ == v@.subrange(from as int, i as int),
        decreases to - i,
    {
        s.push(v[i]);
        i = i + 1;
    }
    s
}

/// Whether `a[from..to]` equals `b`.
pub fn slice_eq(a: &Vec<char>, from: usize, to: usize, b: &Vec<char>) -> (r: bool)
    requires
        from <= to <= a@.len(),
    ensures
        r == (a@.subrange(from as int, to as int) == b@),
{
    if to - from != b.len() {
        return false;
    }
    let mut i: usize = 0;
    while i < b.len()
        invariant
            from <= to <= a@.len(),
            to - from == b@.len(),
            i <= b@.len(),
            forall|j: int| 0 <= j < i ==> a@[from + j] == b@[j],
        decreases b@.len() - i,
    {
        if a[from + i] != b[i] {
            assert(a@.subrange(from as int, to as int)[i as int] != b@[i as int]);
            return false;
        }
        i = i + 1;
    }
    assert(a@.subrange(from as int, to as int) =~= b@);
    true
}

/// Whether two strings hold the same characters.
pub fn same_text(a: &str, b: &str) -> (r: bool)
    ensures
        r == (a@ == b@),
{
    let av = chars_of(a);
    let bv = chars_of(b);
    assert(av@.subrange(0, av@.len() as int) =~= av@);
    slice_eq(&av, 0, av.len(), &bv)
}

/// Bounds `[start, end)` of `v[from..to]` with surrounding whitespace removed.
pub fn trim_bounds(v: &Vec<char>, from: usize, to: usize) -> (r: (usize, usize))
    requires
        from <= to <= v@.len(),
    ensures
        from <= r.0 <= r.1 <= to,
        v@.subrange(r.0 as int, r.1 as int) == trim(v@.subrange(from as int, to as int)),
{
    let ghost s = v@.subrange(from as int, to as int);
    let mut i = from;
    while i < to && char_is_space(v[i])
        invariant
            from <= i <= to <= v@.len(),
            s == v@.subrange(from as int, to as int),
            leading_space(s) == (i - from) + leading_space(v@.subrange(i as int, to as int)),
        decreases to - i,
    {
        assert(v@.subrange(i as int, to as int).drop_first() =~= v@.subrange(
            i + 1,
            to as int,
        ));
        i = i + 1;
    }
    assert(leading_space(v@.subrange(i as int, to as int)) == 0);
    let ghost t = trim_start(s);
    assert(t =~= v@.subrange(i as int, to as int));
    let mut j = to;
    while j > i && char_is_space(v[j - 1])
        invariant
            from <= i <= j <= to <= v@.len(),
            t == v@.subrange(i as int, to as int),
            trailing_space(t) == (to - j) + trailing_space(v@.subrange(i as int, j as int)),
        decreases j - i,
    {
        assert(v@.subrange(i as int, j as int).drop_last() =~= v@.subrange(
            i as int,
            j - 1,
        ));
        j = j - 1;
    }
    assert(trailing_space(v@.subrange(i as int, j as int)) == 0);
    assert(trim_end(t) =~= v@.subrange(i as int, j as int));
    (i, j)
}

/// `s` with leading and trailing whitespace removed.
pub fn trimmed(s: &str) -> (r: String)
    ensures
        r@ == trim(s@),
{
    let v = chars_of(s);
    assert(v@.subrange(0, v@.len() as int) =~= v@);
    let (a, b) = trim_bounds(&v, 0, v.len());
    string_of(&v, a, b)
}

/// Position of the first occurrence of `c` in `v[from..to]`, relative to
/// `from`.
pub fn find_char(v: &Vec<char>, from: usize, to: usize, c: char) -> (r: Option<usize>)
    requires
        from <= to <= v@.len(),
    ensures
        r matches Some(i) ==> from <= i < to && v@[i as int] == c,
        r is None ==> forall|j: int| from <= j < to ==> v@[j] != c,
        match index_of(v@.subrange(from as int, to as int), c) {
            Some(k) => 0 <= k < to - from && r == Some((from + k) as usize),
            None => r is None,
        },
{
    let ghost s = v@.subrange(from as int, to as int);
    proof {
        lemma_index_of_bound(s, c);
    }
    let mut i = from;
    while i < to
        invariant
            from <= i <= to <= v@.len(),
            s == v@.subrange(from as int, to as int),
            forall|j: int| from <= j < i ==> v@[j] != c,
            index_of(s, c) == match index_of(v@.subrange(i as int, to as int), c) {
                Some(k) => Some(k + (i - from)),
                None => None::<int>,
            },
        decreases to - i,
    {
        if v[i] == c {
            return Some(i);
        }
        assert(v@.subrange(i as int, to as int).drop_first() =~= v@.subrange(
            i + 1,
            to as int,
        ));
        i = i + 1;
    }
    None
}

/// Position (in characters) of the first occurrence of `pat` in `v`.
pub fn find_text(v: &Vec<char>, pat: &Vec<char>) -> (r: Option<usize>)
    ensures
        match find_from(v@, pat@, 0) {
            Some(k) => r == Some(k as usize),
            None => r is None,
        },
{
    if pat.len() > v.len() {
        return None;
    }
    let plen = pat.len();
    let last = v.len() - plen;
    let mut i: usize = 0;
    loop
        invariant
            plen == pat@.len(),
            last + plen == v@.len(),
            last + plen <= usize::MAX,
            i <= last,
            find_from(v@, pat@, 0) == find_from(v@, pat@, i as int),
        decreases last - i,
    {
        if slice_eq(v, i, i + plen, pat) {
            return Some(i);
        }
        if i == last {
            assert(find_from(v@, pat@, i + 1) is None);
            return None;
        }
        i = i + 1;
    }
}

} // verus!
