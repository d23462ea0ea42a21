//! Choosing each day's answer. The playable characters are shuffled by the
//! SHA3-256 digest of a secret, the current four-year era and the name; the
//! answer then steps through that order by the number of days since the
//! previous answer.

use vstd::prelude::*;

use chrono::Datelike;
use sha3::Digest;
use vstd::utf8::encode_utf8;

use crate::error::Error;
use crate::wiki::texts;

verus! {

/// The shuffle is reseeded once every this many years.
pub const ERA_YEARS: i32 = 4;

/// The message of the error for an empty character list.
pub const NO_CHARACTERS: &'static str = "No characters found";

// --------------------------------------------------------------------- digest

/// The digest that SHA3-256 computes for `data`.
pub uninterp spec fn sha3_256_digest(data: Seq<u8>) -> Seq<u8>;

/// Calls `sha3::Sha3_256::digest(data)`. The contract names the result; the
/// hash function itself is not stated.
#[verifier::external_body]
fn sha3_256(data: &[u8]) -> (r: Vec<u8>)
    ensures
        r@ == sha3_256_digest(data@),
{
    sha3::Sha3_256::digest(data).to_vec()
}

/// The digest by which character `k` is ordered under `prefix`.
pub open spec fn key_hash(prefix: Seq<u8>, k: Seq<char>) -> Seq<u8> {
    sha3_256_digest(prefix + encode_utf8(k))
}

/// Appends the bytes of `b` to `v`.
fn append_bytes(v: &mut Vec<u8>, b: &[u8])
    ensures
        final(v)@ == old(v)@ + b@,
{
    let mut i: usize = 0;
    while i < b.len()
        invariant
            i <= b@.len(),
            v@ == old(v)@ + b@.subrange(0, i as int),
        decreases b@.len() - i,
    {
        v.push(b[i]);
        i = i + 1;
    }
    assert(b@.subrange(0, i as int) =~= b@);
}

/// The digest of `k` under `prefix`.
pub fn hash_key(prefix: &[u8], k: &String) -> (r: Vec<u8>)
    ensures
        r@ == key_hash(prefix@, k@),
{
    let mut data: Vec<u8> = Vec::new();
    append_bytes(&mut data, prefix);
    append_bytes(&mut data, k.as_str().as_bytes());
    assert(data@ =~= prefix@ + encode_utf8(k@));
    sha3_256(data.as_slice())
}

// --------------------------------------------------------------------- order

/// Lexicographic order on byte strings, as slices of bytes compare.
pub open spec fn lex_lt(a: Seq<u8>, b: Seq<u8>) -> bool
    decreases a.len(),
{
    if a.len() == 0 {
        b.len() > 0
    } else if b.len() == 0 {
        false
    } else if a[0] != b[0] {
        a[0] < b[0]
    } else {
        lex_lt(a.drop_first(), b.drop_first())
    }
}

pub proof fn lemma_lex_irreflexive(a: Seq<u8>)
    ensures
        !lex_lt(a, a),
    decreases a.len(),
{
    if a.len() > 0 {
        lemma_lex_irreflexive(a.drop_first());
    }
}

pub proof fn lemma_lex_transitive(a: Seq<u8>, b: Seq<u8>, c: Seq<u8>)
    requires
        lex_lt(a, b),
        lex_lt(b, c),
    ensures
        lex_lt(a, c),
    decreases a.len(),
{
    if a.len() > 0 && b.len() > 0 && c.len() > 0 && a[0] == b[0] && b[0] == c[0] {
        lemma_lex_transitive(a.drop_first(), b.drop_first(), c.drop_first());
    }
}

pub proof fn lemma_lex_total(a: Seq<u8>, b: Seq<u8>)
    ensures
        a == b || lex_lt(a, b) || lex_lt(b, a),
    decreases a.len(),
{
    if a.len() > 0 && b.len() > 0 && a[0] == b[0] {
        lemma_lex_total(a.drop_first(), b.drop_first());
        if a.drop_first() == b.drop_first() {
            assert(a =~= seq![a[0]] + a.drop_first());
            assert(b =~= seq![b[0]] + b.drop_first());
        }
    } else if a.len() == 0 && b.len() == 0 {
        assert(a =~= b);
    }
}

pub proof fn lemma_lex_asymmetric(a: Seq<u8>, b: Seq<u8>)
    requires
        lex_lt(a, b),
    ensures
        !lex_lt(b, a),
{
    if lex_lt(b, a) {
        lemma_lex_transitive(a, b, a);
        lemma_lex_irreflexive(a);
    }
}

/// Whether `a` sorts before `b`.
pub fn bytes_less(a: &Vec<u8>, b: &Vec<u8>) -> (r: bool)
    ensures
        r == lex_lt(a@, b@),
{
    let mut i: usize = 0;
    assert(a@.subrange(0, a@.len() as int) =~= a@);
    assert(b@.subrange(0, b@.len() as int) =~= b@);
    loop
        invariant
            i <= a@.len(),
            i <= b@.len(),
            lex_lt(a@, b@) == lex_lt(
                a@.subrange(i as int, a@.len() as int),
                b@.subrange(i as int, b@.len() as int),
            ),
        decreases a@.len() - i,
    {
        if i == a.len() {
            return i < b.len();
        }
        if i == b.len() {
            return false;
        }
        if a[i] != b[i] {
            return a[i] < b[i];
        }
        assert(a@.subrange(i as int, a@.len() as int).drop_first() =~= a@.subrange(
            i + 1,
            a@.len() as int,
        ));
        assert(b@.subrange(i as int, b@.len() as int).drop_first() =~= b@.subrange(
            i + 1,
            b@.len() as int,
        ));
        i = i + 1;
    }
}

/// Whether `a` and `b` hold the same bytes.
pub fn bytes_eq(a: &Vec<u8>, b: &Vec<u8>) -> (r: bool)
    ensures
        r == (a@ == b@),
{
    if a.len() != b.len() {
        return false;
    }
    let mut i: usize = 0;
    while i < a.len()
        invariant
            a@.len() == b@.len(),
            i <= a@.len(),
            forall|j: int| 0 <= j < i ==> a@[j] == b@[j],
        decreases a@.len() - i,
    {
        if a[i] != b[i] {
            return false;
        }
        i = i + 1;
    }
    assert(a@ =~= b@);
    true
}

/// A list of (digest, name) pairs, as plain values.
pub open spec fn entry_views(v: Seq<(Vec<u8>, String)>) -> Seq<(Seq<u8>, Seq<char>)> {
    v.map_values(|e: (Vec<u8>, String)| (e.0@, e.1@))
}

/// The names of a list of (digest, name) pairs.
pub open spec fn entry_names(v: Seq<(Seq<u8>, Seq<char>)>) -> Seq<Seq<char>> {
    v.map_values(|e: (Seq<u8>, Seq<char>)| e.1)
}

/// Each name of `s` paired with its digest under `prefix`.
pub open spec fn keyed(prefix: Seq<u8>, s: Seq<Seq<char>>) -> Seq<(Seq<u8>, Seq<char>)> {
    s.map_values(|k: Seq<char>| (key_hash(prefix, k), k))
}

/// No pair of `v` has a digest that sorts before an earlier pair's.
pub open spec fn by_digest(v: Seq<(Seq<u8>, Seq<char>)>) -> bool {
    forall|i: int, j: int| #![trigger v[i], v[j]] 0 <= i < j < v.len() ==> !lex_lt(v[j].0, v[i].0)
}

/// The pairs of `v` before position `lb` have digests that sort before `h`,
/// the others do not.
pub open spec fn splits_at(v: Seq<(Seq<u8>, Seq<char>)>, h: Seq<u8>, lb: int) -> bool {
    &&& 0 <= lb <= v.len()
    &&& forall|j: int| 0 <= j < lb ==> lex_lt((#[trigger] v[j]).0, h)
    &&& forall|j: int| lb <= j < v.len() ==> !lex_lt((#[trigger] v[j]).0, h)
}

/// Position of the answer in the list `v`, ordered by digest. Without a
/// previous answer it is the first. Otherwise let `lb` be the number of
/// pairs whose digests sort before the previous answer's digest `h`: when
/// the pair at `lb` has digest `h`, the previous answer is listed there and
/// the answer is `days` further on; when no pair has it, the previous answer
/// is no longer listed, `lb` is where it would be, and the answer is
/// `days - 1` further on. Positions wrap around.
pub open spec fn rotation_index(
    v: Seq<(Seq<u8>, Seq<char>)>,
    previous: Option<Seq<u8>>,
    days: nat,
) -> int {
    match previous {
        None => 0,
        Some(h) => {
            let lb = choose|lb: int| splits_at(v, h, lb);
            if lb < v.len() && v[lb].0 == h {
                (lb + days) % (v.len() as int)
            } else {
                (lb + days - 1) % (v.len() as int)
            }
        },
    }
}

/// An optional digest as a plain value.
pub open spec fn digest_view(o: Option<Vec<u8>>) -> Option<Seq<u8>> {
    match o {
        Some(h) => Some(h@),
        None => None,
    }
}

/// Sorts the (digest, name) pairs of `entries` by digest.
fn sort_by_digest(entries: Vec<(Vec<u8>, String)>) -> (r: Vec<(Vec<u8>, String)>)
    ensures
        by_digest(entry_views(r@)),
        entry_views(r@).to_multiset() == entry_views(entries@).to_multiset(),
{
    broadcast use vstd::seq_lib::group_to_multiset_ensures;
    broadcast use vstd::multiset::group_multiset_axioms;

    let ghost all = entry_views(entries@);
    let mut rest = entries;
    let mut out: Vec<(Vec<u8>, String)> = Vec::new();
    assert(entry_views(out@) =~= Seq::<(Seq<u8>, Seq<char>)>::empty());
    assert(entry_views(out@).to_multiset().add(entry_views(rest@).to_multiset())
        =~= all.to_multiset());
    while rest.len() > 0
        invariant
            by_digest(entry_views(out@)),
            entry_views(out@).to_multiset().add(entry_views(rest@).to_multiset())
                == all.to_multiset(),
        decreases rest@.len(),
    {
        let ghost before_rest = entry_views(rest@);
        let e = rest.pop().unwrap();
        let ghost ve = (e.0@, e.1@);
        assert(before_rest =~= entry_views(rest@).push(ve));
        let mut pos: usize = 0;
        while pos < out.len() && !bytes_less(&e.0, &out[pos].0)
            invariant
                pos <= out@.len(),
                forall|j: int| 0 <= j < pos ==> !lex_lt(e.0@, (#[trigger] out@[j]).0@),
            decreases out@.len() - pos,
        {
            pos = pos + 1;
        }
        let ghost ov = entry_views(out@);
        assert(pos < ov.len() ==> lex_lt(ve.0, ov[pos as int].0));
        assert forall|j: int| 0 <= j < pos implies !lex_lt(ve.0, (#[trigger] ov[j]).0) by {
            assert(ov[j].0 == out@[j].0@);
        }
        out.insert(pos, e);
        let ghost nv = entry_views(out@);
        assert(nv =~= ov.insert(pos as int, ve));
        assert(ov.len() == out@.len() - 1);
        proof {
            vstd::seq_lib::to_multiset_insert(ov, pos as int, ve);
        }
        assert(nv.to_multiset() == ov.to_multiset().insert(ve));
        assert(before_rest.to_multiset() == entry_views(rest@).to_multiset().insert(ve)) by {
            vstd::seq_lib::to_multiset_build(entry_views(rest@), ve);
        }
        assert(ov.to_multiset().add(before_rest.to_multiset()) == all.to_multiset());
        assert(nv.to_multiset().add(entry_views(rest@).to_multiset()) =~= all.to_multiset());
        assert(by_digest(nv)) by {
            assert forall|a: int, b: int| #![trigger nv[a], nv[b]] 0 <= a < b < nv.len() implies !lex_lt(
                nv[b].0,
                nv[a].0,
            ) by {
                if b < pos {
                    assert(nv[a] == ov[a] && nv[b] == ov[b]);
                } else if a > pos {
                    assert(nv[a] == ov[a - 1] && nv[b] == ov[b - 1]);
                } else if a < pos && b == pos {
                    assert(nv[a] == ov[a] && nv[b] == ve);
                } else if a < pos {
                    assert(nv[a] == ov[a] && nv[b] == ov[b - 1]);
                } else {
                    // a == pos < b: the pair placed at pos sorts before ov[pos]
                    assert(nv[a] == ve && nv[b] == ov[b - 1]);
                    assert(lex_lt(ve.0, ov[pos as int].0));
                    if b - 1 == pos {
                        lemma_lex_asymmetric(ve.0, ov[pos as int].0);
                    } else {
                        assert(!lex_lt(ov[b - 1].0, ov[pos as int].0));
                        if lex_lt(ov[b - 1].0, ve.0) {
                            lemma_lex_transitive(ov[b - 1].0, ve.0, ov[pos as int].0);
                        }
                    }
                }
            }
        }
    }
    assert(entry_views(rest@) =~= Seq::<(Seq<u8>, Seq<char>)>::empty());
    assert(entry_views(out@).to_multiset() =~= all.to_multiset());
    out
}

/// Number of pairs of the digest-ordered list `v` whose digests sort before
/// `h`.
fn split_point(v: &Vec<(Vec<u8>, String)>, h: &Vec<u8>) -> (r: usize)
    requires
        by_digest(entry_views(v@)),
    ensures
        splits_at(entry_views(v@), h@, r as int),
{
    let ghost ev = entry_views(v@);
    let mut i: usize = 0;
    while i < v.len() && bytes_less(&v[i].0, h)
        invariant
            i <= v@.len(),
            ev == entry_views(v@),
            forall|j: int| 0 <= j < i ==> lex_lt((#[trigger] ev[j]).0, h@),
        decreases v@.len() - i,
    {
        assert(ev[i as int].0 == v@[i as int].0@);
        i = i + 1;
    }
    assert forall|j: int| i <= j < ev.len() implies !lex_lt((#[trigger] ev[j]).0, h@) by {
        assert(ev[i as int].0 == v@[i as int].0@);
        if j > i {
            assert(!lex_lt(ev[j].0, ev[i as int].0));
            lemma_lex_total(ev[j].0, ev[i as int].0);
            if lex_lt(ev[j].0, h@) && ev[j].0 != ev[i as int].0 {
                lemma_lex_transitive(ev[i as int].0, ev[j].0, h@);
            }
        }
    }
    i
}

proof fn lemma_split_unique(v: Seq<(Seq<u8>, Seq<char>)>, h: Seq<u8>, a: int, b: int)
    requires
        splits_at(v, h, a),
        splits_at(v, h, b),
    ensures
        a == b,
{
    if a < b {
        assert(lex_lt(v[a].0, h));
    } else if b < a {
        assert(lex_lt(v[b].0, h));
    }
}

/// `(a + b) % n` for `a` and `b` below `n`, without overflow.
fn add_mod(a: usize, b: usize, n: usize) -> (r: usize)
    requires
        a < n,
        b < n,
    ensures
        r == (a + b) % (n as int),
        r < n,
{
    if a >= n - b {
        let r = a - (n - b);
        assert((a + b) % (n as int) == r) by {
            vstd::arithmetic::div_mod::lemma_mod_add_multiples_vanish(r as int, n as int);
            vstd::arithmetic::div_mod::lemma_small_mod(r as nat, n as nat);
        }
        r
    } else {
        let r = a + b;
        assert((a + b) % (n as int) == r) by {
            vstd::arithmetic::div_mod::lemma_small_mod(r as nat, n as nat);
        }
        r
    }
}

/// Today's answer from characters whose digests are already known: the
/// (digest, name) pairs of `entries` are ordered by digest, and the answer
/// steps `days_since` places on from the previous answer's digest
/// `previous`, as `rotation_index` describes. An error when there are no
/// characters.
pub fn rotate_hashed(
    entries: Vec<(Vec<u8>, String)>,
    previous: Option<Vec<u8>>,
    days_since: u64,
) -> (r: Result<String, Error>)
    requires
        previous is Some ==> days_since >= 1,
    ensures
        entries@.len() == 0 <==> r is Err,
        r matches Ok(a) ==> entry_names(entry_views(entries@)).contains(a@),
        r matches Err(e) ==> e matches Error::String(m) && m@ == NO_CHARACTERS@,
        r matches Ok(a) ==> exists|t: Seq<(Seq<u8>, Seq<char>)>|
            #![trigger by_digest(t)]
            t.to_multiset() == entry_views(entries@).to_multiset() && by_digest(t) && a@
                == t[rotation_index(t, digest_view(previous), days_since as nat)].1,
{
    if entries.len() == 0 {
        return Err(Error::String(String::from_str(NO_CHARACTERS)));
    }
    let ghost ev = entry_views(entries@);
    let sorted = sort_by_digest(entries);
    let ghost t = entry_views(sorted@);
    proof {
        broadcast use vstd::seq_lib::group_to_multiset_ensures;

        assert(t.to_multiset().len() == t.len());
        assert(ev.to_multiset().len() == ev.len());
    }
    let n = sorted.len();
    let ghost pv = digest_view(previous);
    let idx: usize = match &previous {
        None => 0,
        Some(h) => {
            let lb = split_point(&sorted, h);
            proof {
                let c = choose|c: int| splits_at(t, h@, c);
                lemma_split_unique(t, h@, c, lb as int);
            }
            let d = (days_since % (n as u64)) as usize;
            assert(d == (days_since as int) % (n as int));
            if lb < n && bytes_eq(&sorted[lb].0, h) {
                assert(t[lb as int].0 == sorted@[lb as int].0@);
                let base = lb % n;
                assert((lb + days_since) % (n as int) == (base + d) % (n as int)) by {
                    vstd::arithmetic::div_mod::lemma_add_mod_noop(
                        lb as int,
                        days_since as int,
                        n as int,
                    );
                }
                let r = add_mod(base, d, n);
                assert(r == rotation_index(t, pv, days_since as nat));
                r
            } else {
                if lb < n {
                    assert(t[lb as int].0 == sorted@[lb as int].0@);
                }
                // (lb + days_since - 1) mod n, with lb <= n and days_since >= 1
                let base = lb % n;
                let dm1 = ((days_since - 1) % (n as u64)) as usize;
                assert((lb + days_since - 1) % (n as int) == (base + dm1) % (n as int)) by {
                    vstd::arithmetic::div_mod::lemma_add_mod_noop(
                        lb as int,
                        days_since - 1,
                        n as int,
                    );
                }
                let r = add_mod(base, dm1, n);
                assert(r == rotation_index(t, pv, days_since as nat));
                r
            }
        },
    };
    assert(idx == rotation_index(t, pv, days_since as nat));
    let answer = sorted[idx].1.clone();
    assert(answer@ == t[idx as int].1);
    assert(by_digest(t));
    proof {
        broadcast use vstd::seq_lib::group_to_multiset_ensures;

        assert(t.contains(t[idx as int]));
        assert(ev.to_multiset().count(t[idx as int]) > 0);
        assert(ev.contains(t[idx as int]));
        let k = choose|k: int| 0 <= k < ev.len() && ev[k] == t[idx as int];
        assert(entry_names(ev)[k] == answer@);
    }
    Ok(answer)
}

/// Today's answer: `keys` ordered by their digests under `prefix`, then
/// stepped `days_since` places on from the previous answer as
/// `rotation_index` describes. An error when there are no characters.
pub fn rotate_answer(
    prefix: &[u8],
    keys: &Vec<String>,
    previous: Option<String>,
    days_since: u64,
) -> (r: Result<String, Error>)
    requires
        previous is Some ==> days_since >= 1,
    ensures
        keys@.len() == 0 <==> r is Err,
        r matches Ok(a) ==> texts(keys@).contains(a@),
        r matches Err(e) ==> e matches Error::String(m) && m@ == NO_CHARACTERS@,
        r matches Ok(a) ==> exists|t: Seq<(Seq<u8>, Seq<char>)>|
            #![trigger by_digest(t)]
            t.to_multiset() == keyed(prefix@, texts(keys@)).to_multiset() && by_digest(t) && a@
                == t[rotation_index(
                t,
                match previous {
                    Some(p) => Some(key_hash(prefix@, p@)),
                    None => None::<Seq<u8>>,
                },
                days_since as nat,
            )].1,
{
    let mut entries: Vec<(Vec<u8>, String)> = Vec::new();
    let mut i: usize = 0;
    assert(entry_views(entries@) =~= keyed(prefix@, texts(keys@.subrange(0, 0))));
    while i < keys.len()
        invariant
            i <= keys@.len(),
            entry_views(entries@) == keyed(prefix@, texts(keys@.subrange(0, i as int))),
        decreases keys@.len() - i,
    {
        let name = keys[i].clone();
        let h = hash_key(prefix, &name);
        let ghost before = entry_views(entries@);
        assert(name@ == keys@[i as int]@);
        entries.push((h, name));
        assert(texts(keys@.subrange(0, i + 1)) =~= texts(keys@.subrange(0, i as int)).push(
            keys@[i as int]@,
        ));
        assert(entry_views(entries@) =~= before.push((key_hash(prefix@, keys@[i as int]@), keys@[i as int]@)));
        assert(entry_views(entries@) =~= keyed(prefix@, texts(keys@.subrange(0, i + 1))));
        i = i + 1;
    }
    assert(keys@.subrange(0, i as int) =~= keys@);
    assert(entry_names(entry_views(entries@)) =~= texts(keys@));
    let digest = match &previous {
        Some(p) => Some(hash_key(prefix, p)),
        None => None,
    };
    assert(digest_view(digest) == match previous {
        Some(p) => Some(key_hash(prefix@, p@)),
        None => None::<Seq<u8>>,
    });
    rotate_hashed(entries, digest, days_since)
}

} // verus!

verus! {

// ----------------------------------------------------------------- the day

/// A calendar day: its number counted from the first day of the common era,
/// and its year.
#[derive(Clone, Copy, Debug)]
pub struct Day {
    pub number: i32,
    pub year: i32,
}

/// What `today` does once it has read the stored answer.
pub enum AnswerPlan {
    /// The stored answer is today's: use it as it is.
    Reuse(String),
    /// Rotate from the stored answer, if any, by the days since it was
    /// stored.
    Rotate { previous: Option<String>, days_since: u64 },
}

/// The distance in days between two days, either way round.
pub open spec fn day_distance(a: Day, b: Day) -> int {
    if a.number >= b.number {
        a.number - b.number
    } else {
        b.number - a.number
    }
}

/// The answer held in memory, if it is the one for `today`.
pub fn cached_answer(cached: &Option<(String, Day)>, today: Day) -> (r: Option<String>)
    ensures
        match cached {
            Some((s, d)) => if d.number == today.number {
                r matches Some(a) && a@ == s@
            } else {
                r is None
            },
            None => r is None,
        },
{
    match cached {
        Some((s, d)) => if d.number == today.number {
            Some(s.clone())
        } else {
            None
        },
        None => None,
    }
}

/// Decides between reusing the stored answer and rotating from it: a
/// stored answer dated today is reused verbatim; one dated any other day,
/// earlier or later, is rotated from by the distance between the two days;
/// with no stored answer the rotation starts afresh.
pub fn plan_answer(stored: Option<(String, Day)>, today: Day) -> (r: AnswerPlan)
    ensures
        match stored {
            Some((s, d)) => if d.number == today.number {
                r matches AnswerPlan::Reuse(a) && a@ == s@
            } else {
                r matches AnswerPlan::Rotate { previous: Some(p), days_since } && p@ == s@
                    && days_since == day_distance(today, d) && days_since >= 1
            },
            None => r matches AnswerPlan::Rotate { previous: None, days_since } && days_since == 0,
        },
{
    match stored {
        Some((s, d)) => {
            if d.number == today.number {
                AnswerPlan::Reuse(s)
            } else {
                let days: u64 = if today.number >= d.number {
                    (today.number as i64 - d.number as i64) as u64
                } else {
                    (d.number as i64 - today.number as i64) as u64
                };
                AnswerPlan::Rotate { previous: Some(s), days_since: days }
            }
        },
        None => AnswerPlan::Rotate { previous: None, days_since: 0 },
    }
}

/// The format in which a stored answer's date is written.
pub const DATE_FORMAT: &'static str = "%Y-%m-%d";

/// The message of the error for a stored date that cannot be read.
pub const BAD_STORED_DATE: &'static str = "Failed to parse date from database";

/// The day that `chrono::NaiveDate::parse_from_str(s, fmt)` reads from `s`,
/// as its number of days from the start of the common era and its year;
/// `None` when it refuses `s`.
pub uninterp spec fn parsed_day(s: Seq<char>, fmt: Seq<char>) -> Option<(int, int)>;

/// Calls `chrono::NaiveDate::parse_from_str(s, fmt)` and reads the date's
/// `num_days_from_ce` and `year`. The contract names the result; chrono's
/// parsing rules are not stated.
#[verifier::external_body]
fn parse_day(s: &str, fmt: &str) -> (r: Option<Day>)
    ensures
        match parsed_day(s@, fmt@) {
            Some((n, y)) => r matches Some(d) && d.number == n && d.year == y,
            None => r is None,
        },
{
    match chrono::NaiveDate::parse_from_str(s, fmt) {
        Ok(d) => Some(Day { number: d.num_days_from_ce(), year: d.year() }),
        Err(_) => None,
    }
}

/// The stored answer that a database row `(answer, date)` holds, its date
/// read in `DATE_FORMAT`; `Ok(None)` when there is no row, and an error when
/// the date cannot be read.
pub fn stored_answer(row: Option<(String, String)>) -> (r: Result<Option<(String, Day)>, Error>)
    ensures
        row is None ==> r matches Ok(None),
        row matches Some((a, s)) ==> match parsed_day(s@, DATE_FORMAT@) {
            Some((n, y)) => r matches Ok(Some((b, d))) && b@ == a@ && d.number == n && d.year
                == y,
            None => r matches Err(Error::String(m)) && m@ == BAD_STORED_DATE@,
        },
{
    match row {
        None => Ok(None),
        Some((answer, date)) => match parse_day(date.as_str(), DATE_FORMAT) {
            Some(d) => Ok(Some((answer, d))),
            None => Err(Error::String(String::from_str(BAD_STORED_DATE))),
        },
    }
}

// ------------------------------------------------------------------ the seed

/// The first year of the era that `year` falls in; like Rust's integer
/// division, it rounds towards zero.
pub open spec fn era_start(year: int) -> int {
    if year >= 0 {
        year / ERA_YEARS as int * ERA_YEARS as int
    } else {
        -((-year) / ERA_YEARS as int * ERA_YEARS as int)
    }
}

/// The decimal digits of `n`, in ASCII.
pub open spec fn digits(n: nat) -> Seq<u8>
    decreases n,
{
    if n < 10 {
        seq![(48 + n) as u8]
    } else {
        digits(n / 10).push((48 + n % 10) as u8)
    }
}

/// `n` written in decimal, with a leading `-` when negative, as
/// `i32::to_string` writes it.
pub open spec fn decimal(n: int) -> Seq<u8> {
    if n < 0 {
        seq![45u8] + digits((-n) as nat)
    } else {
        digits(n as nat)
    }
}

/// Appends the decimal digits of `m` to `out`.
fn push_digits(out: &mut Vec<u8>, m: u64)
    ensures
        final(out)@ == old(out)@ + digits(m as nat),
    decreases m,
{
    if m >= 10 {
        push_digits(out, m / 10);
    }
    out.push((48 + m % 10) as u8);
    assert(m < 10 ==> digits(m as nat) =~= seq![(48 + m) as u8]);
}

/// The bytes that seed the shuffle: the secret followed by the decimal first
/// year of the current era.
pub fn shuffle_prefix(secret: &[u8], year: i32) -> (r: Vec<u8>)
    ensures
        r@ == secret@ + decimal(era_start(year as int)),
{
    let mut out: Vec<u8> = Vec::new();
    append_bytes(&mut out, secret);
    let era: i64 = if year >= 0 {
        (year / ERA_YEARS * ERA_YEARS) as i64
    } else {
        -(((-(year as i64)) / 4) * 4)
    };
    assert(era == era_start(year as int));
    if era < 0 {
        out.push(45u8);
        push_digits(&mut out, (-era) as u64);
    } else {
        push_digits(&mut out, era as u64);
    }
    assert(out@ =~= secret@ + decimal(era_start(year as int)));
    out
}

} // verus!

verus! {

/// No two pairs of `v` share a digest.
pub open spec fn distinct_digests(v: Seq<(Seq<u8>, Seq<char>)>) -> bool {
    forall|i: int, j: int|
        #![trigger v[i], v[j]]
        0 <= i < v.len() && 0 <= j < v.len() && i != j ==> v[i].0 != v[j].0
}

/// Rotating from a listed character steps through the digest order: from
/// the character at position `j`, `days` days on is the character at
/// `(j + days) mod n`.
pub proof fn lemma_rotation_from_listed(v: Seq<(Seq<u8>, Seq<char>)>, j: int, days: nat)
    requires
        by_digest(v),
        distinct_digests(v),
        0 <= j < v.len(),
    ensures
        rotation_index(v, Some(v[j].0), days) == (j + days) % (v.len() as int),
{
    let h = v[j].0;
    assert(splits_at(v, h, j)) by {
        assert forall|i: int| 0 <= i < j implies lex_lt((#[trigger] v[i]).0, h) by {
            assert(!lex_lt(h, v[i].0));
            assert(v[i].0 != h);
            lemma_lex_total(v[i].0, h);
        }
        assert forall|i: int| j <= i < v.len() implies !lex_lt((#[trigger] v[i]).0, h) by {
            if i == j {
                lemma_lex_irreflexive(h);
            }
        }
    }
    let lb = choose|lb: int| splits_at(v, h, lb);
    lemma_split_unique(v, h, lb, j);
}

/// Stepping a whole number of rounds of `n` days through `n` characters
/// returns to the previous answer.
pub proof fn lemma_full_cycle_returns(v: Seq<(Seq<u8>, Seq<char>)>, j: int, rounds: nat)
    requires
        by_digest(v),
        distinct_digests(v),
        0 <= j < v.len(),
    ensures
        v[rotation_index(v, Some(v[j].0), rounds * v.len())] == v[j],
{
    lemma_rotation_from_listed(v, j, rounds * v.len());
    assert((j + rounds * v.len()) % (v.len() as int) == j) by {
        vstd::arithmetic::div_mod::lemma_mod_multiples_vanish(rounds as int, j, v.len() as int);
        vstd::arithmetic::div_mod::lemma_small_mod(j as nat, v.len());
    }
}

/// When no two characters share a digest, there is only one way to order
/// them by digest: the order depends on the characters alone, not on the
/// order they were listed in, and so does the answer that `rotate_hashed`
/// and `rotate_answer` pick.
pub proof fn lemma_hash_order_unique(t1: Seq<(Seq<u8>, Seq<char>)>, t2: Seq<(Seq<u8>, Seq<char>)>)
    requires
        by_digest(t1),
        by_digest(t2),
        t1.to_multiset() == t2.to_multiset(),
        distinct_digests(t1),
    ensures
        t1 == t2,
    decreases t1.len(),
{
    broadcast use vstd::seq_lib::group_to_multiset_ensures;
    broadcast use vstd::multiset::group_multiset_axioms;

    assert(t1.len() == t1.to_multiset().len());
    assert(t2.len() == t2.to_multiset().len());
    if t1.len() == 0 {
        assert(t1 =~= t2);
    } else {
        let a = t1[0];
        let b = t2[0];
        assert(t1.contains(a));
        assert(t2.to_multiset().count(a) > 0);
        let k = choose|k: int| 0 <= k < t2.len() && t2[k] == a;
        assert(t2.contains(b));
        assert(t1.to_multiset().count(b) > 0);
        let m = choose|m: int| 0 <= m < t1.len() && t1[m] == b;
        if a != b {
            assert(k > 0 && m > 0);
            assert(!lex_lt(t2[k].0, t2[0].0));
            assert(!lex_lt(t1[m].0, t1[0].0));
            lemma_lex_total(a.0, b.0);
            assert(t1[0].0 != t1[m].0);
        }
        let r1 = t1.drop_first();
        let r2 = t2.drop_first();
        assert(t1.remove(0) =~= r1);
        assert(t2.remove(0) =~= r2);
        assert(r1.to_multiset() =~= r2.to_multiset());
        assert(by_digest(r1)) by {
            assert forall|i: int, j: int| #![trigger r1[i], r1[j]] 0 <= i < j < r1.len() implies !lex_lt(
                r1[j].0,
                r1[i].0,
            ) by {
                assert(r1[i] == t1[i + 1] && r1[j] == t1[j + 1]);
            }
        }
        assert(by_digest(r2)) by {
            assert forall|i: int, j: int| #![trigger r2[i], r2[j]] 0 <= i < j < r2.len() implies !lex_lt(
                r2[j].0,
                r2[i].0,
            ) by {
                assert(r2[i] == t2[i + 1] && r2[j] == t2[j + 1]);
            }
        }
        assert(distinct_digests(r1)) by {
            assert forall|i: int, j: int|
                #![trigger r1[i], r1[j]]
                0 <= i < r1.len() && 0 <= j < r1.len() && i != j implies r1[i].0 != r1[j].0 by {
                assert(r1[i] == t1[i + 1] && r1[j] == t1[j + 1]);
            }
        }
        lemma_hash_order_unique(r1, r2);
        assert(t1 =~= t2) by {
            assert forall|i: int| 0 <= i < t1.len() implies t1[i] == t2[i] by {
                if i > 0 {
                    assert(t1[i] == r1[i - 1] && t2[i] == r2[i - 1]);
                }
            }
        }
    }
}

} // verus!
