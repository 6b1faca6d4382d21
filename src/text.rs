//! Character-level text primitives on which the interception and translation
//! rules are built: conversion between strings and character vectors,
//! substring search, replacement and whitespace trimming.
use vstd::prelude::*;

verus! {

/// Relies on `String::push`: appends one character at the end.
#[verifier::external_body]
fn push_char(s: &mut String, c: char)
    ensures
        final(s)@ == old(s)@.push(c),
{
    s.push(c)
}

/// The characters of `s`, in order.
pub fn chars_of(s: &str) -> (r: Vec<char>)
    ensures
        r@ == s@,
{
    let mut out: Vec<char> = Vec::new();
    for c in it: s.chars()
        invariant
            out@ == it.seq().subrange(0, it.index() as int),
    {
        out.push(c);
    }
    out
}

/// A string holding the characters of `v`, in order.
pub fn string_of(v: &Vec<char>) -> (r: String)
    ensures
        r@ == v@,
{
    let mut out = String::new();
    let mut i: usize = 0;
    while i < v.len()
        invariant
            i <= v.len(),
            out@ == v@.subrange(0, i as int),
        decreases v.len() - i,
    {
        push_char(&mut out, v[i]);
        assert(v@.subrange(0, i + 1) == v@.subrange(0, i as int).push(v@[i as int]));
        i = i + 1;
    }
    assert(v@.subrange(0, v.len() as int) == v@);
    out
}


/// `p` occurs in `s` starting at position `i`.
pub open spec fn occurs_at(s: Seq<char>, i: int, p: Seq<char>) -> bool {
    0 <= i && i + p.len() <= s.len() && s.subrange(i, i + p.len()) == p
}

/// `p` occurs somewhere in `s`.
pub open spec fn contains(s: Seq<char>, p: Seq<char>) -> bool {
    exists|i: int| occurs_at(s, i, p)
}

/// `s` begins with `p`.
pub open spec fn starts_with(s: Seq<char>, p: Seq<char>) -> bool {
    occurs_at(s, 0, p)
}

/// Every occurrence of `a` in `s`, taken from left to right without overlap,
/// replaced by `b`. An empty `a` leaves `s` as it is.
pub open spec fn replaced(s: Seq<char>, a: Seq<char>, b: Seq<char>) -> Seq<char>
    decreases s.len(),
{
    if a.len() == 0 || s.len() < a.len() {
        s
    } else if s.subrange(0, a.len() as int) == a {
        b + replaced(s.subrange(a.len() as int, s.len() as int), a, b)
    } else {
        seq![s[0]] + replaced(s.drop_first(), a, b)
    }
}

/// Whether `p` occurs in `v` at position `i`.
pub fn matches_at(v: &Vec<char>, i: usize, p: &Vec<char>) -> (r: bool)
    ensures
        r == occurs_at(v@, i as int, p@),
{
    if i > v.len() || p.len() > v.len() - i {
        return false;
    }
    let mut k: usize = 0;
    while k < p.len()
        invariant
            i + p.len() <= v.len(),
            k <= p.len(),
            forall|j: int| 0 <= j < k ==> v@[i + j] == p@[j],
        decreases p.len() - k,
    {
        if v[i + k] != p[k] {
            assert(v@.subrange(i as int, i + p.len())[k as int] != p@[k as int]);
            return false;
        }
        k = k + 1;
    }
    assert(v@.subrange(i as int, i + p.len()) =~= p@);
    true
}

proof fn lemma_occurs_shift(s: Seq<char>, p: Seq<char>, i: int)
    requires
        s.len() > 0,
        i >= 1,
    ensures
        occurs_at(s, i, p) == occurs_at(s.drop_first(), i - 1, p),
{
    if i + p.len() <= s.len() {
        assert(s.subrange(i, i + p.len()) =~= s.drop_first().subrange(i - 1, i - 1 + p.len()));
    }
}

/// Whether `p` occurs anywhere in `v`.
pub fn contains_seq(v: &Vec<char>, p: &Vec<char>) -> (r: bool)
    ensures
        r == contains(v@, p@),
{
    if p.len() == 0 {
        assert(v@.subrange(0, 0) =~= p@);
        assert(occurs_at(v@, 0, p@));
        return true;
    }
    let mut i: usize = 0;
    while i < v.len()
        invariant
            i <= v.len(),
            forall|j: int| 0 <= j < i ==> !occurs_at(v@, j, p@),
        decreases v.len() - i,
    {
        if matches_at(v, i, p) {
            return true;
        }
        i = i + 1;
    }
    false
}

/// `v` with every occurrence of `a`, from left to right, replaced by `b`.
pub fn replace_all(v: &Vec<char>, a: &Vec<char>, b: &Vec<char>) -> (r: Vec<char>)
    ensures
        r@ == replaced(v@, a@, b@),
{
    let mut out: Vec<char> = Vec::new();
    if a.len() == 0 {
        let mut k: usize = 0;
        while k < v.len()
            invariant
                k <= v.len(),
                out@ == v@.subrange(0, k as int),
            decreases v.len() - k,
        {
            out.push(v[k]);
            k = k + 1;
        }
        assert(v@.subrange(0, v.len() as int) =~= v@);
        return out;
    }
    let mut i: usize = 0;
    assert(v@.subrange(0, v.len() as int) =~= v@);
    assert(out@ + replaced(v@, a@, b@) =~= replaced(v@, a@, b@));
    while i < v.len()
        invariant
            a@.len() > 0,
            i <= v.len(),
            out@ + replaced(v@.subrange(i as int, v.len() as int), a@, b@) == replaced(v@, a@, b@),
        decreases v.len() - i,
    {
        let ghost rest = v@.subrange(i as int, v.len() as int);
        if matches_at(v, i, a) {
            assert(rest.subrange(0, a@.len() as int) =~= v@.subrange(i as int, i + a@.len()));
            assert(rest.subrange(a@.len() as int, rest.len() as int) =~= v@.subrange(
                i + a@.len(),
                v.len() as int,
            ));
            let mut k: usize = 0;
            let ghost before = out@;
            while k < b.len()
                invariant
                    k <= b.len(),
                    out@ == before + b@.subrange(0, k as int),
                decreases b.len() - k,
            {
                out.push(b[k]);
                assert(b@.subrange(0, k + 1) =~= b@.subrange(0, k as int).push(b@[k as int]));
                k = k + 1;
            }
            assert(b@.subrange(0, b.len() as int) =~= b@);
            assert(out@ + replaced(v@.subrange(i + a@.len(), v.len() as int), a@, b@) =~= before
                + replaced(rest, a@, b@));
            i = i + a.len();
        } else {
            assert(rest.len() >= a@.len() ==> rest.subrange(0, a@.len() as int) =~= v@.subrange(
                i as int,
                i + a@.len(),
            ));
            assert(rest.drop_first() =~= v@.subrange(i + 1, v.len() as int));
            let ghost before = out@;
            out.push(v[i]);
            assert(out@ + replaced(v@.subrange(i + 1, v.len() as int), a@, b@) =~= before
                + replaced(rest, a@, b@));
            i = i + 1;
        }
    }
    assert(replaced(v@.subrange(i as int, v.len() as int), a@, b@) =~= Seq::<char>::empty());
    assert(out@ + Seq::<char>::empty() =~= out@);
    out
}


/// Unicode's White_Space property, the whitespace that `str::trim` removes.
pub open spec fn is_white_space(c: char) -> bool {
    let u = c as u32;
    (9 <= u && u <= 13) || u == 32 || u == 0x85 || u == 0xa0 || u == 0x1680 || (0x2000 <= u && u
        <= 0x200a) || u == 0x2028 || u == 0x2029 || u == 0x202f || u == 0x205f || u == 0x3000
}

/// Whether `c` is whitespace.
pub fn white_space(c: char) -> (r: bool)
    ensures
        r == is_white_space(c),
{
    let u = c as u32;
    (9 <= u && u <= 13) || u == 32 || u == 0x85 || u == 0xa0 || u == 0x1680 || (0x2000 <= u && u
        <= 0x200a) || u == 0x2028 || u == 0x2029 || u == 0x202f || u == 0x205f || u == 0x3000
}

/// The number of whitespace characters at the start of `s`.
pub open spec fn lead_ws(s: Seq<char>) -> nat
    decreases s.len(),
{
    if s.len() > 0 && is_white_space(s[0]) {
        1 + lead_ws(s.drop_first())
    } else {
        0
    }
}

/// The number of whitespace characters at the end of `s`.
pub open spec fn trail_ws(s: Seq<char>) -> nat
    decreases s.len(),
{
    if s.len() > 0 && is_white_space(s.last()) {
        1 + trail_ws(s.drop_last())
    } else {
        0
    }
}

/// `s` without leading and trailing whitespace.
pub open spec fn trimmed(s: Seq<char>) -> Seq<char> {
    let t = s.subrange(lead_ws(s) as int, s.len() as int);
    t.subrange(0, t.len() - trail_ws(t))
}

/// The bounds of `v[lo..hi]` once leading and trailing whitespace is cut off.
pub fn trim_bounds(v: &Vec<char>, lo: usize, hi: usize) -> (r: (usize, usize))
    requires
        lo <= hi <= v.len(),
    ensures
        lo <= r.0 <= r.1 <= hi,
        r.0 == lo + lead_ws(v@.subrange(lo as int, hi as int)),
        r.1 == hi - trail_ws(v@.subrange(r.0 as int, hi as int)),
        v@.subrange(r.0 as int, r.1 as int) == trimmed(v@.subrange(lo as int, hi as int)),
{
    let mut a: usize = lo;
    while a < hi && white_space(v[a])
        invariant
            lo <= a <= hi <= v.len(),
            lo + lead_ws(v@.subrange(lo as int, hi as int)) == a + lead_ws(
                v@.subrange(a as int, hi as int),
            ),
        decreases hi - a,
    {
        assert(v@.subrange(a as int, hi as int).drop_first() =~= v@.subrange(a + 1, hi as int));
        a = a + 1;
    }
    let mut b: usize = hi;
    while b > a && white_space(v[b - 1])
        invariant
            lo <= a <= b <= hi <= v.len(),
            hi - trail_ws(v@.subrange(a as int, hi as int)) == b - trail_ws(
                v@.subrange(a as int, b as int),
            ),
        decreases b - a,
    {
        assert(v@.subrange(a as int, b as int).drop_last() =~= v@.subrange(a as int, b - 1));
        b = b - 1;
    }
    let ghost t = v@.subrange(lo as int, hi as int).subrange(
        lead_ws(v@.subrange(lo as int, hi as int)) as int,
        hi - lo,
    );
    assert(t =~= v@.subrange(a as int, hi as int));
    assert(t.subrange(0, t.len() - trail_ws(t)) =~= v@.subrange(a as int, b as int));
    (a, b)
}

/// A copy of `v[lo..hi]`.
pub fn slice_of(v: &Vec<char>, lo: usize, hi: usize) -> (r: Vec<char>)
    requires
        lo <= hi <= v.len(),
    ensures
        r@ == v@.subrange(lo as int, hi as int),
{
    let mut out: Vec<char> = Vec::new();
    let mut k: usize = lo;
    while k < hi
        invariant
            lo <= k <= hi <= v.len(),
            out@ == v@.subrange(lo as int, k as int),
        decreases hi - k,
    {
        out.push(v[k]);
        assert(v@.subrange(lo as int, k + 1) =~= v@.subrange(lo as int, k as int).push(v@[k as int]));
        k = k + 1;
    }
    out
}

/// `v` with leading and trailing whitespace removed.
pub fn trim(v: &Vec<char>) -> (r: Vec<char>)
    ensures
        r@ == trimmed(v@),
{
    let (a, b) = trim_bounds(v, 0, v.len());
    assert(v@.subrange(0, v.len() as int) =~= v@);
    slice_of(v, a, b)
}

/// The ASCII lower-case form of `c`; any other character is kept.
pub open spec fn ascii_lower(c: char) -> char {
    if 'A' <= c && c <= 'Z' {
        ((c as u8) + 32) as char
    } else {
        c
    }
}

/// The ASCII lower-case form of `c`.
pub fn to_ascii_lower(c: char) -> (r: char)
    ensures
        r == ascii_lower(c),
{
    if 'A' <= c && c <= 'Z' {
        ((c as u8) + 32) as char
    } else {
        c
    }
}

/// `p`, written in lower case, occurs in `s` at `i` when ASCII letters of `s`
/// are compared without regard to case.
pub open spec fn occurs_at_ci(s: Seq<char>, i: int, p: Seq<char>) -> bool {
    &&& 0 <= i
    &&& i + p.len() <= s.len()
    &&& forall|k: int| 0 <= k < p.len() ==> ascii_lower(#[trigger] s[i + k]) == p[k]
}

/// The first position at or after `i` where `p` occurs in `s`, if any.
pub open spec fn find_from(s: Seq<char>, p: Seq<char>, i: int) -> Option<int>
    decreases s.len() + 1 - i,
{
    if i < 0 || i + p.len() > s.len() {
        None
    } else if occurs_at(s, i, p) {
        Some(i)
    } else {
        find_from(s, p, i + 1)
    }
}

/// The first position at or after `i` where `p` occurs in `s` regardless of
/// the case of ASCII letters, if any.
pub open spec fn find_ci_from(s: Seq<char>, p: Seq<char>, i: int) -> Option<int>
    decreases s.len() + 1 - i,
{
    if i < 0 || i + p.len() > s.len() {
        None
    } else if occurs_at_ci(s, i, p) {
        Some(i)
    } else {
        find_ci_from(s, p, i + 1)
    }
}

/// Whether `p` (lower case) occurs in `v` at `i`, ignoring ASCII case in `v`.
pub fn matches_at_ci(v: &Vec<char>, i: usize, p: &Vec<char>) -> (r: bool)
    ensures
        r == occurs_at_ci(v@, i as int, p@),
{
    if i > v.len() || p.len() > v.len() - i {
        return false;
    }
    let mut k: usize = 0;
    while k < p.len()
        invariant
            i + p.len() <= v.len(),
            k <= p.len(),
            forall|j: int| 0 <= j < k ==> ascii_lower(#[trigger] v@[i + j]) == p@[j],
        decreases p.len() - k,
    {
        if to_ascii_lower(v[i + k]) != p[k] {
            return false;
        }
        k = k + 1;
    }
    true
}

/// The first position at or after `from` where `p` occurs in `v`.
pub fn find(v: &Vec<char>, p: &Vec<char>, from: usize) -> (r: Option<usize>)
    ensures
        r matches Some(i) ==> find_from(v@, p@, from as int) == Some(i as int),
        r is None ==> find_from(v@, p@, from as int) is None,
{
    if from > v.len() {
        return None;
    }
    let mut i: usize = from;
    while i < v.len() && p.len() <= v.len() - i
        invariant
            from <= i <= v.len(),
            find_from(v@, p@, from as int) == find_from(v@, p@, i as int),
        decreases v.len() - i,
    {
        if matches_at(v, i, p) {
            return Some(i);
        }
        i = i + 1;
    }
    if p.len() <= v.len() - i && matches_at(v, i, p) {
        return Some(i);
    }
    assert(find_from(v@, p@, i + 1) is None);
    None
}

/// The first position at or after `from` where `p` (lower case) occurs in
/// `v`, ignoring ASCII case in `v`.
pub fn find_ci(v: &Vec<char>, p: &Vec<char>, from: usize) -> (r: Option<usize>)
    ensures
        r matches Some(i) ==> find_ci_from(v@, p@, from as int) == Some(i as int),
        r is None ==> find_ci_from(v@, p@, from as int) is None,
{
    if from > v.len() {
        return None;
    }
    let mut i: usize = from;
    while i < v.len() && p.len() <= v.len() - i
        invariant
            from <= i <= v.len(),
            find_ci_from(v@, p@, from as int) == find_ci_from(v@, p@, i as int),
        decreases v.len() - i,
    {
        if matches_at_ci(v, i, p) {
            return Some(i);
        }
        i = i + 1;
    }
    if p.len() <= v.len() - i && matches_at_ci(v, i, p) {
        return Some(i);
    }
    assert(find_ci_from(v@, p@, i + 1) is None);
    None
}


/// Appends the characters of `src` to `out`.
pub fn push_all(out: &mut Vec<char>, src: &Vec<char>)
    ensures
        final(out)@ == old(out)@ + src@,
{
    let mut k: usize = 0;
    while k < src.len()
        invariant
            k <= src.len(),
            out@ == old(out)@ + src@.subrange(0, k as int),
        decreases src.len() - k,
    {
        out.push(src[k]);
        assert(src@.subrange(0, k + 1) =~= src@.subrange(0, k as int).push(src@[k as int]));
        k = k + 1;
    }
    assert(src@.subrange(0, src.len() as int) =~= src@);
}


/// Replacing a pattern that does not occur leaves a text unchanged.
pub proof fn lemma_replaced_absent(s: Seq<char>, a: Seq<char>, b: Seq<char>)
    requires
        !contains(s, a),
    ensures
        replaced(s, a, b) == s,
    decreases s.len(),
{
    if a.len() == 0 || s.len() < a.len() {
    } else {
        assert(!occurs_at(s, 0, a));
        assert(s.subrange(0, a.len() as int) != a);
        assert forall|i: int| !occurs_at(s.drop_first(), i, a) by {
            if i >= 0 {
                lemma_occurs_shift(s, a, i + 1);
            }
        }
        lemma_replaced_absent(s.drop_first(), a, b);
        assert(seq![s[0]] + s.drop_first() =~= s);
    }
}


/// Whether every character of `s` is whitespace.
pub open spec fn all_white_space(s: Seq<char>) -> bool {
    forall|i: int| 0 <= i < s.len() ==> is_white_space(#[trigger] s[i])
}

proof fn lemma_lead_ws_bound(s: Seq<char>)
    ensures
        lead_ws(s) <= s.len(),
        lead_ws(s) < s.len() ==> !is_white_space(s[lead_ws(s) as int]),
        forall|i: int| 0 <= i < lead_ws(s) ==> is_white_space(#[trigger] s[i]),
    decreases s.len(),
{
    if s.len() > 0 && is_white_space(s[0]) {
        lemma_lead_ws_bound(s.drop_first());
        assert forall|i: int| 0 <= i < lead_ws(s) implies is_white_space(#[trigger] s[i]) by {
            if i > 0 {
                assert(s[i] == s.drop_first()[i - 1]);
            }
        }
    }
}

proof fn lemma_trail_ws_bound(s: Seq<char>)
    ensures
        trail_ws(s) <= s.len(),
    decreases s.len(),
{
    if s.len() > 0 && is_white_space(s.last()) {
        lemma_trail_ws_bound(s.drop_last());
    }
}

proof fn lemma_lead_ws_append(x: Seq<char>, y: Seq<char>)
    requires
        lead_ws(x) < x.len(),
    ensures
        lead_ws(x + y) == lead_ws(x),
    decreases x.len(),
{
    if is_white_space(x[0]) {
        assert((x + y).drop_first() =~= x.drop_first() + y);
        lemma_lead_ws_append(x.drop_first(), y);
    }
}

proof fn lemma_lead_ws_all(x: Seq<char>, y: Seq<char>)
    requires
        all_white_space(x),
    ensures
        lead_ws(x + y) == x.len() + lead_ws(y),
    decreases x.len(),
{
    if x.len() > 0 {
        assert((x + y).drop_first() =~= x.drop_first() + y);
        lemma_lead_ws_all(x.drop_first(), y);
    } else {
        assert(x + y =~= y);
    }
}

proof fn lemma_trail_ws_all(x: Seq<char>, y: Seq<char>)
    requires
        all_white_space(y),
    ensures
        trail_ws(x + y) == trail_ws(x) + y.len(),
    decreases y.len(),
{
    if y.len() > 0 {
        assert((x + y).drop_last() =~= x + y.drop_last());
        lemma_trail_ws_all(x, y.drop_last());
    } else {
        assert(x + y =~= x);
    }
}

/// Whitespace before or after a text does not change its trimmed form.
pub proof fn lemma_trimmed_ignores_padding(w1: Seq<char>, s: Seq<char>, w2: Seq<char>)
    requires
        all_white_space(w1),
        all_white_space(w2),
    ensures
        trimmed(w1 + s + w2) == trimmed(s),
{
    let x = w1 + s + w2;
    lemma_lead_ws_bound(s);
    lemma_lead_ws_all(w1, s + w2);
    assert(x =~= w1 + (s + w2));
    let l = lead_ws(s);
    if l < s.len() {
        lemma_lead_ws_append(s, w2);
        let t = s.subrange(l as int, s.len() as int);
        let tx = x.subrange((w1.len() + l) as int, x.len() as int);
        assert(tx =~= t + w2);
        lemma_trail_ws_all(t, w2);
        lemma_trail_ws_bound(t);
        assert(tx.subrange(0, tx.len() - trail_ws(tx)) =~= t.subrange(0, t.len() - trail_ws(t)));
    } else {
        assert forall|i: int| 0 <= i < (s + w2).len() implies is_white_space(#[trigger] (s + w2)[i]) by {
            if i >= s.len() {
                assert((s + w2)[i] == w2[i - s.len()]);
            }
        }
        lemma_lead_ws_all(s + w2, Seq::<char>::empty());
        assert(s + w2 + Seq::<char>::empty() =~= s + w2);
        let t = s.subrange(l as int, s.len() as int);
        assert(t.len() == 0);
        lemma_trail_ws_bound(t);
        let tx = x.subrange(lead_ws(x) as int, x.len() as int);
        assert(tx.len() == 0);
        lemma_trail_ws_bound(tx);
        assert(tx.subrange(0, tx.len() - trail_ws(tx)) =~= t.subrange(0, t.len() - trail_ws(t)));
    }
}


/// `x` and `y` agree on as many leading characters as the shorter one has.
pub open spec fn prefix_agree(x: Seq<char>, y: Seq<char>) -> bool {
    let m = if x.len() < y.len() {
        x.len()
    } else {
        y.len()
    };
    x.subrange(0, m as int) == y.subrange(0, m as int)
}

/// No occurrence of `a` can straddle a copy of `b` and the text around it:
/// no proper suffix of `a` runs into the start of `b`, and no suffix of `b`
/// runs into the start of `a`.
pub open spec fn overlap_free(a: Seq<char>, b: Seq<char>) -> bool {
    &&& a.len() > 0
    &&& b.len() > 0
    &&& forall|k: int| 1 <= k < a.len() ==> !#[trigger] prefix_agree(a.subrange(k, a.len() as int), b)
    &&& forall|k: int| 0 <= k < b.len() ==> !#[trigger] prefix_agree(b.subrange(k, b.len() as int), a)
}

proof fn lemma_replaced_prefix(s: Seq<char>, a: Seq<char>, b: Seq<char>, q: int)
    requires
        a.len() > 0,
        occurs_at(s, q, a),
        forall|t: int| 0 <= t < q ==> !occurs_at(s, t, a),
    ensures
        replaced(s, a, b).len() >= q + b.len(),
        replaced(s, a, b).subrange(0, q) == s.subrange(0, q),
        replaced(s, a, b).subrange(q, q + b.len()) == b,
    decreases s.len(),
{
    let o = replaced(s, a, b);
    if s.subrange(0, a.len() as int) == a {
        assert(occurs_at(s, 0, a));
        assert(q == 0);
        assert(o.subrange(0, b.len() as int) =~= b);
        assert(o.subrange(0, 0) =~= s.subrange(0, 0));
    } else {
        assert(!occurs_at(s, 0, a));
        let x = s.drop_first();
        lemma_occurs_shift(s, a, q);
        assert forall|t: int| 0 <= t < q - 1 implies !occurs_at(x, t, a) by {
            lemma_occurs_shift(s, a, t + 1);
        }
        lemma_replaced_prefix(x, a, b, q - 1);
        let o2 = replaced(x, a, b);
        assert(o == seq![s[0]] + o2);
        assert(o.subrange(0, q) =~= seq![s[0]] + o2.subrange(0, q - 1));
        assert(s.subrange(0, q) =~= seq![s[0]] + x.subrange(0, q - 1));
        assert(o.subrange(q, q + b.len()) =~= o2.subrange(q - 1, q - 1 + b.len()));
    }
}

proof fn lemma_first_occurrence(s: Seq<char>, a: Seq<char>, i: int)
    requires
        0 <= i,
        forall|t: int| 0 <= t < i ==> !occurs_at(s, t, a),
    ensures
        (forall|t: int| !occurs_at(s, t, a)) || exists|q: int|
            occurs_at(s, q, a) && forall|t: int| 0 <= t < q ==> !occurs_at(s, t, a),
    decreases s.len() + 1 - i,
{
    if i > s.len() {
        assert forall|t: int| !occurs_at(s, t, a) by {
            if t >= i {
            }
        }
    } else if occurs_at(s, i, a) {
    } else {
        lemma_first_occurrence(s, a, i + 1);
    }
}

/// Texts whose first characters differ do not agree.
pub proof fn lemma_first_differs(x: Seq<char>, y: Seq<char>)
    requires
        x.len() > 0,
        y.len() > 0,
        x[0] != y[0],
    ensures
        !prefix_agree(x, y),
{
    let m = if x.len() < y.len() {
        x.len()
    } else {
        y.len()
    };
    assert(x.subrange(0, m as int)[0] != y.subrange(0, m as int)[0]);
}

/// Two texts that `o` holds at the same position agree on their common
/// length.
pub proof fn lemma_agree_inside(o: Seq<char>, i: int, x: Seq<char>, y: Seq<char>)
    requires
        0 <= i,
        i + x.len() <= o.len(),
        i + y.len() <= o.len(),
        o.subrange(i, i + x.len()) == x,
        o.subrange(i, i + y.len()) == y,
    ensures
        prefix_agree(x, y),
{
    let m = if x.len() < y.len() {
        x.len()
    } else {
        y.len()
    };
    assert forall|j: int| 0 <= j < m implies x.subrange(0, m as int)[j] == y.subrange(0, m as int)[j] by {
        assert(x[j] == o.subrange(i, i + x.len())[j]);
        assert(y[j] == o.subrange(i, i + y.len())[j]);
    }
    assert(x.subrange(0, m as int) =~= y.subrange(0, m as int));
}

proof fn lemma_replaced_absent_whole(s: Seq<char>, a: Seq<char>, b: Seq<char>)
    requires
        forall|t: int| !occurs_at(s, t, a),
    ensures
        replaced(s, a, b) == s,
{
    lemma_replaced_absent(s, a, b);
}

proof fn lemma_leaves_none_at_head(s: Seq<char>, a: Seq<char>, b: Seq<char>)
    requires
        overlap_free(a, b),
        s.len() >= a.len(),
        s.subrange(0, a.len() as int) != a,
    ensures
        !occurs_at(replaced(s, a, b), 0, a),
{
    let o = replaced(s, a, b);
    let x = s.drop_first();
    let o2 = replaced(x, a, b);
    assert(o == seq![s[0]] + o2);
    if occurs_at(o, 0, a) {
        lemma_first_occurrence(x, a, 0);
        if forall|t: int| !occurs_at(x, t, a) {
            lemma_replaced_absent_whole(x, a, b);
            assert(seq![s[0]] + x =~= s);
        } else {
            let q = choose|q: int|
                occurs_at(x, q, a) && forall|t: int| 0 <= t < q ==> !occurs_at(x, t, a);
            lemma_replaced_prefix(x, a, b, q);
            if q + 1 >= a.len() {
                assert(o.subrange(0, q + 1) =~= seq![s[0]] + o2.subrange(0, q));
                assert(s.subrange(0, q + 1) =~= seq![s[0]] + x.subrange(0, q));
                assert(s.subrange(0, a.len() as int) =~= o.subrange(0, q + 1).subrange(
                    0,
                    a.len() as int,
                ));
                assert(o.subrange(0, a.len() as int) =~= o.subrange(0, q + 1).subrange(
                    0,
                    a.len() as int,
                ));
            } else {
                let k = q + 1;
                assert(o.subrange(k, k + b.len()) =~= o2.subrange(q, q + b.len()));
                assert(o.subrange(k, a.len() as int) =~= a.subrange(k, a.len() as int));
                lemma_agree_inside(o, k, a.subrange(k, a.len() as int), b);
            }
        }
    }
}

proof fn lemma_leaves_none_after_match(s: Seq<char>, a: Seq<char>, b: Seq<char>)
    requires
        overlap_free(a, b),
        s.len() >= a.len(),
        s.subrange(0, a.len() as int) == a,
        !contains(replaced(s.subrange(a.len() as int, s.len() as int), a, b), a),
    ensures
        !contains(replaced(s, a, b), a),
{
    let o = replaced(s, a, b);
    let o2 = replaced(s.subrange(a.len() as int, s.len() as int), a, b);
    assert(o == b + o2);
    assert forall|p: int| !occurs_at(o, p, a) by {
        if occurs_at(o, p, a) {
            if p < b.len() {
                assert(o.subrange(p, b.len() as int) =~= b.subrange(p, b.len() as int));
                lemma_agree_inside(o, p, b.subrange(p, b.len() as int), a);
            } else {
                assert(o.subrange(p, p + a.len()) =~= o2.subrange(p - b.len(), p - b.len() + a.len()));
                assert(occurs_at(o2, p - b.len(), a));
            }
        }
    }
}

proof fn lemma_leaves_none_after_skip(s: Seq<char>, a: Seq<char>, b: Seq<char>)
    requires
        overlap_free(a, b),
        s.len() >= a.len(),
        s.subrange(0, a.len() as int) != a,
        !contains(replaced(s.drop_first(), a, b), a),
    ensures
        !contains(replaced(s, a, b), a),
{
    let o = replaced(s, a, b);
    let o2 = replaced(s.drop_first(), a, b);
    assert(o == seq![s[0]] + o2);
    lemma_leaves_none_at_head(s, a, b);
    assert forall|p: int| !occurs_at(o, p, a) by {
        if occurs_at(o, p, a) && p >= 1 {
            assert(o.subrange(p, p + a.len()) =~= o2.subrange(p - 1, p - 1 + a.len()));
            assert(occurs_at(o2, p - 1, a));
        }
    }
}

/// A rule whose pattern cannot overlap its replacement leaves no occurrence
/// of the pattern behind.
pub proof fn lemma_replaced_leaves_none(s: Seq<char>, a: Seq<char>, b: Seq<char>)
    requires
        overlap_free(a, b),
    ensures
        !contains(replaced(s, a, b), a),
    decreases s.len(),
{
    if s.len() < a.len() {
        assert(replaced(s, a, b) == s);
    } else if s.subrange(0, a.len() as int) == a {
        lemma_replaced_leaves_none(s.subrange(a.len() as int, s.len() as int), a, b);
        lemma_leaves_none_after_match(s, a, b);
    } else {
        lemma_replaced_leaves_none(s.drop_first(), a, b);
        lemma_leaves_none_after_skip(s, a, b);
    }
}

} // verus!
