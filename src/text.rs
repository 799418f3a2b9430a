//! Character-level helpers shared by the template compiler and the line matcher.
use vstd::prelude::*;

verus! {

/// The text `pat` stands in `s` starting at character `at`.
pub open spec fn occurs_at(s: Seq<char>, pat: Seq<char>, at: int) -> bool {
    0 <= at && at + pat.len() <= s.len() && s.subrange(at, at + pat.len()) == pat
}

/// The leftmost position at or after `from` where `pat` occurs in `s`, if any.
pub open spec fn find_from(s: Seq<char>, pat: Seq<char>, from: int) -> Option<int>
    decreases s.len() + 1 - from,
{
    if from < 0 || from + pat.len() > s.len() {
        None
    } else if occurs_at(s, pat, from) {
        Some(from)
    } else {
        find_from(s, pat, from + 1)
    }
}

/// `find_from` picks `q` when `pat` occurs at `q` and nowhere in `[from, q)`.
pub proof fn lemma_find_from_first(s: Seq<char>, pat: Seq<char>, from: int, q: int)
    requires
        0 <= from <= q,
        occurs_at(s, pat, q),
        forall|p: int| from <= p < q ==> !occurs_at(s, pat, p),
    ensures
        find_from(s, pat, from) == Some(q),
    decreases q - from,
{
    if from < q {
        lemma_find_from_first(s, pat, from + 1, q);
    }
}

/// `find_from` finds nothing when `pat` occurs nowhere at or after `from`.
pub proof fn lemma_find_from_none(s: Seq<char>, pat: Seq<char>, from: int)
    requires
        0 <= from,
        forall|p: int| from <= p && p + pat.len() <= s.len() ==> !occurs_at(s, pat, p),
    ensures
        find_from(s, pat, from) is None,
    decreases s.len() + 1 - from,
{
    if from + pat.len() <= s.len() {
        lemma_find_from_none(s, pat, from + 1);
    }
}

/// A found position lies in range and holds the pattern.
pub proof fn lemma_find_from_found(s: Seq<char>, pat: Seq<char>, from: int)
    requires
        find_from(s, pat, from) is Some,
    ensures
        from <= find_from(s, pat, from)->0,
        occurs_at(s, pat, find_from(s, pat, from)->0),
    decreases s.len() + 1 - from,
{
    if !occurs_at(s, pat, from) {
        lemma_find_from_found(s, pat, from + 1);
    }
}

/// The characters of `s`, in order.
pub fn chars_of(s: &str) -> (r: Vec<char>)
    ensures
        r@ == s@,
{
    broadcast use vstd::string::axiom_spec_iter;

    let mut out: Vec<char> = Vec::new();
    for c in it: s.chars()
        invariant
            out@ == it.seq().take(it.index() as int),
            it.seq() == s@,
    {
        out.push(c);
    }
    out
}

/// Whether two strings hold the same characters.
pub fn same_text(a: &str, b: &str) -> (r: bool)
    ensures
        r == (a@ == b@),
{
    a.to_owned() == b.to_owned()
}

/// Whether `pat` stands in `s` starting at character `at`.
pub fn window_eq(s: &Vec<char>, at: usize, pat: &Vec<char>) -> (r: bool)
    ensures
        r == occurs_at(s@, pat@, at as int),
{
    if pat.len() > s.len() || at > s.len() - pat.len() {
        return false;
    }
    let mut i: usize = 0;
    while i < pat.len()
        invariant
            i <= pat.len(),
            at + pat.len() <= s.len(),
            forall|j: int| 0 <= j < i ==> s@[at + j] == pat@[j],
        decreases pat.len() - i,
    {
        if s[at + i] != pat[i] {
            assert(s@.subrange(at as int, at + pat.len())[i as int] != pat@[i as int]);
            return false;
        }
        i = i + 1;
    }
    assert(s@.subrange(at as int, at + pat.len()) =~= pat@);
    true
}

/// The leftmost position at or after `from` where `pat` occurs in `line`.
///
/// The scan moves one character at a time and, once at least `pat.len()`
/// characters lie behind it, compares the window that ends at the scan position.
pub fn find_delimiter(line: &Vec<char>, from: usize, pat: &Vec<char>) -> (r: Option<usize>)
    requires
        from <= line@.len(),
    ensures
        match r {
            Some(q) => find_from(line@, pat@, from as int) == Some(q as int),
            None => find_from(line@, pat@, from as int) is None,
        },
{
    let mut end_i = from;
    loop
        invariant
            from <= end_i <= line@.len(),
            forall|q: int| from <= q && q + pat@.len() < end_i ==> !occurs_at(line@, pat@, q),
        decreases line@.len() - end_i,
    {
        if end_i - from >= pat.len() && window_eq(line, end_i - pat.len(), pat) {
            proof {
                lemma_find_from_first(line@, pat@, from as int, end_i - pat@.len());
            }
            return Some(end_i - pat.len());
        }
        if end_i == line.len() {
            proof {
                lemma_find_from_none(line@, pat@, from as int);
            }
            return None;
        }
        end_i = end_i + 1;
    }
}

} // verus!
