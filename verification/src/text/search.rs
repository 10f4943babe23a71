//! Finding and replacing parts of a text.

use vstd::prelude::*;

verus! {

/// `part` stands at position `at` of `s`.
pub open spec fn part_at(s: Seq<char>, at: int, part: Seq<char>) -> bool {
    &&& 0 <= at
    &&& at + part.len() <= s.len()
    &&& s.subrange(at, at + part.len()) == part
}

pub open spec fn starts_with(s: Seq<char>, part: Seq<char>) -> bool {
    part_at(s, 0, part)
}

pub open spec fn ends_with(s: Seq<char>, part: Seq<char>) -> bool {
    part_at(s, s.len() - part.len(), part)
}

/// The first position from `from` on at which `part` stands.
pub open spec fn find_part(s: Seq<char>, part: Seq<char>, from: int) -> Option<int>
    decreases s.len() - from,
{
    if from < 0 || from + part.len() > s.len() {
        None
    } else if part_at(s, from, part) {
        Some(from)
    } else if from < s.len() {
        find_part(s, part, from + 1)
    } else {
        None
    }
}

/// The first position from `from` on that holds `c`.
pub open spec fn find_char(s: Seq<char>, c: char, from: int) -> Option<int>
    decreases s.len() - from,
{
    if from < 0 || from >= s.len() {
        None
    } else if s[from] == c {
        Some(from)
    } else {
        find_char(s, c, from + 1)
    }
}

/// The last position before `to` that holds `c`.
pub open spec fn find_char_back(s: Seq<char>, c: char, to: int) -> Option<int>
    decreases to,
{
    if to <= 0 || to > s.len() {
        None
    } else if s[to - 1] == c {
        Some(to - 1)
    } else {
        find_char_back(s, c, to - 1)
    }
}

/// `s` from position `k` on, with every occurrence of `part`, taken from the
/// left without overlap, replaced by `by`.
pub open spec fn replaced_from(s: Seq<char>, part: Seq<char>, by: Seq<char>, k: int) -> Seq<char>
    decreases s.len() - k,
{
    if k < 0 || k >= s.len() {
        Seq::empty()
    } else if part.len() > 0 && part_at(s, k, part) {
        by + replaced_from(s, part, by, k + part.len())
    } else {
        seq![s[k]] + replaced_from(s, part, by, k + 1)
    }
}

/// `str::replace` with a non-empty pattern.
pub open spec fn replaced(s: Seq<char>, part: Seq<char>, by: Seq<char>) -> Seq<char> {
    replaced_from(s, part, by, 0)
}

/// Replacing a part that does not occur changes nothing.
pub proof fn lemma_replaced_absent(s: Seq<char>, part: Seq<char>, by: Seq<char>, k: int)
    requires
        0 <= k <= s.len(),
        find_part(s, part, k) is None,
    ensures
        replaced_from(s, part, by, k) == s.skip(k),
    decreases s.len() - k,
{
    if k < s.len() {
        assert(!part_at(s, k, part));
        if k + 1 + part.len() <= s.len() {
            assert(find_part(s, part, k + 1) is None);
        }
        lemma_replaced_absent(s, part, by, k + 1);
        assert(s.skip(k) =~= seq![s[k]] + s.skip(k + 1));
    } else {
        assert(s.skip(k) =~= Seq::<char>::empty());
    }
}

pub proof fn lemma_find_char(s: Seq<char>, c: char, from: int)
    requires
        0 <= from,
    ensures
        match find_char(s, c, from) {
            Some(k) => from <= k < s.len() && s[k] == c && forall|j: int|
                from <= j < k ==> s[j] != c,
            None => forall|j: int| from <= j < s.len() ==> s[j] != c,
        },
    decreases s.len() - from,
{
    if from < s.len() && s[from] != c {
        lemma_find_char(s, c, from + 1);
    }
}

/// Whether `part` stands at position `at`.
pub fn has_part_at(s: &[char], at: usize, part: &[char]) -> (r: bool)
    requires
        at <= s@.len(),
    ensures
        r == part_at(s@, at as int, part@),
{
    if part.len() > s.len() - at {
        return false;
    }
    let ghost piece = s@.subrange(at as int, at + part@.len());
    let mut i: usize = 0;
    while i < part.len()
        invariant
            i <= part@.len(),
            at + part@.len() <= s.len(),
            piece == s@.subrange(at as int, at + part@.len()),
            forall|j: int| 0 <= j < i ==> piece[j] == part@[j],
        decreases part@.len() - i,
    {
        if s[at + i] != part[i] {
            assert(piece[i as int] != part@[i as int]);
            return false;
        }
        i += 1;
    }
    assert(piece =~= part@);
    true
}

/// The first position from `from` on at which `part` stands.
pub fn position_of_part(s: &[char], part: &[char], from: usize) -> (r: Option<usize>)
    requires
        from <= s@.len(),
    ensures
        r is Some <==> find_part(s@, part@, from as int) is Some,
        r is Some ==> find_part(s@, part@, from as int) == Some(r->0 as int) && r->0 + part@.len()
            <= s@.len(),
{
    let mut k: usize = from;
    while k < s.len()
        invariant
            from <= k <= s@.len(),
            find_part(s@, part@, from as int) == find_part(s@, part@, k as int),
        decreases s@.len() - k,
    {
        if has_part_at(s, k, part) {
            return Some(k);
        }
        if part.len() > s.len() - k {
            return None;
        }
        k += 1;
    }
    if has_part_at(s, k, part) {
        Some(k)
    } else {
        None
    }
}

/// The first position from `from` on that holds `c`.
pub fn position_of_char(s: &[char], c: char, from: usize) -> (r: Option<usize>)
    requires
        from <= s@.len(),
    ensures
        r is Some <==> find_char(s@, c, from as int) is Some,
        r is Some ==> find_char(s@, c, from as int) == Some(r->0 as int) && from <= r->0
            < s@.len() && s@[r->0 as int] == c,
{
    let mut k: usize = from;
    while k < s.len()
        invariant
            from <= k <= s@.len(),
            find_char(s@, c, from as int) == find_char(s@, c, k as int),
        decreases s@.len() - k,
    {
        if s[k] == c {
            return Some(k);
        }
        k += 1;
    }
    None
}

/// The last position that holds `c`.
pub fn last_position_of_char(s: &[char], c: char) -> (r: Option<usize>)
    ensures
        r is Some <==> find_char_back(s@, c, s@.len() as int) is Some,
        r is Some ==> find_char_back(s@, c, s@.len() as int) == Some(r->0 as int) && r->0
            < s@.len() && s@[r->0 as int] == c,
{
    let mut k: usize = s.len();
    while k > 0
        invariant
            k <= s@.len(),
            find_char_back(s@, c, s@.len() as int) == find_char_back(s@, c, k as int),
        decreases k,
    {
        if s[k - 1] == c {
            return Some(k - 1);
        }
        k -= 1;
    }
    None
}

/// `str::replace` with a non-empty pattern.
pub fn replace_part(s: &[char], part: &[char], by: &[char]) -> (r: Vec<char>)
    requires
        part@.len() > 0,
    ensures
        r@ == replaced(s@, part@, by@),
{
    let mut r: Vec<char> = Vec::new();
    let mut k: usize = 0;
    while k < s.len()
        invariant
            k <= s@.len(),
            part@.len() > 0,
            r@ + replaced_from(s@, part@, by@, k as int) == replaced(s@, part@, by@),
        decreases s@.len() - k,
    {
        let ghost before = r@;
        if has_part_at(s, k, part) {
            push_all(&mut r, by);
            k += part.len();
            assert(r@ + replaced_from(s@, part@, by@, k as int) =~= before + (by@ + replaced_from(
                s@,
                part@,
                by@,
                k as int,
            )));
        } else {
            r.push(s[k]);
            k += 1;
            assert(r@ + replaced_from(s@, part@, by@, k as int) =~= before + (seq![s@[k - 1]]
                + replaced_from(s@, part@, by@, k as int)));
        }
    }
    assert(r@ =~= r@ + replaced_from(s@, part@, by@, k as int));
    r
}

/// Appends every character of `more`.
pub fn push_all(r: &mut Vec<char>, more: &[char])
    ensures
        final(r)@ == old(r)@ + more@,
{
    let ghost before = r@;
    let mut i: usize = 0;
    while i < more.len()
        invariant
            i <= more@.len(),
            r@ == before + more@.take(i as int),
        decreases more@.len() - i,
    {
        r.push(more[i]);
        i += 1;
        assert(r@ =~= before + more@.take(i as int));
    }
    assert(more@.take(more@.len() as int) =~= more@);
}

} // verus!
