//! Lists of results.

use vstd::prelude::*;

verus! {

/// The values of a list of results; the first error where there is one.
pub open spec fn all_ok<T, E>(s: Seq<Result<T, E>>) -> Result<Seq<T>, E>
    decreases s.len(),
{
    if s.len() == 0 {
        Ok(Seq::empty())
    } else {
        match all_ok(s.drop_last()) {
            Err(e) => Err(e),
            Ok(v) => match s.last() {
                Err(e) => Err(e),
                Ok(x) => Ok(v.push(x)),
            },
        }
    }
}

pub proof fn lemma_all_ok_step<T, E>(s: Seq<Result<T, E>>, k: int)
    requires
        0 <= k < s.len(),
    ensures
        all_ok(s.take(k + 1)) == match all_ok(s.take(k)) {
            Err(e) => Err(e),
            Ok(v) => match s[k] {
                Err(e) => Err(e),
                Ok(x) => Ok(v.push(x)),
            },
        },
{
    assert(s.take(k + 1).drop_last() =~= s.take(k));
}

pub proof fn lemma_all_ok_error<T, E>(s: Seq<Result<T, E>>, k: int)
    requires
        0 <= k <= s.len(),
        all_ok(s.take(k)) is Err,
    ensures
        all_ok(s) == all_ok(s.take(k)),
    decreases s.len() - k,
{
    if k < s.len() {
        lemma_all_ok_step(s, k);
        lemma_all_ok_error(s, k + 1);
    } else {
        assert(s.take(k) =~= s);
    }
}

} // verus!
