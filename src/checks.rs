//! The first failure over a sequence of checked items.
use vstd::prelude::*;
use crate::model::RouteError;

verus! {

/// The error of the first item that fails its check, if any.
pub open spec fn first_error<T>(s: Seq<T>, check: spec_fn(T) -> Option<RouteError>) -> Option<RouteError>
    decreases s.len(),
{
    if s.len() == 0 {
        None
    } else if check(s[0]) is Some {
        check(s[0])
    } else {
        first_error(s.drop_first(), check)
    }
}

/// Unfolds `first_error` on the suffix that starts at `i`.
pub proof fn lemma_first_error_step<T>(s: Seq<T>, i: int, check: spec_fn(T) -> Option<RouteError>)
    requires
        0 <= i < s.len(),
    ensures
        first_error(s.subrange(i, s.len() as int), check) == if check(s[i]) is Some {
            check(s[i])
        } else {
            first_error(s.subrange(i + 1, s.len() as int), check)
        },
{
    assert(s.subrange(i, s.len() as int).drop_first() =~= s.subrange(i + 1, s.len() as int));
}

/// The suffix of a sequence from its start is the sequence itself.
pub proof fn lemma_whole_suffix<T>(s: Seq<T>)
    ensures
        s.subrange(0, s.len() as int) == s,
{
    assert(s.subrange(0, s.len() as int) =~= s);
}

/// The items of an optional list, none when it is absent.
pub open spec fn flat<T>(o: Option<Vec<T>>) -> Seq<T> {
    match o {
        Some(v) => v@,
        None => Seq::empty(),
    }
}

} // verus!
