//! Logs that grow.
use vstd::prelude::*;

verus! {

/// What a log gained, in two parts.
pub(crate) proof fn lemma_then<A>(start: Seq<A>, mid: Seq<A>, end: Seq<A>)
    requires
        start.is_prefix_of(mid),
        mid.is_prefix_of(end),
    ensures
        start.is_prefix_of(end),
        end.skip(start.len() as int).skip(mid.len() - start.len()) == end.skip(mid.len() as int),
        end.skip(start.len() as int).take(mid.len() - start.len()) == mid.skip(start.len() as int),
        forall|i: int|
            0 <= i < mid.len() - start.len() ==> #[trigger] end.skip(start.len() as int)[i]
                == mid.skip(start.len() as int)[i],
{
    assert(end.subrange(0, start.len() as int) =~= mid.subrange(0, start.len() as int));
    assert(end.skip(start.len() as int).skip(mid.len() - start.len()) =~= end.skip(
        mid.len() as int,
    ));
    assert(end.skip(start.len() as int).take(mid.len() - start.len()) =~= mid.skip(
        start.len() as int,
    ));
}

} // verus!
