//! The pipeline's textures against a project that opens after startup: the startup request of
//! each fails, and the asset root moving reissues the failed ones.

use vstd::prelude::*;

verus! {

/// A string option as values.
pub open spec fn opt_view(o: Option<String>) -> Option<Seq<char>> {
    match o {
        Some(s) => Some(s@),
        None => None,
    }
}

/// The positions whose flag is set, in order.
pub open spec fn set_positions(flags: Seq<bool>) -> Seq<usize>
    decreases flags.len(),
{
    if flags.len() == 0 {
        seq![]
    } else {
        let rest = set_positions(flags.drop_last());
        if flags.last() {
            rest.push((flags.len() - 1) as usize)
        } else {
            rest
        }
    }
}

/// Whether the asset root moved to a known place since it was last seen.
pub open spec fn root_moved(seen: Option<Seq<char>>, current: Option<Seq<char>>) -> bool {
    current is Some && current != seen
}

/// The textures to reissue, by position, given the asset root now and whether each texture's
/// startup load failed; `seen` remembers the root the last reissue ran against.
///
/// Nothing happens while no root is known or the root has not moved since the last reissue;
/// once it moves, every failed texture is reissued.
pub fn reissue(seen: &mut Option<String>, current: Option<String>, failed: &[bool]) -> (r: Vec<usize>)
    ensures
        root_moved(opt_view(*old(seen)), opt_view(current)) ==> opt_view(*final(seen)) == opt_view(
            current,
        ) && r@ == set_positions(failed@),
        !root_moved(opt_view(*old(seen)), opt_view(current)) ==> *final(seen) == *old(seen)
            && r@.len() == 0,
{
    let same = match (&current, &*seen) {
        (Some(c), Some(s)) => c.eq(s),
        (None, None) => true,
        _ => false,
    };
    if current.is_none() || same {
        return Vec::new();
    }
    *seen = current;
    let mut r: Vec<usize> = Vec::new();
    let mut i: usize = 0;
    while i < failed.len()
        invariant
            i <= failed@.len(),
            r@ == set_positions(failed@.take(i as int)),
        decreases failed@.len() - i,
    {
        if failed[i] {
            r.push(i);
        }
        i = i + 1;
        assert(failed@.take(i as int).drop_last() =~= failed@.take(i - 1));
    }
    assert(failed@.take(i as int) =~= failed@);
    r
}

/// A root reissues once: after a reissue against a root, the same root again reissues nothing.
pub proof fn law_a_root_reissues_once(seen: Option<Seq<char>>, current: Option<Seq<char>>)
    requires
        root_moved(seen, current),
    ensures
        !root_moved(current, current),
{
}

} // verus!
