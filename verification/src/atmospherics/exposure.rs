//! The camera's exposure, owned by the weatherscape root: the night grade drives auto-exposure
//! on every camera the pipeline is installed on.

use vstd::prelude::*;
use crate::atmospherics::cameras::{absent_from, absent_or_all, lemma_absent_from};

verus! {

/// The cameras that take the grade's exposure this frame, remembering the cameras seen.
///
/// Only two edges write: a camera the pipeline was just installed on, and every camera when the
/// authored grade moved (`grade` is `Some(moved)` while a root carries a grade). The host strips
/// the exposure itself on its lowest quality tier, and a writer that re-inserted every frame
/// would fight it. Without a grade nothing is written and nothing is remembered.
pub fn exposure_writes(grade: Option<bool>, cameras: &[u64], seen: &mut Vec<u64>) -> (writes: Vec<u64>)
    ensures
        match grade {
            None => final(seen)@.len() == 0 && writes@.len() == 0,
            Some(moved) => final(seen)@ == cameras@ && writes@ == absent_or_all(
                cameras@,
                old(seen)@,
                moved,
            ),
        },
{
    match grade {
        None => {
            seen.clear();
            Vec::new()
        },
        Some(moved) => {
            let mut writes: Vec<u64> = Vec::new();
            let mut kept: Vec<u64> = Vec::new();
            let mut i: usize = 0;
            while i < cameras.len()
                invariant
                    i <= cameras@.len(),
                    kept@ == cameras@.take(i as int),
                    writes@ == absent_or_all(cameras@.take(i as int), seen@, moved),
                decreases cameras@.len() - i,
            {
                let camera = cameras[i];
                kept.push(camera);
                let fresh = !crate::atmospherics::cameras::contains_id(seen.as_slice(), camera);
                if fresh || moved {
                    writes.push(camera);
                }
                i = i + 1;
                assert(cameras@.take(i as int).drop_last() =~= cameras@.take(i - 1));
                assert(cameras@.take(i as int) =~= cameras@.take(i - 1).push(camera));
            }
            assert(cameras@.take(i as int) =~= cameras@);
            *seen = kept;
            writes
        },
    }
}

/// A camera list holds none of its elements absent from itself.
pub proof fn lemma_absent_from_self(s: Seq<u64>)
    ensures
        absent_from(s, s).len() == 0,
{
    lemma_absent_from(s, s);
    if absent_from(s, s).len() > 0 {
        assert(absent_from(s, s).contains(absent_from(s, s)[0]));
    }
}

/// Nothing is written twice: a second pass over the same cameras with an unmoved grade writes to
/// no camera.
pub proof fn law_unmoved_grade_writes_once(cameras: Seq<u64>)
    ensures
        absent_or_all(cameras, cameras, false).len() == 0,
{
    lemma_absent_from_self(cameras);
}

} // verus!
