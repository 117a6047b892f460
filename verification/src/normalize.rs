//! Alignment of one track to a reference instant of another.

use crate::ast::{block_views, Block, BlockView};
use crate::error::Error;
use crate::time::{elapsed, moved, Time, TimeView};
use vstd::prelude::*;

verus! {

/// `b` with both its times moved by `delta` nanoseconds.
pub open spec fn shift_block(b: BlockView, delta: int) -> BlockView {
    BlockView { start: moved(b.start, delta).0, end: moved(b.end, delta).0, content: b.content }
}

/// Whether both times of `b`, moved by `delta` nanoseconds, stay in the day.
pub open spec fn stays_in_day(b: BlockView, delta: int) -> bool {
    moved(b.start, delta).1 == 0 && moved(b.end, delta).1 == 0
}

/// Whether every time of `blocks`, moved by `delta` nanoseconds, stays in
/// the day.
pub open spec fn all_stay_in_day(blocks: Seq<BlockView>, delta: int) -> bool {
    forall|i: int| 0 <= i < blocks.len() ==> stays_in_day(#[trigger] blocks[i], delta)
}

/// Every block of `blocks` moved by `delta` nanoseconds.
pub open spec fn shift_all(blocks: Seq<BlockView>, delta: int) -> Seq<BlockView> {
    Seq::new(blocks.len(), |i: int| shift_block(blocks[i], delta))
}

/// The offset that brings the first block of `blocks` to `reference`.
pub open spec fn offset_to(reference: TimeView, blocks: Seq<BlockView>) -> int
    recommends
        blocks.len() > 0,
{
    elapsed(reference, blocks[0].start)
}

/// The track `blocks` with its first start brought to `reference` and every
/// other time moved by as much. An empty track stays as it is; a time that
/// would leave the day is an error.
pub open spec fn spec_normalize(reference: TimeView, blocks: Seq<BlockView>) -> Result<
    Seq<BlockView>,
    Error,
> {
    if blocks.len() == 0 {
        Ok(blocks)
    } else if all_stay_in_day(blocks, offset_to(reference, blocks)) {
        Ok(shift_all(blocks, offset_to(reference, blocks)))
    } else {
        Err(Error::TimeOutOfRange)
    }
}

/// Moves every time of `blocks` by the offset from its first start to
/// `real_start`. On an error `blocks` is left as it was.
pub fn normalize(real_start: Time, blocks: &mut Vec<Block>) -> (out: Result<(), Error>)
    ensures
        match spec_normalize(real_start@, block_views(old(blocks)@)) {
            Ok(shifted) => out is Ok && block_views(final(blocks)@) == shifted,
            Err(e) => out == Err::<(), Error>(e) && final(blocks)@ == old(blocks)@,
        },
{
    if blocks.len() == 0 {
        return Ok(());
    }
    let delta = real_start.since(&blocks[0].start);
    let ghost before = block_views(blocks@);
    let mut i: usize = 0;
    while i < blocks.len()
        invariant
            i <= blocks.len(),
            blocks@ == old(blocks)@,
            before == block_views(blocks@),
            before.len() > 0,
            delta == offset_to(real_start@, before),
            forall|k: int| 0 <= k < i ==> stays_in_day(#[trigger] before[k], delta as int),
        decreases blocks.len() - i,
    {
        if blocks[i].start.shifted(delta).is_none() || blocks[i].end.shifted(delta).is_none() {
            assert(!stays_in_day(before[i as int], delta as int));
            return Err(Error::TimeOutOfRange);
        }
        i += 1;
    }
    let mut i: usize = 0;
    while i < blocks.len()
        invariant
            i <= blocks.len(),
            blocks.len() == before.len(),
            all_stay_in_day(before, delta as int),
            forall|k: int|
                0 <= k < i ==> (#[trigger] blocks@[k])@ == shift_block(before[k], delta as int),
            forall|k: int| i <= k < blocks.len() ==> (#[trigger] blocks@[k])@ == before[k],
        decreases blocks.len() - i,
    {
        assert(stays_in_day(before[i as int], delta as int));
        let ghost prior = blocks@;
        let start = blocks[i].start.shifted(delta);
        let end = blocks[i].end.shifted(delta);
        match (start, end) {
            (Some(start), Some(end)) => {
                blocks[i].start = start;
                blocks[i].end = end;
            },
            _ => {
                assert(false);
            },
        }
        assert(blocks@.len() == prior.len());
        assert(forall|k: int| 0 <= k < prior.len() && k != i ==> blocks@[k] == prior[k]);
        assert(blocks@[i as int].content == prior[i as int].content);
        i += 1;
    }
    assert(block_views(blocks@) =~= shift_all(before, delta as int));
    Ok(())
}

/// Whether no time of `blocks` lies in a leap second.
pub open spec fn plain_times(blocks: Seq<BlockView>) -> bool {
    forall|i: int|
        0 <= i < blocks.len() ==> {
            &&& (#[trigger] blocks[i]).start.wf()
            &&& blocks[i].end.wf()
            &&& !blocks[i].start.is_leap_second()
            &&& !blocks[i].end.is_leap_second()
        }
}

/// A time outside a leap second stays in the day when moved just where
/// its nanoseconds since midnight and the offset add up to a time of the
/// same day.
pub proof fn lemma_stays_in_day(t: TimeView, delta: int)
    requires
        t.wf(),
        !t.is_leap_second(),
    ensures
        (moved(t, delta).1 == 0) == (0 <= t.total_nanos() + delta < 86_400 * 1_000_000_000),
{
}

/// A time outside a leap second that stays in the day when moved lands
/// exactly `delta` nanoseconds later.
pub proof fn lemma_moved_in_day(t: TimeView, delta: int)
    requires
        t.wf(),
        !t.is_leap_second(),
        moved(t, delta).1 == 0,
    ensures
        moved(t, delta).0.wf(),
        !moved(t, delta).0.is_leap_second(),
        moved(t, delta).0.total_nanos() == t.total_nanos() + delta,
{
}

/// After a track whose times lie outside leap seconds has been normalized
/// to such a reference, its first block starts at the reference, and every
/// block lasts as long as it did before.
pub proof fn lemma_normalize_aligns(reference: TimeView, blocks: Seq<BlockView>)
    requires
        reference.wf(),
        !reference.is_leap_second(),
        plain_times(blocks),
        blocks.len() > 0,
        spec_normalize(reference, blocks) is Ok,
    ensures
        spec_normalize(reference, blocks)->Ok_0.len() == blocks.len(),
        spec_normalize(reference, blocks)->Ok_0[0].start == reference,
        forall|i: int|
            0 <= i < blocks.len() ==> elapsed(
                (#[trigger] spec_normalize(reference, blocks)->Ok_0[i]).end,
                spec_normalize(reference, blocks)->Ok_0[i].start,
            ) == elapsed(blocks[i].end, blocks[i].start),
{
    let delta = offset_to(reference, blocks);
    let out = spec_normalize(reference, blocks)->Ok_0;
    assert(out == shift_all(blocks, delta));
    assert forall|i: int| 0 <= i < blocks.len() implies elapsed(
        (#[trigger] out[i]).end,
        out[i].start,
    ) == elapsed(blocks[i].end, blocks[i].start) by {
        assert(stays_in_day(blocks[i], delta));
        lemma_moved_in_day(blocks[i].start, delta);
        lemma_moved_in_day(blocks[i].end, delta);
    }
    assert(stays_in_day(blocks[0], delta));
    lemma_moved_in_day(blocks[0].start, delta);
    assert(out[0].start.total_nanos() == reference.total_nanos());
    assert(out[0].start.secs == reference.secs && out[0].start.nanos == reference.nanos);
}

} // verus!
