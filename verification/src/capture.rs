//! Per-function capture lists built while lowering: each outer value a
//! function references gets one capture slot, in first-reference order.
use vstd::prelude::*;
use crate::ids::{CaptureSlot, LocalSlot};
use crate::ir::IrCaptureSource;

verus! {

broadcast use vstd::std_specs::vec::group_vec_axioms;

/// One function's capture list. `sources[i]` is where capture slot `i`
/// gets its value from in the enclosing function's frame. No source
/// occurs twice, so referencing the same outer value again reuses its
/// slot.
#[derive(Debug)]
pub struct CaptureList {
    sources: Vec<IrCaptureSource>,
}

impl CaptureList {
    /// The sources, in slot order.
    pub closed spec fn view(&self) -> Seq<IrCaptureSource> {
        self.sources@
    }

    /// Every source occurs at most once and the slot count fits in `u32`.
    pub open spec fn wf(&self) -> bool {
        &&& self@.len() <= u32::MAX
        &&& forall|i: int, j: int| 0 <= i < j < self@.len() ==> self@[i] != self@[j]
    }

    pub fn new() -> (r: Self)
        ensures
            r.wf(),
            r@ == Seq::<IrCaptureSource>::empty(),
    {
        CaptureList { sources: Vec::new() }
    }

    pub(crate) fn find(&self, source: IrCaptureSource) -> (r: Option<u32>)
        requires
            self.wf(),
        ensures
            match r {
                Some(i) => i < self@.len() && self@[i as int] == source,
                None => !self@.contains(source),
            },
    {
        let mut i: usize = 0;
        while i < self.sources.len()
            invariant
                self.wf(),
                i <= self.sources@.len(),
                forall|k: int| 0 <= k < i ==> self.sources@[k] != source,
            decreases self.sources@.len() - i,
        {
            if self.sources[i] == source {
                return Some(i as u32);
            }
            i += 1;
        }
        None
    }

    /// The slot of `source`, adding it at the end if it is new.
    fn capture(&mut self, source: IrCaptureSource) -> (slot: CaptureSlot)
        requires
            old(self).wf(),
            old(self)@.contains(source) || old(self)@.len() < u32::MAX,
        ensures
            final(self).wf(),
            (slot.0 as int) < final(self)@.len(),
            final(self)@[slot.0 as int] == source,
            slot.0 == final(self)@.index_of(source),
            old(self)@.contains(source) ==> slot.0 == old(self)@.index_of(source),
            old(self)@.contains(source) ==> final(self)@ == old(self)@,
            !old(self)@.contains(source) ==> final(self)@ == old(self)@.push(source),
    {
        if let Some(i) = self.find(source) {
            proof {
                let k = self@.index_of(source);
                assert(0 <= k < self@.len() && self@[k] == source);
            }
            return CaptureSlot(i);
        }
        let slot = CaptureSlot(self.sources.len() as u32);
        self.sources.push(source);
        proof {
            let k = self@.index_of(source);
            assert(self@[slot.0 as int] == source);
            assert(0 <= k < self@.len() && self@[k] == source);
            if k != slot.0 {
                assert(old(self)@[k] == source);
            }
        }
        slot
    }

    /// The capture slot for the enclosing function's local `outer_slot`:
    /// the one already assigned to it, or the next free one. `None` when
    /// the list already holds `u32::MAX` captures.
    pub fn capture_local(&mut self, outer_slot: LocalSlot) -> (slot: CaptureSlot)
        requires
            old(self).wf(),
            old(self)@.contains(IrCaptureSource::Local(outer_slot)) || old(self)@.len() < u32::MAX,
        ensures
            final(self).wf(),
            (slot.0 as int) < final(self)@.len(),
            final(self)@[slot.0 as int] == IrCaptureSource::Local(outer_slot),
            slot.0 == final(self)@.index_of(IrCaptureSource::Local(outer_slot)),
            old(self)@.contains(IrCaptureSource::Local(outer_slot)) ==> slot.0 == old(self)@.index_of(IrCaptureSource::Local(outer_slot)),
            old(self)@.contains(IrCaptureSource::Local(outer_slot)) ==> final(self)@ == old(self)@,
            !old(self)@.contains(IrCaptureSource::Local(outer_slot)) ==> final(self)@ == old(self)@.push(IrCaptureSource::Local(outer_slot)),
    {
        self.capture(IrCaptureSource::Local(outer_slot))
    }

    /// The capture slot for the enclosing function's capture `outer_slot`.
    pub fn capture_capture(&mut self, outer_slot: CaptureSlot) -> (slot: CaptureSlot)
        requires
            old(self).wf(),
            old(self)@.contains(IrCaptureSource::Capture(outer_slot)) || old(self)@.len() < u32::MAX,
        ensures
            final(self).wf(),
            (slot.0 as int) < final(self)@.len(),
            final(self)@[slot.0 as int] == IrCaptureSource::Capture(outer_slot),
            slot.0 == final(self)@.index_of(IrCaptureSource::Capture(outer_slot)),
            old(self)@.contains(IrCaptureSource::Capture(outer_slot)) ==> slot.0 == old(self)@.index_of(IrCaptureSource::Capture(outer_slot)),
            old(self)@.contains(IrCaptureSource::Capture(outer_slot)) ==> final(self)@ == old(self)@,
            !old(self)@.contains(IrCaptureSource::Capture(outer_slot)) ==> final(self)@ == old(self)@.push(IrCaptureSource::Capture(outer_slot)),
    {
        self.capture(IrCaptureSource::Capture(outer_slot))
    }

    pub fn len(&self) -> (r: u32)
        requires
            self.wf(),
        ensures
            r == self@.len(),
    {
        self.sources.len() as u32
    }

    pub fn is_empty(&self) -> (r: bool)
        ensures
            r == (self@.len() == 0),
    {
        self.sources.len() == 0
    }

    pub fn into_sources(self) -> (r: Vec<IrCaptureSource>)
        ensures
            r@ == self@,
    {
        self.sources
    }
}

impl Default for CaptureList {
    fn default() -> (r: Self)
        ensures
            r.wf(),
            r@ == Seq::<IrCaptureSource>::empty(),
    {
        CaptureList::new()
    }
}

/// Capturing the same outer value twice gives the same slot and leaves the
/// list as the first capture left it.
pub proof fn law_capture_is_idempotent(before: CaptureList, middle: CaptureList, after: CaptureList, source: IrCaptureSource, first: CaptureSlot, second: CaptureSlot)
    requires
        before.wf(),
        first.0 < middle@.len(),
        middle@[first.0 as int] == source,
        before@.contains(source) ==> middle@ == before@,
        !before@.contains(source) ==> middle@ == before@.push(source),
        middle.wf(),
        second.0 < after@.len(),
        after@[second.0 as int] == source,
        middle@.contains(source) ==> after@ == middle@,
    ensures
        first == second,
        after@ == middle@,
{
    assert(middle@.contains(source));
}

} // verus!
