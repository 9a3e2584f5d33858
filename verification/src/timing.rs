//! Bookkeeping of GPU timestamp queries.
//!
//! Each stage of a frame writes a timestamp into the next slot of a query set.
//! At the end of a frame the slots written so far are resolved and read back,
//! and a new frame starts with one slot in use, written when the frame starts.
use vstd::prelude::*;

verus! {

/// The number of timestamp slots a frame can use.
pub const TIMING_QUERY_COUNT: u32 = 32;

/// The stage written when a frame's timestamps are resolved.
pub const FRAME_END: &'static str = "Frame End";

/// The stage that opens every frame.
pub const FRAME_START: &'static str = "Frame Start";

/// The stages whose timestamps a frame has written so far, in slot order.
pub struct TickLog {
    ticks: Vec<&'static str>,
}

impl View for TickLog {
    type V = Seq<&'static str>;

    closed spec fn view(&self) -> Seq<&'static str> {
        self.ticks@
    }
}

/// What to resolve and read back at the end of a frame.
pub struct FrameReadback {
    /// The slot written for `FRAME_END`.
    pub frame_end_query: u32,
    /// The number of slots to resolve, from slot 0.
    pub query_count: u32,
    /// The stage of each resolved slot.
    pub stages: Vec<&'static str>,
    /// The number of bytes to read back: eight per slot.
    pub readback_len: u64,
    /// The slot written for `FRAME_START` of the next frame.
    pub frame_start_query: u32,
}

impl TickLog {
    /// A log with no stage.
    pub fn new() -> (log: TickLog)
        ensures
            log@ == Seq::<&'static str>::empty(),
    {
        TickLog { ticks: Vec::new() }
    }

    /// The number of slots written so far.
    pub fn len(&self) -> (n: usize)
        ensures
            n == self@.len(),
    {
        self.ticks.len()
    }

    /// Records `stage` and returns the slot its timestamp goes to: the next free one.
    pub fn tick(&mut self, stage: &'static str) -> (slot: u32)
        requires
            old(self)@.len() < TIMING_QUERY_COUNT,
        ensures
            slot == old(self)@.len(),
            final(self)@ == old(self)@.push(stage),
    {
        let slot = self.ticks.len() as u32;
        self.ticks.push(stage);
        slot
    }

    /// Ends the frame: records `FRAME_END`, hands out every recorded stage for
    /// read-back, and starts the next frame with `FRAME_START` in slot 0.
    pub fn end_frame(&mut self) -> (r: FrameReadback)
        requires
            old(self)@.len() < TIMING_QUERY_COUNT,
        ensures
            r.frame_end_query == old(self)@.len(),
            r.stages@ == old(self)@.push(FRAME_END),
            r.query_count == r.stages@.len(),
            r.readback_len == 8 * r.stages@.len(),
            r.frame_start_query == 0,
            final(self)@ == seq![FRAME_START],
    {
        let frame_end_query = self.tick(FRAME_END);
        let mut stages: Vec<&'static str> = Vec::new();
        std::mem::swap(&mut stages, &mut self.ticks);
        let query_count = stages.len() as u32;
        let readback_len = stages.len() as u64 * 8;
        let frame_start_query = self.tick(FRAME_START);
        FrameReadback { frame_end_query, query_count, stages, readback_len, frame_start_query }
    }
}

/// How long after the frame's first timestamp each later stage was written.
pub fn stage_times(stages: &Vec<&'static str>, timestamps: &[u64]) -> (r: Vec<(&'static str, u64)>)
    requires
        timestamps@.len() >= stages@.len(),
        forall|n: int| 1 <= n < stages@.len() ==> timestamps@[0] <= #[trigger] timestamps@[n],
    ensures
        r@.len() == if stages@.len() == 0 {
            0
        } else {
            stages@.len() - 1
        },
        forall|i: int|
            0 <= i < r@.len() ==> #[trigger] r@[i] == (stages@[i + 1], (timestamps@[i + 1]
                - timestamps@[0]) as u64),
{
    let mut r: Vec<(&'static str, u64)> = Vec::new();
    let mut n: usize = 1;
    while n < stages.len()
        invariant
            1 <= n,
            n <= stages@.len() || (stages@.len() == 0 && n == 1),
            timestamps@.len() >= stages@.len(),
            forall|k: int| 1 <= k < stages@.len() ==> timestamps@[0] <= #[trigger] timestamps@[k],
            r@.len() == n - 1,
            forall|i: int|
                0 <= i < r@.len() ==> #[trigger] r@[i] == (stages@[i + 1], (timestamps@[i + 1]
                    - timestamps@[0]) as u64),
        decreases stages@.len() - n,
    {
        assert(timestamps@[0] <= timestamps@[n as int]);
        r.push((stages[n], timestamps[n] - timestamps[0]));
        n = n + 1;
    }
    r
}

/// After any frame end, the log holds exactly the opening stage of the next
/// frame, and the stages handed out are those of the frame, closed by `FRAME_END`.
pub proof fn lemma_frames_restart(before: Seq<&'static str>, after: Seq<&'static str>, stages: Seq<&'static str>)
    requires
        after == seq![FRAME_START],
        stages == before.push(FRAME_END),
    ensures
        after.len() == 1,
        after[0] == FRAME_START,
        stages.last() == FRAME_END,
        stages.drop_last() == before,
{
    assert(stages.drop_last() =~= before);
}

} // verus!
