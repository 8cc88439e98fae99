//! What a decode thread does next.
//!
//! A decode thread skips frames until the two cameras are in step, and then fills
//! the slots of a buffer that the renderer hands back one by one. The thread does
//! the work and reports what came of it; this module says what comes next.

use crate::binary::double::Double;
use crate::vulkan::GpuPixelFormat;
use vstd::prelude::*;

verus! {

/// How many frames each camera skips: `(left, right)`.
pub open spec fn skips(sync_offset: i64) -> (int, int) {
    if sync_offset > 0 {
        (0, sync_offset as int)
    } else {
        (-sync_offset, 0)
    }
}

/// How many frames each camera skips so that both are in step: a positive offset
/// skips frames of the right camera, a negative one of the left.
pub fn skip_counts(sync_offset: i64) -> (r: (u64, u64))
    ensures
        r.0 == skips(sync_offset).0,
        r.1 == skips(sync_offset).1,
{
    if sync_offset > 0 {
        (0, sync_offset as u64)
    } else if sync_offset == i64::MIN {
        (0x8000_0000_0000_0000, 0)
    } else {
        ((-sync_offset) as u64, 0)
    }
}

/// One camera at most skips frames, and what it skips is the offset.
pub proof fn law_skips_make_up_the_offset(sync_offset: i64)
    ensures
        skips(sync_offset).0 == 0 || skips(sync_offset).1 == 0,
        skips(sync_offset).0 >= 0 && skips(sync_offset).1 >= 0,
        skips(sync_offset).1 - skips(sync_offset).0 == sync_offset,
{
}

/// The buffer of a camera: two slots of two planes, with a semaphore each.
#[derive(Clone, Copy, Debug, PartialEq, Eq)]
pub struct GpuBufInfo {
    pub y_ptr: [u64; 2],
    pub y_pitch: [usize; 2],
    pub uv_ptr: [u64; 2],
    pub uv_pitch: [usize; 2],
    pub sem_cuda: [u64; 2],
    pub width: u32,
    pub height: u32,
    pub pixel_format: GpuPixelFormat,
}

/// A decoded frame in device memory.
#[derive(Clone, Copy, Debug, PartialEq, Eq, Structural)]
pub struct DecodedFrame {
    pub y_ptr: u64,
    pub y_pitch: usize,
    pub uv_ptr: u64,
    pub uv_pitch: usize,
}

/// The copy of one plane.
#[derive(Clone, Copy, Debug, PartialEq, Eq, Structural)]
pub struct PlaneCopy {
    pub target: u64,
    pub target_pitch: usize,
    pub source: u64,
    pub source_pitch: usize,
    pub width_bytes: usize,
    pub rows: usize,
}

impl GpuPixelFormat {
    /// Bytes of one sample.
    pub open spec fn sample_bytes(self) -> int {
        match self {
            GpuPixelFormat::Nv12 => 1,
            GpuPixelFormat::P010 => 2,
        }
    }

    /// Bytes of one sample.
    pub fn bytes_per_sample(self) -> (r: usize)
        ensures
            r == self.sample_bytes(),
            1 <= r <= 2,
    {
        match self {
            GpuPixelFormat::Nv12 => 1,
            GpuPixelFormat::P010 => 2,
        }
    }
}

impl GpuBufInfo {
    /// The bytes of a row can be counted.
    pub open spec fn addressable(self) -> bool {
        self.width * self.pixel_format.sample_bytes() <= usize::MAX
    }

    /// The copy of the luma plane into a slot.
    pub open spec fn luma(self, slot: int, frame: DecodedFrame) -> PlaneCopy {
        PlaneCopy {
            target: self.y_ptr@[slot],
            target_pitch: self.y_pitch@[slot],
            source: frame.y_ptr,
            source_pitch: frame.y_pitch,
            width_bytes: (self.width * self.pixel_format.sample_bytes()) as usize,
            rows: self.height as usize,
        }
    }

    /// The copy of the chroma plane into a slot: rows of the same length, as there
    /// are half as many samples of two parts, and half as many of them.
    pub open spec fn chroma(self, slot: int, frame: DecodedFrame) -> PlaneCopy {
        PlaneCopy {
            target: self.uv_ptr@[slot],
            target_pitch: self.uv_pitch@[slot],
            source: frame.uv_ptr,
            source_pitch: frame.uv_pitch,
            width_bytes: (self.width * self.pixel_format.sample_bytes()) as usize,
            rows: (self.height as usize / 2) as usize,
        }
    }

    fn row_bytes(&self) -> (r: usize)
        requires
            self.addressable(),
        ensures
            r == self.width * self.pixel_format.sample_bytes(),
    {
        self.width as usize * self.pixel_format.bytes_per_sample()
    }

    /// The copy of the luma plane into a slot.
    pub fn luma_copy(&self, slot: u8, frame: DecodedFrame) -> (r: PlaneCopy)
        requires
            slot < 2,
            self.addressable(),
        ensures
            r == self.luma(slot as int, frame),
    {
        let s = slot as usize;
        PlaneCopy {
            target: self.y_ptr[s],
            target_pitch: self.y_pitch[s],
            source: frame.y_ptr,
            source_pitch: frame.y_pitch,
            width_bytes: self.row_bytes(),
            rows: self.height as usize,
        }
    }

    /// The copy of the chroma plane into a slot.
    pub fn chroma_copy(&self, slot: u8, frame: DecodedFrame) -> (r: PlaneCopy)
        requires
            slot < 2,
            self.addressable(),
        ensures
            r == self.chroma(slot as int, frame),
    {
        let s = slot as usize;
        PlaneCopy {
            target: self.uv_ptr[s],
            target_pitch: self.uv_pitch[s],
            source: frame.uv_ptr,
            source_pitch: frame.uv_pitch,
            width_bytes: self.row_bytes(),
            rows: self.height as usize / 2,
        }
    }

    /// The semaphore that tells that a slot is filled.
    pub fn ready_semaphore(&self, slot: u8) -> (r: u64)
        requires
            slot < 2,
        ensures
            r == self.sem_cuda@[slot as int],
    {
        self.sem_cuda[slot as usize]
    }
}

/// What a decode thread is to do.
#[derive(Clone, Copy, Debug, PartialEq, Eq, Structural)]
pub enum DecodePhase {
    /// Open the video.
    Open,
    /// Decode a frame and drop it.
    Skip { done: u64 },
    /// Find out whether to stop.
    ReadShutdown,
    /// Wait for a slot that is free, for a while.
    AwaitSlot,
    /// Decode a frame.
    Decode { slot: u8 },
    /// Make the device's context current.
    EnsureContext { slot: u8, frame: DecodedFrame },
    /// Copy the luma plane.
    CopyLuma { slot: u8, frame: DecodedFrame },
    /// Copy the chroma plane.
    CopyChroma { slot: u8, frame: DecodedFrame },
    /// Wait until the device has done both copies.
    Synchronize { slot: u8 },
    /// Signal the slot's semaphore.
    Signal { slot: u8 },
    /// Look at what was copied. Nothing depends on it.
    Inspect { slot: u8 },
    /// Hand the slot on.
    Send { slot: u8 },
    /// End.
    End,
}

/// What came of it.
#[derive(Clone, Copy, Debug, PartialEq, Eq, Structural)]
pub enum DecodeEvent {
    /// It worked.
    Done,
    /// It did not work.
    Failed,
    /// There was nothing: no frame left, no slot in time.
    Nothing,
    /// The thread is to stop.
    Stop,
    /// There is a free slot.
    Slot { slot: u8 },
    /// There is a frame.
    Frame { frame: DecodedFrame },
}

/// A decode thread.
#[derive(Clone, Copy, Debug, PartialEq, Eq, Structural)]
pub struct DecodeThread {
    pub skip_frames: u64,
    /// Frames handed on.
    pub frame_count: u64,
    /// Whether the first frame is looked at.
    pub inspects: bool,
    pub phase: DecodePhase,
}

impl DecodeThread {
    /// A thread that has to skip so many frames.
    pub fn new(skip_frames: u64, inspects: bool) -> (r: DecodeThread)
        ensures
            r == (DecodeThread { skip_frames, frame_count: 0, inspects, phase: DecodePhase::Open }),
    {
        DecodeThread { skip_frames, frame_count: 0, inspects, phase: DecodePhase::Open }
    }

    /// The event answers the phase: slots are numbered 0 and 1.
    pub open spec fn answers(self, event: DecodeEvent) -> bool {
        match event {
            DecodeEvent::Slot { slot } => self.phase == DecodePhase::AwaitSlot && slot < 2,
            DecodeEvent::Frame { .. } => self.phase is Decode,
            _ => true,
        }
    }

    /// What comes after so many skipped frames.
    pub open spec fn after_skips(self, done: u64) -> DecodePhase {
        if done < self.skip_frames {
            DecodePhase::Skip { done }
        } else {
            DecodePhase::ReadShutdown
        }
    }

    /// What the thread does next.
    pub open spec fn next_phase(self, event: DecodeEvent) -> DecodePhase {
        match (self.phase, event) {
            (DecodePhase::Open, DecodeEvent::Done) => self.after_skips(0),
            (DecodePhase::Skip { done }, DecodeEvent::Done) => self.after_skips((done + 1) as u64),
            (DecodePhase::ReadShutdown, DecodeEvent::Done) => DecodePhase::AwaitSlot,
            (DecodePhase::AwaitSlot, DecodeEvent::Nothing) => DecodePhase::ReadShutdown,
            (DecodePhase::AwaitSlot, DecodeEvent::Slot { slot }) => DecodePhase::Decode { slot },
            (DecodePhase::Decode { slot }, DecodeEvent::Frame { frame }) =>
                DecodePhase::EnsureContext { slot, frame },
            (DecodePhase::EnsureContext { slot, frame }, DecodeEvent::Done) =>
                DecodePhase::CopyLuma { slot, frame },
            (DecodePhase::CopyLuma { slot, frame }, DecodeEvent::Done) => DecodePhase::CopyChroma {
                slot,
                frame,
            },
            (DecodePhase::CopyChroma { slot, .. }, DecodeEvent::Done) => DecodePhase::Synchronize {
                slot,
            },
            (DecodePhase::Synchronize { slot }, DecodeEvent::Done) => DecodePhase::Signal { slot },
            (DecodePhase::Signal { slot }, DecodeEvent::Done) => if self.inspects
                && self.frame_count == 0 {
                DecodePhase::Inspect { slot }
            } else {
                DecodePhase::Send { slot }
            },
            (DecodePhase::Inspect { slot }, _) => DecodePhase::Send { slot },
            (DecodePhase::Send { .. }, DecodeEvent::Done) => DecodePhase::ReadShutdown,
            _ => DecodePhase::End,
        }
    }

    /// The thread after an event. A frame counts once it is about to be handed on.
    pub open spec fn stepped(self, event: DecodeEvent) -> DecodeThread {
        let phase = self.next_phase(event);
        DecodeThread {
            frame_count: if phase is Send {
                (self.frame_count + 1) as u64
            } else {
                self.frame_count
            },
            phase,
            ..self
        }
    }

    /// No more frames are skipped than have to be.
    pub open spec fn well_formed(self) -> bool {
        self.phase matches DecodePhase::Skip { done } ==> done < self.skip_frames
    }

    /// Takes in what came of the last step.
    pub fn step(&mut self, event: DecodeEvent)
        requires
            old(self).well_formed(),
            old(self).answers(event),
            old(self).frame_count < u64::MAX,
        ensures
            *final(self) == old(self).stepped(event),
            final(self).well_formed(),
    {
        let phase = match (self.phase, event) {
            (DecodePhase::Open, DecodeEvent::Done) => self.phase_after_skips(0),
            (DecodePhase::Skip { done }, DecodeEvent::Done) => self.phase_after_skips(done + 1),
            (DecodePhase::ReadShutdown, DecodeEvent::Done) => DecodePhase::AwaitSlot,
            (DecodePhase::AwaitSlot, DecodeEvent::Nothing) => DecodePhase::ReadShutdown,
            (DecodePhase::AwaitSlot, DecodeEvent::Slot { slot }) => DecodePhase::Decode { slot },
            (DecodePhase::Decode { slot }, DecodeEvent::Frame { frame }) =>
                DecodePhase::EnsureContext { slot, frame },
            (DecodePhase::EnsureContext { slot, frame }, DecodeEvent::Done) =>
                DecodePhase::CopyLuma { slot, frame },
            (DecodePhase::CopyLuma { slot, frame }, DecodeEvent::Done) => DecodePhase::CopyChroma {
                slot,
                frame,
            },
            (DecodePhase::CopyChroma { slot, .. }, DecodeEvent::Done) => DecodePhase::Synchronize {
                slot,
            },
            (DecodePhase::Synchronize { slot }, DecodeEvent::Done) => DecodePhase::Signal { slot },
            (DecodePhase::Signal { slot }, DecodeEvent::Done) => if self.inspects
                && self.frame_count == 0 {
                DecodePhase::Inspect { slot }
            } else {
                DecodePhase::Send { slot }
            },
            (DecodePhase::Inspect { slot }, _) => DecodePhase::Send { slot },
            (DecodePhase::Send { .. }, DecodeEvent::Done) => DecodePhase::ReadShutdown,
            _ => DecodePhase::End,
        };
        if let DecodePhase::Send { .. } = phase {
            self.frame_count = self.frame_count + 1;
        }
        self.phase = phase;
    }

    fn phase_after_skips(&self, done: u64) -> (r: DecodePhase)
        ensures
            r == self.after_skips(done),
    {
        if done < self.skip_frames {
            DecodePhase::Skip { done }
        } else {
            DecodePhase::ReadShutdown
        }
    }
}

/// The thread after a run of events.
pub open spec fn after_events(thread: DecodeThread, events: Seq<DecodeEvent>) -> DecodeThread
    decreases events.len(),
{
    if events.len() == 0 {
        thread
    } else {
        after_events(thread, events.drop_last()).stepped(events.last())
    }
}

/// How many frames were skipped in a run of events.
pub open spec fn frames_skipped(thread: DecodeThread, events: Seq<DecodeEvent>) -> nat
    decreases events.len(),
{
    if events.len() == 0 {
        0
    } else {
        let before = after_events(thread, events.drop_last());
        frames_skipped(thread, events.drop_last()) + if before.phase is Skip && events.last()
            == DecodeEvent::Done {
            1nat
        } else {
            0
        }
    }
}

/// A thread that waits for slots, or has gone beyond, has skipped exactly the frames
/// that it had to, whatever happened on the way.
pub proof fn law_all_frames_are_skipped_first(
    skip_frames: u64,
    inspects: bool,
    events: Seq<DecodeEvent>,
)
    ensures
        ({
            let start = DecodeThread {
                skip_frames,
                frame_count: 0,
                inspects,
                phase: DecodePhase::Open,
            };
            let now = after_events(start, events);
            &&& now.skip_frames == skip_frames
            &&& match now.phase {
                DecodePhase::Open => frames_skipped(start, events) == 0,
                DecodePhase::Skip { done } => frames_skipped(start, events) == done && done
                    < skip_frames,
                DecodePhase::End => frames_skipped(start, events) <= skip_frames,
                _ => frames_skipped(start, events) == skip_frames,
            }
        }),
    decreases events.len(),
{
    if events.len() > 0 {
        law_all_frames_are_skipped_first(skip_frames, inspects, events.drop_last());
    }
}

/// A slot is handed on only after a frame was decoded for it, both planes of that
/// frame were copied, the device has done both copies and the slot's semaphore was
/// signalled, one after the other, each with success.
pub proof fn law_slot_is_handed_on_last(thread: DecodeThread, event: DecodeEvent)
    ensures
        ({
            let done = event == DecodeEvent::Done;
            match thread.stepped(event).phase {
                DecodePhase::Send { slot } => (thread.phase == DecodePhase::Signal { slot } && done)
                    || thread.phase == (DecodePhase::Inspect { slot }),
                DecodePhase::Inspect { slot } => thread.phase == (DecodePhase::Signal { slot })
                    && done,
                DecodePhase::Signal { slot } => thread.phase == (DecodePhase::Synchronize { slot })
                    && done,
                DecodePhase::Synchronize { slot } => done && thread.phase is CopyChroma
                    && thread.phase->CopyChroma_slot == slot,
                DecodePhase::CopyChroma { slot, frame } => thread.phase == (DecodePhase::CopyLuma {
                    slot,
                    frame,
                }) && done,
                DecodePhase::CopyLuma { slot, frame } => thread.phase == (
                DecodePhase::EnsureContext { slot, frame }) && done,
                DecodePhase::EnsureContext { slot, frame } => thread.phase == (
                DecodePhase::Decode { slot }) && event == (DecodeEvent::Frame { frame }),
                DecodePhase::Decode { slot } => thread.phase == DecodePhase::AwaitSlot && event == (
                DecodeEvent::Slot { slot }),
                _ => true,
            }
        }),
{
}

/// The slots that were taken in a run of events, in order.
pub open spec fn slots_taken(thread: DecodeThread, events: Seq<DecodeEvent>) -> Seq<u8>
    decreases events.len(),
{
    if events.len() == 0 {
        seq![]
    } else {
        let before = after_events(thread, events.drop_last());
        let taken = slots_taken(thread, events.drop_last());
        match (before.phase, events.last()) {
            (DecodePhase::AwaitSlot, DecodeEvent::Slot { slot }) => taken.push(slot),
            _ => taken,
        }
    }
}

/// The slots that were handed on in a run of events, in order.
pub open spec fn slots_handed_on(thread: DecodeThread, events: Seq<DecodeEvent>) -> Seq<u8>
    decreases events.len(),
{
    if events.len() == 0 {
        seq![]
    } else {
        let before = after_events(thread, events.drop_last());
        let handed_on = slots_handed_on(thread, events.drop_last());
        match (before.phase, events.last()) {
            (DecodePhase::Send { slot }, DecodeEvent::Done) => handed_on.push(slot),
            _ => handed_on,
        }
    }
}

impl DecodePhase {
    /// The slot that is being filled.
    pub open spec fn slot(self) -> Option<u8> {
        match self {
            DecodePhase::Decode { slot } => Some(slot),
            DecodePhase::EnsureContext { slot, .. } => Some(slot),
            DecodePhase::CopyLuma { slot, .. } => Some(slot),
            DecodePhase::CopyChroma { slot, .. } => Some(slot),
            DecodePhase::Synchronize { slot } => Some(slot),
            DecodePhase::Signal { slot } => Some(slot),
            DecodePhase::Inspect { slot } => Some(slot),
            DecodePhase::Send { slot } => Some(slot),
            _ => None,
        }
    }
}

/// The slots that were handed on are the first of those that were taken, in the same
/// order, whatever happened. While a slot is being filled it is the only one that was
/// taken and not handed on; while none is, and the thread has not ended, there is no
/// such slot; and a thread that has ended keeps at most one.
pub proof fn law_slots_are_handed_on_in_order(
    thread: DecodeThread,
    events: Seq<DecodeEvent>,
)
    requires
        thread.phase == DecodePhase::Open,
    ensures
        ({
            let taken = slots_taken(thread, events);
            let handed_on = slots_handed_on(thread, events);
            let phase = after_events(thread, events).phase;
            &&& handed_on.is_prefix_of(taken)
            &&& taken.len() <= handed_on.len() + 1
            &&& phase.slot() matches Some(slot) ==> taken == handed_on.push(slot)
            &&& phase.slot() is None && phase != DecodePhase::End ==> taken == handed_on
        }),
    decreases events.len(),
{
    if events.len() > 0 {
        let init = events.drop_last();
        law_slots_are_handed_on_in_order(thread, init);
        let before = after_events(thread, init).phase;
        if let Some(slot) = before.slot() {
            assert(slots_handed_on(thread, init).push(slot) == slots_taken(thread, init));
        }
    }
}

/// A failure ends the thread wherever it happens, but for a mere look at the first
/// frame; a thread that has ended stays so.
pub proof fn law_failure_ends_the_thread(thread: DecodeThread, event: DecodeEvent)
    ensures
        event == DecodeEvent::Failed && !(thread.phase is Inspect) ==> thread.stepped(event).phase
            == DecodePhase::End,
        event == DecodeEvent::Stop && !(thread.phase is Inspect) ==> thread.stepped(event).phase
            == DecodePhase::End,
        thread.phase == DecodePhase::End ==> thread.stepped(event) == thread,
{
}

/// What a pairing thread is to do.
#[derive(Clone, Copy, Debug, PartialEq, Eq, Structural)]
pub enum PairPhase {
    /// Take a frame of the left camera and drop it.
    SkipLeft { left: u64 },
    /// Take a frame of the right camera and drop it.
    SkipRight { left: u64 },
    /// Take a frame of either camera.
    TakeBoth,
    /// Hand the pair on.
    Send,
    /// End.
    End,
}

impl PairPhase {
    /// The start: the frames of one camera that have to be skipped, and then pairs.
    pub open spec fn start(sync_offset: i64) -> PairPhase {
        let (left, right) = skips(sync_offset);
        if right > 0 {
            PairPhase::SkipRight { left: right as u64 }
        } else if left > 0 {
            PairPhase::SkipLeft { left: left as u64 }
        } else {
            PairPhase::TakeBoth
        }
    }

    /// What comes next; a step that fails ends the thread.
    pub open spec fn stepped(self, worked: bool) -> PairPhase {
        if !worked {
            PairPhase::End
        } else {
            match self {
                PairPhase::SkipLeft { left } => if left > 1 {
                    PairPhase::SkipLeft { left: (left - 1) as u64 }
                } else {
                    PairPhase::TakeBoth
                },
                PairPhase::SkipRight { left } => if left > 1 {
                    PairPhase::SkipRight { left: (left - 1) as u64 }
                } else {
                    PairPhase::TakeBoth
                },
                PairPhase::TakeBoth => PairPhase::Send,
                PairPhase::Send => PairPhase::TakeBoth,
                PairPhase::End => PairPhase::End,
            }
        }
    }

    /// Starts a pairing thread that skips frames itself.
    pub fn new(sync_offset: i64) -> (r: PairPhase)
        ensures
            r == PairPhase::start(sync_offset),
    {
        let (left, right) = skip_counts(sync_offset);
        if right > 0 {
            PairPhase::SkipRight { left: right }
        } else if left > 0 {
            PairPhase::SkipLeft { left }
        } else {
            PairPhase::TakeBoth
        }
    }

    /// Takes in whether the last step worked.
    pub fn step(&mut self, worked: bool)
        ensures
            *final(self) == old(self).stepped(worked),
    {
        if !worked {
            *self = PairPhase::End;
            return;
        }
        *self =
        match *self {
            PairPhase::SkipLeft { left } => if left > 1 {
                PairPhase::SkipLeft { left: left - 1 }
            } else {
                PairPhase::TakeBoth
            },
            PairPhase::SkipRight { left } => if left > 1 {
                PairPhase::SkipRight { left: left - 1 }
            } else {
                PairPhase::TakeBoth
            },
            PairPhase::TakeBoth => PairPhase::Send,
            PairPhase::Send => PairPhase::TakeBoth,
            PairPhase::End => PairPhase::End,
        };
    }
}

/// The phase after so many steps that worked.
pub open spec fn after_steps(phase: PairPhase, n: nat) -> PairPhase
    decreases n,
{
    if n == 0 {
        phase
    } else {
        after_steps(phase, (n - 1) as nat).stepped(true)
    }
}

/// A pairing thread takes the first pair after it has skipped as many frames as the
/// offset says, all of one camera.
pub proof fn law_pairing_skips_the_offset(sync_offset: i64, n: nat)
    requires
        n <= skips(sync_offset).0 + skips(sync_offset).1,
    ensures
        ({
            let now = after_steps(PairPhase::start(sync_offset), n);
            let all = skips(sync_offset).0 + skips(sync_offset).1;
            if n == all {
                now == PairPhase::TakeBoth
            } else if sync_offset > 0 {
                now == (PairPhase::SkipRight { left: (all - n) as u64 })
            } else {
                now == (PairPhase::SkipLeft { left: (all - n) as u64 })
            }
        }),
    decreases n,
{
    if n > 0 {
        law_pairing_skips_the_offset(sync_offset, (n - 1) as nat);
    }
}

/// What a plane holds, in numbers.
#[derive(Clone, Copy, Debug, PartialEq, Eq, Structural)]
pub struct PlaneStatistics {
    pub min: u8,
    pub max: u8,
    pub mean: Double,
    pub nonzero: usize,
    pub len: usize,
}

/// The sum of all bytes.
pub open spec fn byte_sum(bytes: Seq<u8>) -> nat
    decreases bytes.len(),
{
    if bytes.len() == 0 {
        0
    } else {
        byte_sum(bytes.drop_last()) + bytes.last() as nat
    }
}

/// The number of bytes that are not zero.
pub open spec fn count_nonzero(bytes: Seq<u8>) -> nat
    decreases bytes.len(),
{
    if bytes.len() == 0 {
        0
    } else {
        count_nonzero(bytes.drop_last()) + if bytes.last() != 0 {
            1nat
        } else {
            0
        }
    }
}

/// `m` is the least of the bytes; of none it is zero.
pub open spec fn is_least(bytes: Seq<u8>, m: u8) -> bool {
    if bytes.len() == 0 {
        m == 0
    } else {
        bytes.contains(m) && forall|i: int| 0 <= i < bytes.len() ==> m <= #[trigger] bytes[i]
    }
}

/// `m` is the largest of the bytes; of none it is zero.
pub open spec fn is_largest(bytes: Seq<u8>, m: u8) -> bool {
    if bytes.len() == 0 {
        m == 0
    } else {
        bytes.contains(m) && forall|i: int| 0 <= i < bytes.len() ==> #[trigger] bytes[i] <= m
    }
}

/// Looks at the bytes of a plane.
pub fn plane_statistics(bytes: &[u8]) -> (r: PlaneStatistics)
    requires
        bytes@.len() * 255 <= u64::MAX,
    ensures
        is_least(bytes@, r.min),
        is_largest(bytes@, r.max),
        r.mean == Double::natural(byte_sum(bytes@)).over(Double::natural(bytes@.len())),
        r.nonzero == count_nonzero(bytes@),
        r.len == bytes@.len(),
{
    let mut min: u8 = 0;
    let mut max: u8 = 0;
    let mut sum: u64 = 0;
    let mut nonzero: usize = 0;
    let mut i: usize = 0;
    proof {
        assert(bytes@.take(0) =~= seq![]);
    }
    while i < bytes.len()
        invariant
            i <= bytes@.len(),
            bytes@.len() * 255 <= u64::MAX,
            sum == byte_sum(bytes@.take(i as int)),
            sum <= i * 255,
            nonzero == count_nonzero(bytes@.take(i as int)),
            nonzero <= i,
            i == 0 ==> min == 0 && max == 0,
            i > 0 ==> exists|k: int| 0 <= k < i && #[trigger] bytes@[k] == min,
            i > 0 ==> exists|k: int| 0 <= k < i && #[trigger] bytes@[k] == max,
            forall|k: int| 0 <= k < i ==> min <= #[trigger] bytes@[k] <= max,
        decreases bytes@.len() - i,
    {
        let b: u8 = bytes[i];
        proof {
            assert(bytes@.take(i + 1).drop_last() =~= bytes@.take(i as int));
            assert(bytes@[i as int] == b);
        }
        if i == 0 || b < min {
            min = b;
        }
        if i == 0 || b > max {
            max = b;
        }
        sum = sum + b as u64;
        if b != 0 {
            nonzero = nonzero + 1;
        }
        i = i + 1;
    }
    proof {
        assert(bytes@.take(i as int) =~= bytes@);
    }
    PlaneStatistics {
        min,
        max,
        mean: Double::from_u64(sum).over(Double::from_u64(bytes.len() as u64)),
        nonzero,
        len: bytes.len(),
    }
}

/// Both planes of a frame are copied whole, into the slot that is being filled: all rows
/// of the luma plane and half as many of the chroma plane, of the same length, which is a
/// byte for each sample of eight bits and two for each of ten. What the other slot is
/// does not matter.
pub proof fn law_frame_is_copied_whole_into_its_slot(
    a: GpuBufInfo,
    b: GpuBufInfo,
    slot: int,
    frame: DecodedFrame,
)
    requires
        0 <= slot < 2,
        a.addressable(),
        a.width == b.width && a.height == b.height && a.pixel_format == b.pixel_format,
        a.y_ptr@[slot] == b.y_ptr@[slot] && a.uv_ptr@[slot] == b.uv_ptr@[slot],
        a.y_pitch@[slot] == b.y_pitch@[slot] && a.uv_pitch@[slot] == b.uv_pitch@[slot],
    ensures
        a.luma(slot, frame) == b.luma(slot, frame),
        a.chroma(slot, frame) == b.chroma(slot, frame),
        ({
            let (y, uv) = (a.luma(slot, frame), a.chroma(slot, frame));
            let bytes = if a.pixel_format == GpuPixelFormat::P010 {
                2int
            } else {
                1
            };
            &&& y.source == frame.y_ptr && y.source_pitch == frame.y_pitch
            &&& uv.source == frame.uv_ptr && uv.source_pitch == frame.uv_pitch
            &&& y.target == a.y_ptr@[slot] && y.target_pitch == a.y_pitch@[slot]
            &&& uv.target == a.uv_ptr@[slot] && uv.target_pitch == a.uv_pitch@[slot]
            &&& y.rows == a.height && 2 * uv.rows <= a.height < 2 * uv.rows + 2
            &&& y.width_bytes == bytes * a.width && uv.width_bytes == y.width_bytes
        }),
{
    let w = a.width as int;
    assert(0 <= w * 1 == w && w * 2 == 2 * w) by (nonlinear_arith)
        requires
            w >= 0,
    ;
}

/// What a plane holds adds up: the numbers of two parts of it are those of the whole.
pub proof fn law_plane_numbers_add_up(a: Seq<u8>, b: Seq<u8>)
    ensures
        byte_sum(a + b) == byte_sum(a) + byte_sum(b),
        count_nonzero(a + b) == count_nonzero(a) + count_nonzero(b),
        b.len() == 1 ==> byte_sum(b) == b[0] && count_nonzero(b) == if b[0] == 0 {
            0int
        } else {
            1
        },
    decreases b.len(),
{
    if b.len() == 0 {
        assert(a + b =~= a);
    } else {
        assert((a + b).drop_last() =~= a + b.drop_last());
        assert((a + b).last() == b.last());
        law_plane_numbers_add_up(a, b.drop_last());
        if b.len() == 1 {
            reveal_with_fuel(byte_sum, 2);
            reveal_with_fuel(count_nonzero, 2);
        }
    }
}

/// Frames are counted as their slots are handed on, one at a time; and a frame is looked
/// at only if that is wanted and it is the first.
pub proof fn law_frames_are_counted_as_they_are_handed_on(
    thread: DecodeThread,
    events: Seq<DecodeEvent>,
)
    requires
        thread.phase == DecodePhase::Open,
        thread.frame_count == 0,
        events.len() < u64::MAX,
    ensures
        ({
            let now = after_events(thread, events);
            let n = slots_handed_on(thread, events).len();
            &&& now.inspects == thread.inspects
            &&& n <= now.frame_count <= n + 1
            &&& now.frame_count <= events.len()
            &&& now.phase is Send ==> now.frame_count == n + 1
            &&& !(now.phase is Send) && now.phase != DecodePhase::End ==> now.frame_count == n
            &&& now.phase is Inspect ==> thread.inspects && now.frame_count == 0
        }),
    decreases events.len(),
{
    if events.len() > 0 {
        law_frames_are_counted_as_they_are_handed_on(thread, events.drop_last());
    }
}

} // verus!
