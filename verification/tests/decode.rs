//! What decode threads and pairing threads do next.

use reco::decode::{
    plane_statistics, skip_counts, DecodeEvent, DecodePhase, DecodeThread, DecodedFrame,
    GpuBufInfo, PairPhase,
};
use reco::vulkan::GpuPixelFormat;

const FRAME: DecodedFrame = DecodedFrame { y_ptr: 100, y_pitch: 4096, uv_ptr: 200, uv_pitch: 4096 };

fn buffer(pixel_format: GpuPixelFormat) -> GpuBufInfo {
    GpuBufInfo {
        y_ptr: [1, 2],
        y_pitch: [3840, 7680],
        uv_ptr: [3, 4],
        uv_pitch: [3840, 7680],
        sem_cuda: [5, 6],
        width: 3840,
        height: 2161,
        pixel_format,
    }
}

#[test]
fn offsets_skip_frames_of_one_camera() {
    assert_eq!(skip_counts(0), (0, 0));
    assert_eq!(skip_counts(7), (0, 7));
    assert_eq!(skip_counts(-7), (7, 0));
    assert_eq!(skip_counts(i64::MIN), (1 << 63, 0));
    assert_eq!(skip_counts(i64::MAX), (0, i64::MAX as u64));
}

#[test]
fn planes_are_copied_into_their_slot() {
    let y = buffer(GpuPixelFormat::Nv12).luma_copy(1, FRAME);
    assert_eq!((y.target, y.target_pitch, y.source, y.source_pitch), (2, 7680, 100, 4096));
    assert_eq!((y.width_bytes, y.rows), (3840, 2161));
    let uv = buffer(GpuPixelFormat::P010).chroma_copy(0, FRAME);
    assert_eq!((uv.target, uv.target_pitch, uv.source, uv.source_pitch), (3, 3840, 200, 4096));
    assert_eq!((uv.width_bytes, uv.rows), (7680, 1080));
    assert_eq!(buffer(GpuPixelFormat::Nv12).ready_semaphore(1), 6);
    assert_eq!(GpuPixelFormat::P010.bytes_per_sample(), 2);
}

/// Answers every step with success, handing out one slot, and lists the steps.
fn walk(thread: &mut DecodeThread, slot: u8, steps: usize) -> Vec<DecodePhase> {
    let mut phases = Vec::new();
    for _ in 0..steps {
        phases.push(thread.phase);
        let event = match thread.phase {
            DecodePhase::AwaitSlot => DecodeEvent::Slot { slot },
            DecodePhase::Decode { .. } => DecodeEvent::Frame { frame: FRAME },
            _ => DecodeEvent::Done,
        };
        thread.step(event);
    }
    phases
}

#[test]
fn frames_are_skipped_before_slots_are_filled() {
    let mut thread = DecodeThread::new(2, false);
    let (slot, frame) = (1, FRAME);
    assert_eq!(
        walk(&mut thread, slot, 13),
        vec![
            DecodePhase::Open,
            DecodePhase::Skip { done: 0 },
            DecodePhase::Skip { done: 1 },
            DecodePhase::ReadShutdown,
            DecodePhase::AwaitSlot,
            DecodePhase::Decode { slot },
            DecodePhase::EnsureContext { slot, frame },
            DecodePhase::CopyLuma { slot, frame },
            DecodePhase::CopyChroma { slot, frame },
            DecodePhase::Synchronize { slot },
            DecodePhase::Signal { slot },
            DecodePhase::Send { slot },
            DecodePhase::ReadShutdown,
        ]
    );
    assert_eq!(thread.frame_count, 1);
}

#[test]
fn only_the_first_frame_is_inspected() {
    let mut thread = DecodeThread::new(0, true);
    let first = walk(&mut thread, 0, 11);
    assert_eq!(first[9], DecodePhase::Inspect { slot: 0 });
    assert_eq!(first[10], DecodePhase::Send { slot: 0 });
    let second = walk(&mut thread, 0, 9);
    assert!(!second.contains(&DecodePhase::Inspect { slot: 0 }));
    assert_eq!(thread.frame_count, 2);
    // A failed look at the frame changes nothing.
    let mut thread = DecodeThread::new(0, true);
    walk(&mut thread, 0, 9);
    thread.step(DecodeEvent::Failed);
    assert_eq!(thread.phase, DecodePhase::Send { slot: 0 });
}

#[test]
fn failures_and_stops_end_a_thread() {
    for steps in 0..12 {
        let mut thread = DecodeThread::new(1, false);
        walk(&mut thread, 0, steps);
        thread.step(DecodeEvent::Failed);
        assert_eq!(thread.phase, DecodePhase::End);
        thread.step(DecodeEvent::Done);
        assert_eq!(thread.phase, DecodePhase::End);
    }
    let mut thread = DecodeThread::new(0, false);
    walk(&mut thread, 0, 1);
    thread.step(DecodeEvent::Stop);
    assert_eq!(thread.phase, DecodePhase::End);
    // The end of the video while frames are skipped, and after.
    for (skips, steps) in [(3, 2), (0, 3)] {
        let mut thread = DecodeThread::new(skips, false);
        walk(&mut thread, 0, steps);
        thread.step(DecodeEvent::Nothing);
        assert_eq!(thread.phase, DecodePhase::End);
    }
    // No slot in time: the thread looks again.
    let mut thread = DecodeThread::new(0, false);
    walk(&mut thread, 0, 2);
    thread.step(DecodeEvent::Nothing);
    assert_eq!(thread.phase, DecodePhase::ReadShutdown);
}

#[test]
fn pairing_skips_and_then_pairs() {
    let mut phase = PairPhase::new(-2);
    assert_eq!(phase, PairPhase::SkipLeft { left: 2 });
    phase.step(true);
    assert_eq!(phase, PairPhase::SkipLeft { left: 1 });
    phase.step(true);
    assert_eq!(phase, PairPhase::TakeBoth);
    phase.step(true);
    assert_eq!(phase, PairPhase::Send);
    phase.step(true);
    assert_eq!(phase, PairPhase::TakeBoth);
    phase.step(false);
    assert_eq!(phase, PairPhase::End);
    phase.step(true);
    assert_eq!(phase, PairPhase::End);
    assert_eq!(PairPhase::new(1), PairPhase::SkipRight { left: 1 });
    assert_eq!(PairPhase::new(0), PairPhase::TakeBoth);
}

#[test]
fn planes_are_described_in_numbers() {
    let s = plane_statistics(&[16, 0, 235, 128, 0]);
    assert_eq!((s.min, s.max, s.nonzero, s.len), (0, 235, 3, 5));
    assert_eq!(f64::from_bits(s.mean.to_bits()), 75.8);
    let one = plane_statistics(&[7]);
    assert_eq!((one.min, one.max, one.nonzero), (7, 7, 1));
    let none = plane_statistics(&[]);
    assert_eq!((none.min, none.max, none.nonzero, none.len), (0, 0, 0, 0));
    assert!(f64::from_bits(none.mean.to_bits()).is_nan());
}

#[test]
fn slots_are_handed_on_in_the_order_in_which_they_were_taken() {
    let free = [1u8, 0, 0, 1, 1];
    let mut thread = DecodeThread::new(1, true);
    let (mut taken, mut handed_on) = (Vec::new(), Vec::new());
    while thread.phase != DecodePhase::End {
        let event = match thread.phase {
            DecodePhase::AwaitSlot => {
                let slot = free[taken.len()];
                taken.push(slot);
                DecodeEvent::Slot { slot }
            }
            DecodePhase::Decode { .. } => DecodeEvent::Frame { frame: FRAME },
            DecodePhase::Synchronize { .. } if taken.len() == free.len() => DecodeEvent::Failed,
            DecodePhase::Send { slot } => {
                handed_on.push(slot);
                DecodeEvent::Done
            }
            _ => DecodeEvent::Done,
        };
        thread.step(event);
    }
    assert_eq!(taken, free);
    assert_eq!(handed_on, free[..4]);
}
