//! What a detector reports.

use crate::binary::single::Single;
use crate::camera::CameraId;
use vstd::prelude::*;

verus! {

/// One object in one camera image. Centre and size are fractions of the image.
#[derive(Clone, Copy, Debug, PartialEq, Eq, Structural)]
pub struct Detection {
    pub camera: CameraId,
    pub class_id: u16,
    pub confidence: Single,
    pub center_x: Single,
    pub center_y: Single,
    pub width: Single,
    pub height: Single,
}

/// The detections of one class, in order.
pub open spec fn of_class(detections: Seq<Detection>, class_id: u16) -> Seq<Detection> {
    detections.filter(|d: Detection| d.class_id == class_id)
}

/// Keeps the detections of one class.
pub fn detections_of_class(detections: &[Detection], class_id: u16) -> (r: Vec<Detection>)
    ensures
        r@ == of_class(detections@, class_id),
{
    let mut r: Vec<Detection> = Vec::new();
    let ghost same = |d: Detection| d.class_id == class_id;
    let mut i: usize = 0;
    while i < detections.len()
        invariant
            i <= detections@.len(),
            same == (|d: Detection| d.class_id == class_id),
            r@ == detections@.take(i as int).filter(same),
        decreases detections@.len() - i,
    {
        proof {
            reveal(Seq::filter);
            assert(detections@.take(i + 1).drop_last() =~= detections@.take(i as int));
        }
        if detections[i].class_id == class_id {
            r.push(detections[i]);
        }
        i = i + 1;
    }
    proof {
        assert(detections@.take(i as int) =~= detections@);
    }
    r
}

/// One of the detections is of the class.
pub open spec fn shows_class(detections: Seq<Detection>, class_id: u16) -> bool {
    exists|i: int| 0 <= i < detections.len() && (#[trigger] detections[i]).class_id == class_id
}

/// Whether any detection is of the class.
pub fn any_of_class(detections: &[Detection], class_id: u16) -> (r: bool)
    ensures
        r == shows_class(detections@, class_id),
{
    let mut i: usize = 0;
    while i < detections.len()
        invariant
            i <= detections@.len(),
            forall|j: int| 0 <= j < i ==> (#[trigger] detections@[j]).class_id != class_id,
        decreases detections@.len() - i,
    {
        if detections[i].class_id == class_id {
            return true;
        }
        i = i + 1;
    }
    false
}

} // verus!
