//! Where a lost ball is looked for.

use crate::binary::single::Single;
use crate::crop::CropRegion;
use vstd::prelude::*;

verus! {

/// One half, two thirds and five sixths: the share of each image side that the
/// crops around the expected place cover, in the order in which they are tried.
pub const RECOVERY_CROP_RATIOS: [u32; 3] = [0x3f00_0000, 0x3f2a_aaab, 0x3f55_5555];

/// From this many misses on the expected place is no longer believed.
pub const LOCAL_RECOVERY_HORIZON: u32 = 24;

/// After that, every fourth frame is searched as a whole.
pub const TILED_SEARCH_INTERVAL: u32 = 4;

/// One region to run the detector on.
#[derive(Clone, Copy, Debug, PartialEq, Eq, Structural)]
pub enum SearchStep {
    /// A crop around the expected place.
    Local { stage: usize, region: CropRegion },
    /// A corner of the frame.
    Tile { tile: usize, region: CropRegion },
}

impl SearchStep {
    /// The region to look at.
    pub open spec fn area(self) -> CropRegion {
        match self {
            SearchStep::Local { region, .. } => region,
            SearchStep::Tile { region, .. } => region,
        }
    }

    /// There is a counter for the step.
    pub open spec fn counted(self) -> bool {
        match self {
            SearchStep::Local { stage, .. } => stage < 3,
            SearchStep::Tile { tile, .. } => tile < 4,
        }
    }

    /// The region to look at.
    pub fn region(&self) -> (r: CropRegion)
        ensures
            r == self.area(),
    {
        match *self {
            SearchStep::Local { region, .. } => region,
            SearchStep::Tile { region, .. } => region,
        }
    }
}

/// The share of each side that the crop of a stage covers.
pub open spec fn stage_ratio(stage: int) -> Single {
    if stage == 0 {
        Single { bits: 0x3f00_0000 }
    } else if stage == 1 {
        Single { bits: 0x3f2a_aaab }
    } else {
        Single { bits: 0x3f55_5555 }
    }
}

/// The crops around the expected place from the first stage to the last, without
/// those that are the whole frame.
pub open spec fn local_steps(
    width: u32,
    height: u32,
    predicted: (Single, Single),
    stages: nat,
) -> Seq<SearchStep>
    decreases stages,
{
    if stages == 0 {
        seq![]
    } else {
        let stage = (stages - 1) as nat;
        let before = local_steps(width, height, predicted, stage);
        let region = CropRegion::around(width, height, stage_ratio(stage as int), predicted);
        if region == CropRegion::whole(width, height) {
            before
        } else {
            before.push(SearchStep::Local { stage: stage as usize, region })
        }
    }
}

/// The four corners of the frame.
pub open spec fn tile_steps(width: u32, height: u32) -> Seq<SearchStep> {
    Seq::new(
        4,
        |i: int|
            SearchStep::Tile { tile: i as usize, region: CropRegion::tiles(width, height)[i] },
    )
}

/// What is searched after that many misses.
pub open spec fn search_steps(
    width: u32,
    height: u32,
    predicted: (Single, Single),
    misses: u32,
) -> Seq<SearchStep> {
    if misses < LOCAL_RECOVERY_HORIZON {
        local_steps(width, height, predicted, 3)
    } else if misses % TILED_SEARCH_INTERVAL == 0 {
        tile_steps(width, height)
    } else {
        seq![]
    }
}

/// Lists what is searched after that many misses: at first crops of growing size
/// around the expected place, later the four corners in every fourth frame.
pub fn plan_search(width: u32, height: u32, predicted: (Single, Single), misses: u32) -> (r: Vec<
    SearchStep,
>)
    ensures
        r@ == search_steps(width, height, predicted, misses),
{
    let mut r: Vec<SearchStep> = Vec::new();
    if misses < LOCAL_RECOVERY_HORIZON {
        let mut stage: usize = 0;
        while stage < 3
            invariant
                stage <= 3,
                r@ == local_steps(width, height, predicted, stage as nat),
            decreases 3 - stage,
        {
            let ratio = Single::from_bits(RECOVERY_CROP_RATIOS[stage]);
            assert(ratio == stage_ratio(stage as int));
            let region = CropRegion::centered(width, height, ratio, predicted);
            if region != CropRegion::full(width, height) {
                r.push(SearchStep::Local { stage, region });
            }
            stage = stage + 1;
        }
    } else if misses % TILED_SEARCH_INTERVAL == 0 {
        let tiles = CropRegion::tiled_2x2(width, height);
        let mut tile: usize = 0;
        while tile < 4
            invariant
                tile <= 4,
                tiles@ == CropRegion::tiles(width, height),
                r@ =~= tile_steps(width, height).take(tile as int),
            decreases 4 - tile,
        {
            r.push(SearchStep::Tile { tile, region: tiles[tile] });
            tile = tile + 1;
        }
        assert(r@ =~= tile_steps(width, height));
    } else {
        assert(r@ =~= search_steps(width, height, predicted, misses));
    }
    r
}

/// Every step has a counter, and its region ends before the last pixel number.
pub proof fn lemma_steps_are_counted(
    width: u32,
    height: u32,
    predicted: (Single, Single),
    misses: u32,
    i: int,
)
    requires
        0 <= i < search_steps(width, height, predicted, misses).len(),
    ensures
        search_steps(width, height, predicted, misses)[i].counted(),
        ({
            let a = search_steps(width, height, predicted, misses)[i].area();
            a.x + a.width <= u32::MAX && a.y + a.height <= u32::MAX
        }),
{
    if misses < LOCAL_RECOVERY_HORIZON {
        lemma_local_steps_are_counted(width, height, predicted, 3, i);
    }
}

proof fn lemma_local_steps_are_counted(
    width: u32,
    height: u32,
    predicted: (Single, Single),
    stages: nat,
    i: int,
)
    requires
        0 <= i < local_steps(width, height, predicted, stages).len(),
        stages <= 3,
    ensures
        local_steps(width, height, predicted, stages)[i].counted(),
        ({
            let a = local_steps(width, height, predicted, stages)[i].area();
            a.x + a.width <= u32::MAX && a.y + a.height <= u32::MAX
        }),
    decreases stages,
{
    let before = local_steps(width, height, predicted, (stages - 1) as nat);
    if i < before.len() {
        lemma_local_steps_are_counted(width, height, predicted, (stages - 1) as nat, i);
    }
}

/// Two steps of one kind, the first of them with the lower number.
pub open spec fn numbered_before(a: SearchStep, b: SearchStep) -> bool {
    match (a, b) {
        (SearchStep::Local { stage: s, .. }, SearchStep::Local { stage: t, .. }) => s < t,
        (SearchStep::Tile { tile: s, .. }, SearchStep::Tile { tile: t, .. }) => s < t,
        _ => false,
    }
}

/// The steps of a search are of one kind, and come by their numbers.
pub proof fn lemma_steps_are_ordered(
    width: u32,
    height: u32,
    predicted: (Single, Single),
    misses: u32,
    i: int,
    j: int,
)
    requires
        0 <= i < j < search_steps(width, height, predicted, misses).len(),
    ensures
        numbered_before(
            search_steps(width, height, predicted, misses)[i],
            search_steps(width, height, predicted, misses)[j],
        ),
{
    if misses < LOCAL_RECOVERY_HORIZON {
        lemma_local_steps_are_ordered(width, height, predicted, 3, i, j);
    }
}

proof fn lemma_local_steps_are_ordered(
    width: u32,
    height: u32,
    predicted: (Single, Single),
    stages: nat,
    i: int,
    j: int,
)
    requires
        0 <= i < j < local_steps(width, height, predicted, stages).len(),
        stages <= 3,
    ensures
        numbered_before(
            local_steps(width, height, predicted, stages)[i],
            local_steps(width, height, predicted, stages)[j],
        ),
    decreases stages,
{
    let fewer = (stages - 1) as nat;
    let before = local_steps(width, height, predicted, fewer);
    if j < before.len() {
        lemma_local_steps_are_ordered(width, height, predicted, fewer, i, j);
    } else {
        lemma_local_stages(width, height, predicted, fewer, i);
    }
}

proof fn lemma_local_stages(
    width: u32,
    height: u32,
    predicted: (Single, Single),
    stages: nat,
    i: int,
)
    requires
        0 <= i < local_steps(width, height, predicted, stages).len(),
        stages <= 3,
    ensures
        local_steps(width, height, predicted, stages)[i] matches SearchStep::Local { stage, .. }
            && stage < stages,
    decreases stages,
{
    let fewer = (stages - 1) as nat;
    if i < local_steps(width, height, predicted, fewer).len() {
        lemma_local_stages(width, height, predicted, fewer, i);
    }
}

} // verus!
