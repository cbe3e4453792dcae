//! Grouping of the quads of a frame into draw calls.  Each quad becomes six
//! vertices; consecutive quads that share a clip rectangle are drawn by one
//! call, with that rectangle as scissor.
use vstd::prelude::*;

verus! {

/// A run of vertices drawn with one scissor rectangle.  `clip` names the
/// rectangle (by its number in the frame's table of clip rectangles); `None`
/// draws unclipped.
#[derive(Clone, Copy, Debug, PartialEq, Eq, Structural)]
pub struct DrawBatch {
    pub start: u32,
    pub count: u32,
    pub clip: Option<u32>,
}

/// Whether `batches` is the grouping of quads with clips `clips`: the batches
/// cover the vertices `0 .. 6 * clips.len()` in order, back to back, none
/// empty; every quad of a batch has the batch's clip; and two neighbouring
/// batches have different clips (so no batch could be longer).
pub open spec fn groups(clips: Seq<Option<u32>>, batches: Seq<DrawBatch>) -> bool {
    &&& (batches.len() == 0 <==> clips.len() == 0)
    &&& batches.len() > 0 ==> batches[0].start == 0
    &&& batches.len() > 0 ==> batches.last().start + batches.last().count == 6 * clips.len()
    &&& forall|j: int|
        0 <= j < batches.len() - 1 ==> #[trigger] batches[j].start + batches[j].count == batches[j
            + 1].start
    &&& forall|j: int|
        0 <= j < batches.len() ==> #[trigger] batches[j].count > 0 && batches[j].count % 6 == 0
            && batches[j].start % 6 == 0
    &&& forall|j: int, q: int|
        0 <= j < batches.len() && batches[j].start <= 6 * q < batches[j].start + batches[j].count
            ==> #[trigger] clips[q] == #[trigger] batches[j].clip
    &&& forall|j: int| 0 <= j < batches.len() - 1 ==> #[trigger] batches[j].clip != batches[j + 1].clip
}

/// The draw batches for quads whose clips, in drawing order, are `clips`.
pub fn build_batches(clips: &Vec<Option<u32>>) -> (batches: Vec<DrawBatch>)
    requires
        6 * clips@.len() <= u32::MAX,
    ensures
        groups(clips@, batches@),
{
    let n = clips.len();
    let mut batches: Vec<DrawBatch> = Vec::new();
    let mut current: Option<u32> = None;
    let mut batch_start: u32 = 0;
    let mut i: usize = 0;
    while i < n
        invariant
            n == clips@.len(),
            6 * n <= u32::MAX,
            i <= n,
            batch_start % 6 == 0,
            batch_start <= 6 * i,
            // the open batch holds quads batch_start/6 .. i, all with clip `current`
            forall|q: int| batch_start <= 6 * q < 6 * i ==> #[trigger] clips@[q] == current,
            // closed batches cover 0 .. batch_start
            batches@.len() == 0 ==> batch_start == 0,
            batches@.len() > 0 ==> batches@[0].start == 0,
            batches@.len() > 0 ==> batches@.last().start + batches@.last().count == batch_start,
            batches@.len() > 0 && batch_start < 6 * i ==> batches@.last().clip != current,
            batches@.len() > 0 ==> batch_start < 6 * i,
            forall|j: int|
                0 <= j < batches@.len() - 1 ==> #[trigger] batches@[j].start + batches@[j].count
                    == batches@[j + 1].start,
            forall|j: int|
                0 <= j < batches@.len() ==> #[trigger] batches@[j].count > 0 && batches@[j].count % 6
                    == 0 && batches@[j].start % 6 == 0,
            forall|j: int, q: int|
                0 <= j < batches@.len() && batches@[j].start <= 6 * q < batches@[j].start
                    + batches@[j].count ==> #[trigger] clips@[q] == #[trigger] batches@[j].clip,
            forall|j: int|
                0 <= j < batches@.len() - 1 ==> #[trigger] batches@[j].clip != batches@[j + 1].clip,
        decreases n - i,
    {
        let clip = clips[i];
        let vert_count: u32 = (6 * i) as u32;
        if clip != current {
            if vert_count > batch_start {
                let ghost before = batches@;
                batches.push(DrawBatch { start: batch_start, count: vert_count - batch_start, clip: current });
                proof {
                    assert forall|j: int, q: int|
                        0 <= j < batches@.len() && batches@[j].start <= 6 * q < batches@[j].start
                            + batches@[j].count implies #[trigger] clips@[q] == #[trigger] batches@[j].clip by {
                        if j < before.len() {
                            assert(batches@[j] == before[j]);
                        }
                    }
                }
            }
            current = clip;
            batch_start = vert_count;
        }
        i = i + 1;
    }
    let vert_count: u32 = (6 * n) as u32;
    if vert_count > batch_start {
        let ghost before = batches@;
        batches.push(DrawBatch { start: batch_start, count: vert_count - batch_start, clip: current });
        proof {
            assert forall|j: int, q: int|
                0 <= j < batches@.len() && batches@[j].start <= 6 * q < batches@[j].start
                    + batches@[j].count implies #[trigger] clips@[q] == #[trigger] batches@[j].clip by {
                if j < before.len() {
                    assert(batches@[j] == before[j]);
                }
            }
        }
    }
    batches
}

} // verus!
