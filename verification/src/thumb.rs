//! Thumbnails: output names, the bookkeeping of a batch, and packing a
//! padded RGB frame into tightly packed rows.

use vstd::prelude::*;
use vstd::arithmetic::div_mod::lemma_fundamental_div_mod_converse;
use crate::string_map::StringMap;
use crate::text::push_str;

verus! {

/// What extracting the thumbnail of one video produced.
#[derive(Clone, Debug)]
pub enum ThumbOutcome {
    Extracted { video_path: String },
    Failed { video_path: String, error: String },
}

/// Videos thumbnailed (in the order recorded) and failures (video path ->
/// error).
#[derive(Debug)]
pub struct ExtractionResults {
    pub successes: Vec<String>,
    pub failures: StringMap,
}

/// The successes and failures after recording `outcomes` in order.
pub open spec fn extraction_after(outcomes: Seq<ThumbOutcome>) -> (
    Seq<Seq<char>>,
    Map<Seq<char>, Seq<char>>,
)
    decreases outcomes.len(),
{
    if outcomes.len() == 0 {
        (seq![], Map::empty())
    } else {
        let (s, f) = extraction_after(outcomes.drop_last());
        match outcomes.last() {
            ThumbOutcome::Extracted { video_path } => (s.push(video_path@), f),
            ThumbOutcome::Failed { video_path, error } => (s, f.insert(video_path@, error@)),
        }
    }
}

pub open spec fn success_paths(s: Seq<String>) -> Seq<Seq<char>> {
    s.map_values(|p: String| p@)
}

impl ExtractionResults {
    /// No successes and no failures.
    pub fn new() -> (r: Self)
        ensures
            r.successes@.len() == 0,
            r.failures@ == Map::<Seq<char>, Seq<char>>::empty(),
    {
        ExtractionResults { successes: Vec::new(), failures: StringMap::new() }
    }

    /// Records one outcome.
    pub fn record(&mut self, outcome: ThumbOutcome)
        ensures
            match outcome {
                ThumbOutcome::Extracted { video_path } => {
                    &&& final(self).successes@ == old(self).successes@.push(video_path)
                    &&& final(self).failures@ == old(self).failures@
                },
                ThumbOutcome::Failed { video_path, error } => {
                    &&& final(self).successes@ == old(self).successes@
                    &&& final(self).failures@ == old(self).failures@.insert(
                        video_path@,
                        error@,
                    )
                },
            },
    {
        match outcome {
            ThumbOutcome::Extracted { video_path } => self.successes.push(video_path),
            ThumbOutcome::Failed { video_path, error } => self.failures.insert(video_path, error),
        }
    }

    /// Gathers the outcomes of a batch, in order.
    pub fn from_outcomes(outcomes: &Vec<ThumbOutcome>) -> (r: Self)
        ensures
            (success_paths(r.successes@), r.failures@) == extraction_after(outcomes@),
    {
        let mut r = ExtractionResults::new();
        let mut i: usize = 0;
        assert(success_paths(r.successes@) =~= seq![]);
        while i < outcomes.len()
            invariant
                i <= outcomes@.len(),
                (success_paths(r.successes@), r.failures@) == extraction_after(
                    outcomes@.take(i as int),
                ),
            decreases outcomes@.len() - i,
        {
            let copy = match &outcomes[i] {
                ThumbOutcome::Extracted { video_path } => ThumbOutcome::Extracted {
                    video_path: video_path.clone(),
                },
                ThumbOutcome::Failed { video_path, error } => ThumbOutcome::Failed {
                    video_path: video_path.clone(),
                    error: error.clone(),
                },
            };
            let ghost before = r.successes@;
            r.record(copy);
            assert(success_paths(r.successes@) =~= extraction_after(outcomes@.take(i + 1)).0) by {
                assert(outcomes@.take(i + 1).drop_last() =~= outcomes@.take(i as int));
            }
            assert(outcomes@.take(i + 1).drop_last() =~= outcomes@.take(i as int));
            i = i + 1;
        }
        assert(outcomes@.take(outcomes@.len() as int) =~= outcomes@);
        r
    }
}

/// Thumbnail file name for a video's file stem; `None` stands for a stem
/// that is not valid Unicode, which gets the stem `thumb`.
pub fn thumbnail_file_name(stem: Option<&str>) -> (name: String)
    ensures
        name@ == match stem {
            Some(s) => s@ + ".jpg"@,
            None => "thumb.jpg"@,
        },
{
    let mut name = String::new();
    match stem {
        Some(s) => {
            push_str(&mut name, s);
            push_str(&mut name, ".jpg");
        },
        None => {
            push_str(&mut name, "thumb.jpg");
        },
    }
    name
}

/// `height` rows of `row_len` bytes, row `y` taken from offset `y * stride`.
pub open spec fn packed_rows(data: Seq<u8>, row_len: nat, height: nat, stride: nat) -> Seq<u8> {
    Seq::new(
        row_len * height,
        |i: int| data[(i / (row_len as int)) * stride + i % (row_len as int)],
    )
}

/// Copies the first `width * 3` bytes of each of `height` rows that start
/// `stride` bytes apart into one contiguous buffer.
pub fn pack_rgb_rows(data: &[u8], width: usize, height: usize, stride: usize) -> (packed: Vec<u8>)
    requires
        width * 3 * height <= usize::MAX,
        height > 0 ==> (height - 1) * stride + width * 3 <= data@.len(),
    ensures
        packed@ == packed_rows(data@, (width * 3) as nat, height as nat, stride as nat),
{
    let mut packed: Vec<u8> = Vec::new();
    if height == 0 {
        assert(packed@ =~= packed_rows(data@, (width * 3) as nat, 0, stride as nat));
        return packed;
    }
    assert(width * 3 <= width * 3 * height) by (nonlinear_arith)
        requires
            height > 0,
    ;
    let row_len = width * 3;
    let data_len = data.len();
    let mut y: usize = 0;
    while y < height
        invariant
            row_len == width * 3,
            row_len * height <= usize::MAX,
            height > 0,
            (height - 1) * stride + row_len <= data@.len(),
            data_len == data@.len(),
            y <= height,
            packed@.len() == y * row_len,
            forall|i: int|
                0 <= i < packed@.len() ==> #[trigger] packed@[i] == data@[(i / (row_len as int))
                    * stride + i % (row_len as int)],
        decreases height - y,
    {
        assert(y * stride + row_len <= data@.len()) by (nonlinear_arith)
            requires
                y < height,
                (height - 1) * stride + row_len <= data@.len(),
        ;
        let start = y * stride;
        let mut k: usize = 0;
        while k < row_len
            invariant
                row_len == width * 3,
                start == y * stride,
                start + row_len <= data@.len(),
                data_len == data@.len(),
                    y < height,
                k <= row_len,
                packed@.len() == y * row_len + k,
                forall|i: int|
                    0 <= i < packed@.len() ==> #[trigger] packed@[i] == data@[(i / (
                    row_len as int)) * stride + i % (row_len as int)],
            decreases row_len - k,
        {
            let ghost idx = packed@.len() as int;
            packed.push(data[start + k]);
            proof {
                lemma_fundamental_div_mod_converse(idx, row_len as int, y as int, k as int);
            }
            k = k + 1;
        }
        assert((y + 1) * row_len == y * row_len + row_len) by (nonlinear_arith);
        y = y + 1;
    }
    assert(height * row_len == row_len * height) by (nonlinear_arith);
    assert(packed@ =~= packed_rows(data@, row_len as nat, height as nat, stride as nat));
    packed
}

/// Whether `pack_rgb_rows` can pack `height` rows of `width` pixels that
/// start `stride` bytes apart in a buffer of `data_len` bytes.
pub fn rows_fit(data_len: usize, width: usize, height: usize, stride: usize) -> (ok: bool)
    ensures
        ok == (width * 3 * height <= usize::MAX && (height > 0 ==> (height - 1) * stride + width
            * 3 <= data_len)),
{
    let row_len = match width.checked_mul(3) {
        Some(r) => r,
        None => {
            assert(width * 3 * height <= usize::MAX ==> height == 0) by (nonlinear_arith)
                requires
                    width * 3 > usize::MAX,
            ;
            return height == 0;
        },
    };
    let total = row_len.checked_mul(height);
    if total.is_none() {
        return false;
    }
    if height == 0 {
        return true;
    }
    match (height - 1).checked_mul(stride) {
        Some(start) => match start.checked_add(row_len) {
            Some(end) => end <= data_len,
            None => false,
        },
        None => false,
    }
}

} // verus!
