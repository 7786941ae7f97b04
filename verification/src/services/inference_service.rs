//! Batch inference bookkeeping: which images are inferred (videos are
//! left out), in batches of what size, and the tally of how each image
//! ended. Decoding, the model run and the confidence threshold are the
//! caller's.
use vstd::prelude::*;
use crate::logic::naming::{dec, dec_chars};
use crate::logic::text::{
    ascii_lower, chars_of, concat2, concat3, eq_ignore_case, find_last, last_index_of,
    lower_chars, owned, push_str, rsplit_once, rsplit_once_chars, string_of, string_views,
};
use crate::models::{ChannelOrder, Progress};
use crate::services::file_service::{decode_rgba, decoded_rgba};
use crate::services::tag_file::file_name_start;
use crate::services::tag_service::{flatten, list_views};

verus! {

/// Smallest batch size.
pub const MIN_BATCH_SIZE: u32 = 1;

/// Largest batch size.
pub const MAX_BATCH_SIZE: u32 = 64;

/// Batch size used when none is asked for.
pub const DEFAULT_BATCH_SIZE: u32 = 8;

/// How a batch inference ended.
#[derive(Debug, Clone, PartialEq, Eq)]
pub struct InferResult {
    /// Images whose tags were written.
    pub succeeded: usize,
    /// Images that could not be read, inferred or written.
    pub failed: usize,
    /// Videos left out before the run.
    pub excluded: usize,
    /// Images left unprocessed because the run was cancelled.
    pub cancelled: usize,
    /// One message per failure, and one for a cancellation.
    pub messages: Vec<String>,
}

/// The view of a result: its four counts and its messages.
pub open spec fn infer_view(r: InferResult) -> (usize, usize, usize, usize, Seq<Seq<char>>) {
    (r.succeeded, r.failed, r.excluded, r.cancelled, string_views(r.messages@))
}

/// `mp4`.
pub open spec fn mp4_ext() -> Seq<char> {
    seq!['m', 'p', '4']
}

/// A path whose file name (after the last `/` or `\`) has the extension
/// `mp4` in any ASCII case.
pub open spec fn is_video_path(p: Seq<char>) -> bool {
    match rsplit_once(p.skip(file_name_start(p)), '.') {
        Some((_, ext)) => ascii_lower(ext) == mp4_ext(),
        None => false,
    }
}

/// The paths that are not videos, in order.
pub open spec fn without_videos(paths: Seq<Seq<char>>) -> Seq<Seq<char>>
    decreases paths.len(),
{
    if paths.len() == 0 {
        Seq::empty()
    } else {
        let r = without_videos(paths.drop_last());
        if is_video_path(paths.last()) {
            r
        } else {
            r.push(paths.last())
        }
    }
}

fn is_video(path: &str) -> (r: bool)
    ensures
        r == is_video_path(path@),
{
    let cs = chars_of(path);
    let a = find_last(&cs, '/');
    let b = find_last(&cs, '\\');
    let start: usize = match (a, b) {
        (Some(x), Some(y)) => if x > y {
            x + 1
        } else {
            y + 1
        },
        (Some(x), None) => x + 1,
        (None, Some(y)) => y + 1,
        (None, None) => 0,
    };
    proof {
        crate::logic::text::lemma_last_index_bound(cs@, '/');
        crate::logic::text::lemma_last_index_bound(cs@, '\\');
        assert(start as int == file_name_start(cs@));
    }
    let name = crate::logic::text::slice_chars(&cs, start, cs.len());
    proof {
        assert(name@ =~= path@.skip(file_name_start(path@)));
    }
    match rsplit_once_chars(&name, '.') {
        Some((_, ext)) => {
            let l = lower_chars(&ext);
            let m: Vec<char> = vec!['m', 'p', '4'];
            proof {
                assert(m@ =~= mp4_ext());
            }
            crate::logic::text::chars_eq(&l, &m)
        },
        None => false,
    }
}

/// The paths to infer: every path but the videos, in order.
pub fn exclude_videos(paths: &Vec<String>) -> (out: Vec<String>)
    ensures
        string_views(out@) == without_videos(string_views(paths@)),
{
    let ghost pv = string_views(paths@);
    let mut out: Vec<String> = Vec::new();
    let mut i: usize = 0;
    proof {
        assert(pv.take(0) =~= Seq::<Seq<char>>::empty());
    }
    while i < paths.len()
        invariant
            i <= paths.len(),
            pv == string_views(paths@),
            string_views(out@) == without_videos(pv.take(i as int)),
            out.len() <= i,
        decreases paths.len() - i,
    {
        proof {
            assert(pv.take(i + 1).drop_last() =~= pv.take(i as int));
            assert(pv.take(i + 1).last() == paths@[i as int]@);
        }
        if !is_video(paths[i].as_str()) {
            let ghost before = out@;
            out.push(paths[i].clone());
            proof {
                assert(string_views(out@) =~= string_views(before).push(paths@[i as int]@));
            }
        }
        i += 1;
    }
    proof {
        assert(pv.take(paths.len() as int) =~= pv);
    }
    out
}

/// The batch size of a run: the default when none is asked for, otherwise
/// the asked size limited to [`MIN_BATCH_SIZE`]..=[`MAX_BATCH_SIZE`].
pub fn resolve_batch_size(requested: Option<u32>) -> (r: u32)
    ensures
        r == match requested {
            None => DEFAULT_BATCH_SIZE,
            Some(v) => if v < MIN_BATCH_SIZE {
                MIN_BATCH_SIZE
            } else if v > MAX_BATCH_SIZE {
                MAX_BATCH_SIZE
            } else {
                v
            },
        },
        MIN_BATCH_SIZE <= r <= MAX_BATCH_SIZE,
{
    match requested {
        None => DEFAULT_BATCH_SIZE,
        Some(v) => if v < MIN_BATCH_SIZE {
            MIN_BATCH_SIZE
        } else if v > MAX_BATCH_SIZE {
            MAX_BATCH_SIZE
        } else {
            v
        },
    }
}

/// `batches` cuts `items` in order into pieces of `size`, the last one
/// possibly shorter but never empty.
pub open spec fn is_batching(items: Seq<Seq<char>>, batches: Seq<Seq<Seq<char>>>, size: nat) -> bool {
    &&& flatten(batches) == items
    &&& forall|k: int| 0 <= k < batches.len() - 1 ==> (#[trigger] batches[k]).len() == size
    &&& batches.len() > 0 ==> 0 < batches.last().len() <= size
}

/// Cuts the paths into batches of `batch_size` (see [`is_batching`]).
pub fn split_into_batches(items: &Vec<String>, batch_size: u32) -> (out: Vec<Vec<String>>)
    requires
        batch_size >= 1,
    ensures
        is_batching(string_views(items@), list_views(out@), batch_size as nat),
{
    let ghost iv = string_views(items@);
    let size = batch_size as usize;
    let mut out: Vec<Vec<String>> = Vec::new();
    let mut cur: Vec<String> = Vec::new();
    let mut i: usize = 0;
    proof {
        assert(iv.take(0) =~= Seq::<Seq<char>>::empty());
        assert(flatten(list_views(out@)) =~= Seq::<Seq<char>>::empty());
    }
    while i < items.len()
        invariant
            i <= items.len(),
            iv == string_views(items@),
            size == batch_size as usize,
            size >= 1,
            cur.len() < size,
            flatten(list_views(out@)) + string_views(cur@) == iv.take(i as int),
            forall|k: int| 0 <= k < out.len() ==> (#[trigger] out@[k]).len() == size,
        decreases items.len() - i,
    {
        let ghost before_cur = string_views(cur@);
        cur.push(items[i].clone());
        proof {
            assert(string_views(cur@) =~= before_cur.push(iv[i as int]));
            assert(iv.take(i + 1) =~= iv.take(i as int).push(iv[i as int]));
        }
        if cur.len() == size {
            let ghost before_out = list_views(out@);
            let full = cur;
            let ghost fv = string_views(full@);
            out.push(full);
            cur = Vec::new();
            proof {
                assert(list_views(out@) =~= before_out.push(fv));
                assert(list_views(out@).drop_last() =~= before_out);
                assert(string_views(cur@) =~= Seq::<Seq<char>>::empty());
                assert(flatten(list_views(out@)) == flatten(before_out) + fv);
                assert(flatten(list_views(out@)) + string_views(cur@) =~= flatten(list_views(out@)));
            }
        }
        i += 1;
        proof {
            assert(flatten(list_views(out@)) + string_views(cur@) =~= iv.take(i as int));
        }
    }
    if cur.len() > 0 {
        let ghost before_out = list_views(out@);
        let ghost cv = string_views(cur@);
        out.push(cur);
        proof {
            assert(list_views(out@) =~= before_out.push(cv));
            assert(list_views(out@).drop_last() =~= before_out);
        }
    } else {
        proof {
            assert(string_views(cur@) =~= Seq::<Seq<char>>::empty());
            assert(flatten(list_views(out@)) + string_views(cur@) =~= flatten(list_views(out@)));
        }
    }
    proof {
        assert(iv.take(items.len() as int) =~= iv);
        let b = list_views(out@);
        assert forall|k: int| 0 <= k < b.len() - 1 implies (#[trigger] b[k]).len() == batch_size as nat by {
            assert(b[k] == string_views(out@[k]@));
        }
        if b.len() > 0 {
            assert(b.last() == string_views(out@[b.len() - 1]@));
        }
    }
    out
}

/// How one image of a run ended.
#[derive(Debug, Clone, PartialEq, Eq)]
pub enum InferOutcome {
    /// Its adopted tags were written.
    Written,
    /// It could not be read; the text says why.
    LoadFailed(String),
    /// Inference on it failed; the text says why.
    InferFailed(String),
    /// Its tag file could not be written; the text says why.
    WriteFailed(String),
}

/// The message of a failed image.
pub open spec fn outcome_message(path: Seq<char>, outcome: InferOutcome) -> Seq<char> {
    match outcome {
        InferOutcome::Written => Seq::empty(),
        InferOutcome::LoadFailed(e) => path + ": 画像読込に失敗: "@ + e@,
        InferOutcome::InferFailed(e) => path + ": 推論に失敗: "@ + e@,
        InferOutcome::WriteFailed(e) => path + ": 書込に失敗: "@ + e@,
    }
}

impl InferResult {
    /// The result before any image ran: how many videos were left out of
    /// the `requested` paths to keep `kept`.
    pub fn start(requested: usize, kept: usize) -> (r: InferResult)
        requires
            kept <= requested,
        ensures
            infer_view(r) == (0usize, 0usize, (requested - kept) as usize, 0usize, Seq::<Seq<char>>::empty()),
    {
        InferResult {
            succeeded: 0,
            failed: 0,
            excluded: requested - kept,
            cancelled: 0,
            messages: Vec::new(),
        }
    }

    /// Records how one image ended: a success is counted; a failure is
    /// counted with its message.
    pub fn record(&mut self, path: &str, outcome: &InferOutcome)
        requires
            old(self).succeeded < usize::MAX,
            old(self).failed < usize::MAX,
        ensures
            match *outcome {
                InferOutcome::Written => infer_view(*final(self)) == (
                    (old(self).succeeded + 1) as usize,
                    old(self).failed,
                    old(self).excluded,
                    old(self).cancelled,
                    string_views(old(self).messages@),
                ),
                _ => infer_view(*final(self)) == (
                    old(self).succeeded,
                    (old(self).failed + 1) as usize,
                    old(self).excluded,
                    old(self).cancelled,
                    string_views(old(self).messages@).push(outcome_message(path@, *outcome)),
                ),
            },
    {
        let ghost before = self.messages@;
        let m = match outcome {
            InferOutcome::Written => {
                self.succeeded += 1;
                return ;
            },
            InferOutcome::LoadFailed(e) => concat3(path, ": 画像読込に失敗: ", e.as_str()),
            InferOutcome::InferFailed(e) => concat3(path, ": 推論に失敗: ", e.as_str()),
            InferOutcome::WriteFailed(e) => concat3(path, ": 書込に失敗: ", e.as_str()),
        };
        self.failed += 1;
        self.messages.push(m);
        proof {
            assert(string_views(self.messages@) =~= string_views(before).push(m@));
        }
    }

    /// Records a cancellation after `done` of `total` images: the rest are
    /// counted as cancelled, with a message giving their number.
    pub fn cancel(&mut self, total: usize, done: usize)
        requires
            done <= total,
        ensures
            infer_view(*final(self)) == (
                old(self).succeeded,
                old(self).failed,
                old(self).excluded,
                (total - done) as usize,
                string_views(old(self).messages@).push(
                    "キャンセルにより "@ + dec((total - done) as nat) + " 件を中止"@,
                ),
            ),
    {
        let n = total - done;
        self.cancelled = n;
        let d = dec_chars(n as u64);
        let ds = string_of(&d);
        let m = concat3("キャンセルにより ", ds.as_str(), " 件を中止");
        let ghost before = self.messages@;
        self.messages.push(m);
        proof {
            assert(string_views(self.messages@) =~= string_views(before).push(m@));
        }
    }
}

/// The progress report of a run after `done` of `total` images.
pub fn progress(operation_id: &str, done: usize, total: usize) -> (p: Progress)
    ensures
        p.operation_id@ == operation_id@,
        p.done == done,
        p.total == total,
{
    Progress { operation_id: owned(operation_id), done, total }
}


// ---------------------------------------------------------------------------
// Preprocessing
// ---------------------------------------------------------------------------

/// What `DynamicImage::resize_exact(size, size, FilterType::Triangle)`
/// gives for the file `name` with content `bytes`, decoded as
/// [`decoded_rgba`] decodes it and resized at its own colour type, then as
/// 8-bit RGBA pixels.
pub uninterp spec fn resized_rgba(name: Seq<char>, bytes: Seq<u8>, size: u32) -> Option<Seq<u8>>;

/// Decodes as [`decode_rgba`] does (`None` where that fails), resizes the
/// decoded image with `DynamicImage::resize_exact` and the triangle filter,
/// then converts it with `to_rgba8`. Claimed: the result is
/// [`resized_rgba`] of the arguments.
#[verifier::external_body]
fn resize_rgba(name: &str, bytes: &[u8], size: u32) -> (r: Option<Vec<u8>>)
    ensures
        match r {
            Some(p) => resized_rgba(name@, bytes@, size) == Some(p@),
            None => resized_rgba(name@, bytes@, size) is None,
        },
{
    let format = image::ImageFormat::from_path(name).ok()?;
    let img = image::load_from_memory_with_format(bytes, format).ok()?;
    let filter = image::imageops::FilterType::Triangle;
    Some(img.resize_exact(size, size, filter).to_rgba8().into_raw())
}

/// The channel of a pixel that comes `k`-th (0, 1 or 2) in `order`: red,
/// green, blue are 0, 1, 2 in an RGBA pixel.
pub open spec fn channel_at(order: ChannelOrder, k: int) -> int {
    match order {
        ChannelOrder::Bgr => 2 - k,
        ChannelOrder::Rgb => k,
    }
}

/// The colour values of RGBA pixels, three per pixel in `order`, pixel by
/// pixel (alpha dropped).
pub open spec fn channel_layout(rgba: Seq<u8>, order: ChannelOrder) -> Seq<u8> {
    Seq::new((3 * (rgba.len() / 4)) as nat, |i: int| rgba[4 * (i / 3) + channel_at(order, i % 3)])
}

/// The colour values of RGBA pixels in `order` (see [`channel_layout`]).
pub fn channel_values(rgba: &Vec<u8>, order: ChannelOrder) -> (out: Vec<u8>)
    ensures
        out@ == channel_layout(rgba@, order),
{
    let n = rgba.len() / 4;
    let ghost want = channel_layout(rgba@, order);
    let mut out: Vec<u8> = Vec::new();
    let mut p: usize = 0;
    while p < n
        invariant
            n == rgba.len() / 4,
            p <= n,
            want == channel_layout(rgba@, order),
            out@ == want.take(3 * p),
        decreases n - p,
    {
        let base = 4 * p;
        let (r, g, b) = (rgba[base], rgba[base + 1], rgba[base + 2]);
        let ghost before = out@;
        match order {
            ChannelOrder::Bgr => {
                out.push(b);
                out.push(g);
                out.push(r);
            },
            ChannelOrder::Rgb => {
                out.push(r);
                out.push(g);
                out.push(b);
            },
        }
        proof {
            assert forall|i: int| 3 * p <= i < 3 * p + 3 implies (#[trigger] want[i]) == out@[i] by {
                assert(i / 3 == p && i % 3 == i - 3 * p) by (nonlinear_arith)
                    requires
                        3 * p <= i < 3 * p + 3,
                ;
            }
            assert(out@ =~= want.take(3 * p + 3));
        }
        p += 1;
    }
    proof {
        assert(want.take(3 * n) =~= want);
    }
    out
}

/// The model input of an image, with the pixel values before they become
/// floating point: the file `name` with content `bytes` decoded (an error
/// where it cannot be), resized to `input_size` x `input_size`, and laid
/// out row by row, three values per pixel in `order` (empty for size 0).
pub fn preprocess_image(name: &str, bytes: &[u8], input_size: u32, order: ChannelOrder) -> (r: Result<Vec<u8>, String>)
    ensures
        match decoded_rgba(name@, bytes@) {
            None => r is Err,
            Some(_) => if input_size == 0 {
                r matches Ok(t) && t@.len() == 0
            } else {
                match resized_rgba(name@, bytes@, input_size) {
                    Some(q) => if q.len() == 4 * input_size * input_size {
                        r matches Ok(t) && t@ == channel_layout(q, order) && t@.len() == 3
                            * input_size * input_size
                    } else {
                        r is Err
                    },
                    None => r is Err,
                }
            },
        },
{
    decode_rgba(name, bytes)?;
    if input_size == 0 {
        return Ok(Vec::new());
    }
    let q = match resize_rgba(name, bytes, input_size) {
        Some(q) => q,
        None => return Err(owned("画像の縮小に失敗しました")),
    };
    let side: u128 = input_size as u128;
    assert(side * side <= 0xffff_ffff * 0xffff_ffff) by (nonlinear_arith)
        requires
            side <= 0xffff_ffff,
    ;
    let need: u128 = 4 * (side * side);
    assert(need == 4 * input_size * input_size) by (nonlinear_arith)
        requires
            need == 4 * (side * side),
            side == input_size,
    ;
    let len: u128 = q.len() as u128;
    if len != need {
        return Err(owned("画像の縮小に失敗しました"));
    }
    let t = channel_values(&q, order);
    proof {
        assert(3 * (q@.len() / 4) == 3 * input_size * input_size) by (nonlinear_arith)
            requires
                q@.len() == 4 * input_size * input_size,
        ;
    }
    Ok(t)
}

/// Leaving out videos never adds paths.
proof fn lemma_without_videos_len(paths: Seq<Seq<char>>)
    ensures
        without_videos(paths).len() <= paths.len(),
    decreases paths.len(),
{
    if paths.len() > 0 {
        lemma_without_videos_len(paths.drop_last());
    }
}

/// A batch inference, batch by batch: the videos are left out, the rest cut
/// into batches; before each batch the caller passes the cancel flag, and
/// after each image how it ended. A cancel stops the run at a batch boundary
/// and counts the images not reached as cancelled.
pub struct InferRun {
    operation_id: String,
    batches: Vec<Vec<String>>,
    next: usize,
    total: usize,
    done: usize,
    result: InferResult,
    stopped: bool,
}

impl InferRun {
    /// The batches, in order.
    pub closed spec fn batches(&self) -> Seq<Seq<Seq<char>>> {
        list_views(self.batches@)
    }

    /// How many batches were handed out.
    pub closed spec fn handed_out(&self) -> nat {
        self.next as nat
    }

    /// How many images are to be inferred (the videos left out).
    pub closed spec fn total(&self) -> nat {
        self.total as nat
    }

    /// How many images were reported.
    pub closed spec fn done(&self) -> nat {
        self.done as nat
    }

    /// The tally so far.
    pub closed spec fn tally(&self) -> (usize, usize, usize, usize, Seq<Seq<char>>) {
        infer_view(self.result)
    }

    /// Whether a cancel stopped the run.
    pub closed spec fn stopped(&self) -> bool {
        self.stopped
    }

    /// The identifier that progress reports carry.
    pub closed spec fn operation(&self) -> Seq<char> {
        self.operation_id@
    }

    /// What holds of every run.
    pub closed spec fn well_formed(&self) -> bool {
        &&& self.next <= self.batches@.len()
        &&& self.done <= self.total
        &&& self.result.succeeded + self.result.failed == self.done
        &&& flatten(list_views(self.batches@)).len() == self.total
        &&& self.stopped ==> self.result.cancelled + self.done == self.total
    }

    /// A run over `paths`: the videos left out (counted as excluded), the
    /// rest cut into batches of the resolved size (see
    /// [`resolve_batch_size`]).
    pub fn new(operation_id: &str, paths: &Vec<String>, batch_size: Option<u32>) -> (r: InferRun)
        ensures
            r.well_formed(),
            is_batching(
                without_videos(string_views(paths@)),
                r.batches(),
                resolve_spec(batch_size) as nat,
            ),
            r.total() == without_videos(string_views(paths@)).len(),
            r.handed_out() == 0,
            r.done() == 0,
            !r.stopped(),
            r.operation() == operation_id@,
            r.tally() == (0usize, 0usize, (paths.len() - r.total()) as usize, 0usize, Seq::<Seq<char>>::empty()),
    {
        let kept = exclude_videos(paths);
        proof {
            lemma_without_videos_len(string_views(paths@));
        }
        let size = resolve_batch_size(batch_size);
        let batches = split_into_batches(&kept, size);
        let result = InferResult::start(paths.len(), kept.len());
        InferRun {
            operation_id: owned(operation_id),
            batches,
            next: 0,
            total: kept.len(),
            done: 0,
            result,
            stopped: false,
        }
    }

    /// The next batch, given the cancel flag as read now: none once the
    /// batches are handed out or the run stopped; when a cancel is asked,
    /// none, and the images not reached are counted as cancelled.
    pub fn next_batch(&mut self, cancel_requested: bool) -> (b: Option<Vec<String>>)
        requires
            old(self).well_formed(),
        ensures
            final(self).well_formed(),
            final(self).batches() == old(self).batches(),
            final(self).total() == old(self).total(),
            final(self).done() == old(self).done(),
            final(self).operation() == old(self).operation(),
            if old(self).stopped() || old(self).handed_out() == old(self).batches().len() {
                b is None && final(self).tally() == old(self).tally() && final(self).stopped()
                    == old(self).stopped() && final(self).handed_out() == old(self).handed_out()
            } else if cancel_requested {
                b is None && final(self).stopped() && final(self).handed_out()
                    == old(self).handed_out() && final(self).tally() == (
                    old(self).tally().0,
                    old(self).tally().1,
                    old(self).tally().2,
                    (old(self).total() - old(self).done()) as usize,
                    old(self).tally().4.push(
                        "キャンセルにより "@ + dec((old(self).total() - old(self).done()) as nat)
                            + " 件を中止"@,
                    ),
                )
            } else {
                b matches Some(batch) && string_views(batch@) == old(self).batches()[old(
                    self,
                ).handed_out() as int] && final(self).handed_out() == old(self).handed_out() + 1
                    && final(self).tally() == old(self).tally() && !final(self).stopped()
            },
            final(self).stopped() ==> final(self).tally().0 + final(self).tally().1
                + final(self).tally().3 == final(self).total(),
    {
        if self.stopped || self.next == self.batches.len() {
            return None;
        }
        if cancel_requested {
            self.result.cancel(self.total, self.done);
            self.stopped = true;
            return None;
        }
        let batch = crate::models::clone_strings(&self.batches[self.next]);
        proof {
            assert(list_views(self.batches@)[self.next as int] == string_views(
                self.batches@[self.next as int]@,
            ));
        }
        self.next = self.next + 1;
        Some(batch)
    }

    /// Records how one image ended (see [`InferResult::record`]) and gives
    /// the progress to report: one more image done, of the total.
    pub fn record(&mut self, path: &str, outcome: &InferOutcome) -> (p: Progress)
        requires
            old(self).well_formed(),
            !old(self).stopped(),
            old(self).done() < old(self).total(),
        ensures
            final(self).well_formed(),
            final(self).batches() == old(self).batches(),
            final(self).handed_out() == old(self).handed_out(),
            final(self).total() == old(self).total(),
            final(self).done() == old(self).done() + 1,
            final(self).stopped() == old(self).stopped(),
            final(self).operation() == old(self).operation(),
            match *outcome {
                InferOutcome::Written => final(self).tally() == (
                    (old(self).tally().0 + 1) as usize,
                    old(self).tally().1,
                    old(self).tally().2,
                    old(self).tally().3,
                    old(self).tally().4,
                ),
                _ => final(self).tally() == (
                    old(self).tally().0,
                    (old(self).tally().1 + 1) as usize,
                    old(self).tally().2,
                    old(self).tally().3,
                    old(self).tally().4.push(outcome_message(path@, *outcome)),
                ),
            },
            p.operation_id@ == old(self).operation(),
            p.done == old(self).done() + 1,
            p.total == old(self).total(),
    {
        self.result.record(path, outcome);
        self.done = self.done + 1;
        progress(self.operation_id.as_str(), self.done, self.total)
    }

    /// The tally of the run.
    pub fn finish(self) -> (r: InferResult)
        ensures
            infer_view(r) == self.tally(),
    {
        self.result
    }
}

/// The batch size that [`resolve_batch_size`] gives.
pub open spec fn resolve_spec(requested: Option<u32>) -> u32 {
    match requested {
        None => DEFAULT_BATCH_SIZE,
        Some(v) => if v < MIN_BATCH_SIZE {
            MIN_BATCH_SIZE
        } else if v > MAX_BATCH_SIZE {
            MAX_BATCH_SIZE
        } else {
            v
        },
    }
}

/// No video is left among the paths to infer, and every other path is.
pub proof fn law_without_videos(paths: Seq<Seq<char>>)
    ensures
        forall|i: int| 0 <= i < without_videos(paths).len() ==> !is_video_path(#[trigger] without_videos(paths)[i]),
        forall|i: int| 0 <= i < paths.len() && !is_video_path(#[trigger] paths[i]) ==> without_videos(paths).contains(paths[i]),
    decreases paths.len(),
{
    if paths.len() > 0 {
        law_without_videos(paths.drop_last());
        let r = without_videos(paths.drop_last());
        assert forall|i: int| 0 <= i < paths.len() && !is_video_path(#[trigger] paths[i]) implies without_videos(paths).contains(paths[i]) by {
            if i < paths.len() - 1 {
                assert(paths.drop_last()[i] == paths[i]);
                let j = choose|j: int| 0 <= j < r.len() && r[j] == paths[i];
                assert(without_videos(paths)[j] == paths[i]);
            } else {
                assert(without_videos(paths).last() == paths[i]);
            }
        }
    }
}


/// A run accounts for every image it was given: those written and those
/// that failed are the images reported, never more than the images to
/// infer, and once a cancel stopped the run, the images written, failed
/// and cancelled add up to all of them.
pub proof fn law_run_accounts_for_every_image(r: InferRun)
    requires
        r.well_formed(),
    ensures
        r.tally().0 + r.tally().1 == r.done(),
        r.done() <= r.total(),
        r.stopped() ==> r.tally().0 + r.tally().1 + r.tally().3 == r.total(),
{
}

} // verus!
