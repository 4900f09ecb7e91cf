use vstd::prelude::*;
use vstd::arithmetic::div_mod::{lemma_div_is_ordered, lemma_fundamental_div_mod};
use vstd::arithmetic::mul::lemma_mul_inequality;

verus! {

/// Milliseconds that animated-WebP frame `frame` is shown at `fps` frames
/// per second: the difference of consecutive whole-millisecond timestamps,
/// so that the durations add up to the exact total.
pub open spec fn spec_webp_frame_duration_ms(frame: int, fps: int) -> int {
    (frame + 1) * 1000 / fps - frame * 1000 / fps
}

/// Sum of the durations of the first `count` frames.
pub open spec fn spec_webp_total_ms(count: nat, fps: int) -> int
    decreases count,
{
    if count == 0 {
        0
    } else {
        spec_webp_total_ms((count - 1) as nat, fps) + spec_webp_frame_duration_ms(count - 1, fps)
    }
}

proof fn lemma_div_step(a: int, b: int, f: int)
    requires
        f > 0,
        a >= 0,
        b >= 0,
    ensures
        a / f + b / f <= (a + b) / f <= a / f + b / f + 1,
{
    lemma_fundamental_div_mod(a, f);
    lemma_fundamental_div_mod(b, f);
    lemma_fundamental_div_mod(a + b, f);
    let qa = a / f;
    let qb = b / f;
    let q = (a + b) / f;
    let ra = a % f;
    let rb = b % f;
    let r = (a + b) % f;
    assert(qa + qb <= q <= qa + qb + 1) by (nonlinear_arith)
        requires
            f > 0,
            a == f * qa + ra,
            b == f * qb + rb,
            a + b == f * q + r,
            0 <= ra < f,
            0 <= rb < f,
            0 <= r < f,
    ;
}

/// Display time of one animated-WebP frame in milliseconds.
pub fn webp_frame_duration_ms(frame: usize, fps: u32) -> (r: u32)
    requires
        fps > 0,
        (frame + 1) * 1000 <= u64::MAX,
    ensures
        r == spec_webp_frame_duration_ms(frame as int, fps as int),
{
    let frame = frame as u64;
    let fps = fps as u64;
    proof {
        lemma_div_step(frame * 1000, 1000, fps as int);
        lemma_div_is_ordered(0, 1000, fps as int);
        lemma_div_is_ordered(1, fps as int, fps as int);
        assert(1000int / (fps as int) <= 1000);
    }
    (((frame + 1) * 1000 / fps) - (frame * 1000 / fps)) as u32
}

/// Law: the frame durations add up to the exact running time: the first
/// `count` frames last `count * 1000 / fps` milliseconds, rounded down.
pub proof fn lemma_webp_durations_sum_to_total(count: nat, fps: int)
    requires
        fps > 0,
    ensures
        spec_webp_total_ms(count, fps) == (count as int) * 1000 / fps,
    decreases count,
{
    if count > 0 {
        lemma_webp_durations_sum_to_total((count - 1) as nat, fps);
    }
}

/// Law: every frame lasts `1000 / fps` milliseconds, or one more (at 60 fps:
/// 16 or 17 ms).
pub proof fn lemma_webp_duration_bounds(frame: nat, fps: int)
    requires
        fps > 0,
    ensures
        1000int / fps <= spec_webp_frame_duration_ms(frame as int, fps) <= 1000int / fps + 1,
{
    lemma_div_step((frame as int) * 1000, 1000, fps);
}

/// Number of rendering workers: the requested thread count, capped at the
/// frame count, and at least one.
pub open spec fn spec_worker_count(threads: usize, frame_count: usize) -> usize {
    let capped = if threads < frame_count { threads } else { frame_count };
    if capped < 1 { 1 } else { capped }
}

/// First frame rendered by worker `worker` of `workers`.
pub open spec fn spec_frame_start(worker: int, workers: int, frame_count: int) -> int {
    worker * frame_count / workers
}

/// Number of workers that render `frame_count` frames with `threads` threads.
pub fn worker_count(threads: usize, frame_count: usize) -> (r: usize)
    ensures
        r == spec_worker_count(threads, frame_count),
{
    let capped = if threads < frame_count { threads } else { frame_count };
    if capped < 1 { 1 } else { capped }
}

/// The contiguous range of frames `[start, end)` that worker `worker_id`
/// renders.
pub fn worker_frame_range(worker_id: usize, workers: usize, frame_count: usize) -> (r: (usize, usize))
    requires
        worker_id < workers,
        (worker_id + 1) * frame_count <= usize::MAX,
    ensures
        r.0 == spec_frame_start(worker_id as int, workers as int, frame_count as int),
        r.1 == spec_frame_start(worker_id + 1, workers as int, frame_count as int),
{
    proof {
        lemma_mul_inequality(worker_id as int, worker_id + 1, frame_count as int);
        lemma_div_is_ordered(worker_id * frame_count, (worker_id + 1) * frame_count, workers as int);
        lemma_div_is_ordered(0, worker_id * frame_count, workers as int);
    }
    let start = worker_id * frame_count / workers;
    let end = (worker_id + 1) * frame_count / workers;
    (start, end)
}

/// Law: the worker count is at least one and never exceeds the thread count
/// (when that is positive) nor the frame count (when that is positive).
pub proof fn lemma_worker_count_bounds(threads: usize, frame_count: usize)
    ensures
        spec_worker_count(threads, frame_count) >= 1,
        threads > 0 ==> spec_worker_count(threads, frame_count) <= threads,
        frame_count > 0 ==> spec_worker_count(threads, frame_count) <= frame_count,
        threads > 0 && frame_count > 0 ==> (spec_worker_count(threads, frame_count) == threads
            || spec_worker_count(threads, frame_count) == frame_count),
        threads == 0 || frame_count == 0 ==> spec_worker_count(threads, frame_count) == 1,
{
}

proof fn lemma_frame_start_monotonic(i: int, j: int, workers: int, frame_count: int)
    requires
        0 <= i <= j,
        workers > 0,
        frame_count >= 0,
    ensures
        spec_frame_start(i, workers, frame_count) <= spec_frame_start(j, workers, frame_count),
{
    lemma_mul_inequality(i, j, frame_count);
    lemma_div_is_ordered(i * frame_count, j * frame_count, workers);
}

/// Law: the workers' frame ranges split `0..frame_count` into contiguous,
/// disjoint pieces in worker order: the first starts at frame 0, each ends
/// where the next begins, the last ends at `frame_count`, and every frame
/// belongs to exactly one worker. With at least as many frames as workers,
/// no worker's range is empty.
pub proof fn lemma_worker_ranges_partition(workers: int, frame_count: int)
    requires
        workers > 0,
        frame_count >= 0,
    ensures
        spec_frame_start(0, workers, frame_count) == 0,
        spec_frame_start(workers, workers, frame_count) == frame_count,
        forall|i: int, j: int|
            0 <= i <= j ==> spec_frame_start(i, workers, frame_count) <= spec_frame_start(j, workers, frame_count),
        frame_count >= workers ==> forall|i: int|
            0 <= i < workers ==> #[trigger] spec_frame_start(i, workers, frame_count) < spec_frame_start(i + 1, workers, frame_count),
        forall|f: int| 0 <= f < frame_count ==> #[trigger] spec_frame_has_worker(f, workers, frame_count),
        forall|f: int, i: int, j: int|
            0 <= i < workers && 0 <= j < workers && #[trigger] spec_worker_renders(i, f, workers, frame_count)
                && #[trigger] spec_worker_renders(j, f, workers, frame_count) ==> i == j,
{
    assert(0 * frame_count == 0);
    assert(workers * frame_count / workers == frame_count) by {
        lemma_fundamental_div_mod(workers * frame_count, workers);
        let q = workers * frame_count / workers;
        let r = workers * frame_count % workers;
        assert(q == frame_count) by (nonlinear_arith)
            requires
                workers > 0,
                workers * frame_count == workers * q + r,
                0 <= r < workers,
        ;
    }
    assert forall|i: int, j: int| 0 <= i <= j implies spec_frame_start(i, workers, frame_count)
        <= spec_frame_start(j, workers, frame_count) by {
        lemma_frame_start_monotonic(i, j, workers, frame_count);
    }
    if frame_count >= workers {
        assert forall|i: int| 0 <= i < workers implies #[trigger] spec_frame_start(i, workers, frame_count)
            < spec_frame_start(i + 1, workers, frame_count) by {
            let a = i * frame_count;
            assert((i + 1) * frame_count == a + frame_count) by (nonlinear_arith)
                requires
                    a == i * frame_count,
            ;
            assert(a >= 0) by (nonlinear_arith)
                requires
                    i >= 0,
                    frame_count >= 0,
                    a == i * frame_count,
            ;
            lemma_div_is_ordered(a + workers, a + frame_count, workers);
            lemma_div_step(a, workers, workers);
            assert(workers / workers == 1) by (nonlinear_arith)
                requires
                    workers > 0,
            ;
        }
    }
    // Every frame lies in some worker's range: the last worker whose range
    // starts at or before it.
    assert forall|f: int| 0 <= f < frame_count implies #[trigger] spec_frame_has_worker(f, workers, frame_count) by {
        lemma_covering_worker(f, workers, frame_count, workers);
    }
    assert forall|f: int, i: int, j: int|
        0 <= i < workers && 0 <= j < workers && #[trigger] spec_worker_renders(i, f, workers, frame_count)
            && #[trigger] spec_worker_renders(j, f, workers, frame_count) implies i == j by {
        if i < j {
            lemma_frame_start_monotonic(i + 1, j, workers, frame_count);
        } else if j < i {
            lemma_frame_start_monotonic(j + 1, i, workers, frame_count);
        }
    }
}

/// Worker `i` renders frame `f`.
pub open spec fn spec_worker_renders(i: int, f: int, workers: int, frame_count: int) -> bool {
    spec_frame_start(i, workers, frame_count) <= f < spec_frame_start(i + 1, workers, frame_count)
}

/// Some worker renders frame `f`.
pub open spec fn spec_frame_has_worker(f: int, workers: int, frame_count: int) -> bool {
    exists|i: int| 0 <= i < workers && #[trigger] spec_worker_renders(i, f, workers, frame_count)
}

proof fn lemma_covering_worker(f: int, workers: int, frame_count: int, k: int)
    requires
        workers > 0,
        0 <= f < frame_count,
        0 < k <= workers,
        f < spec_frame_start(k, workers, frame_count),
    ensures
        exists|i: int| 0 <= i < k && #[trigger] spec_worker_renders(i, f, workers, frame_count),
    decreases k,
{
    assert(0 * frame_count == 0);
    if spec_frame_start(k - 1, workers, frame_count) <= f {
        assert(spec_worker_renders(k - 1, f, workers, frame_count));
    } else {
        lemma_covering_worker(f, workers, frame_count, k - 1);
    }
}

/// How many completed frames pass between two progress reports.
pub open spec fn spec_report_interval(total: usize) -> usize {
    if total / 100 < 1 { 1 } else { total / 100 }
}

/// Progress is reported about once per hundredth of the frames.
pub fn report_interval(total: usize) -> (r: usize)
    ensures
        r == spec_report_interval(total),
        r >= 1,
{
    let every = total / 100;
    if every < 1 { 1 } else { every }
}

/// Whether to print progress after `completed` frames when it was last
/// printed after `last_reported`: on the last frame, and whenever at least
/// `report_every` frames have passed.
pub fn should_report_progress(completed: usize, last_reported: usize, total: usize, report_every: usize) -> (r: bool)
    ensures
        r == (completed == total || (if completed > last_reported { completed - last_reported } else { 0 }) >= report_every),
{
    let passed = completed.saturating_sub(last_reported);
    !(completed != total && passed < report_every)
}


/// Law: progress is reported once per hundredth of the frames, rounded
/// down, and after every frame when there are fewer than 200 frames:
/// `100 * interval <= total < 100 * (interval + 1)` whenever `total >= 100`.
pub proof fn lemma_report_interval_is_a_hundredth(total: usize)
    ensures
        spec_report_interval(total) >= 1,
        total < 200 ==> spec_report_interval(total) == 1,
        total >= 100 ==> 100 * spec_report_interval(total) <= total < 100 * (spec_report_interval(total) + 1),
{
}

} // verus!
