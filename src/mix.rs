use vstd::prelude::*;

verus! {

/// The number of samples summed together in one lane.
pub const LANE: usize = 32;

/// The sample that `sum_fn` gives for `a` and `b`.
pub open spec fn apply<T, F: Fn(T, T) -> T>(sum_fn: F, a: T, b: T) -> T {
    choose|r: T| call_ensures(sum_fn, (a, b), r)
}

/// `sum_fn` accepts any two samples and gives one result for each pair: it is a function.
pub open spec fn is_sample_sum<T, F: Fn(T, T) -> T>(sum_fn: F) -> bool {
    &&& forall|a: T, b: T| call_requires(sum_fn, (a, b))
    &&& forall|a: T, b: T, r: T| call_ensures(sum_fn, (a, b), r) ==> r == apply(sum_fn, a, b)
}

/// The sample at global index `g` after a clip whose first sample sits at `offset` is added
/// onto `acc`.
pub open spec fn contribute<T, F: Fn(T, T) -> T>(sum_fn: F, acc: T, offset: int, samples: Seq<T>, g: int) -> T {
    if offset <= g < offset + samples.len() {
        apply(sum_fn, acc, samples[g - offset])
    } else {
        acc
    }
}

/// The mixed sample at global index `g`: silence, with every clip that covers `g` added
/// onto it, in order.
pub open spec fn sample_at<T, F: Fn(T, T) -> T>(sum_fn: F, silence: T, clips: Seq<(int, Seq<T>)>, g: int) -> T
    decreases clips.len(),
{
    if clips.len() == 0 {
        silence
    } else {
        contribute(sum_fn, sample_at(sum_fn, silence, clips.drop_last(), g), clips.last().0, clips.last().1, g)
    }
}

/// The mixed samples of the global range `[start, end)`.
pub open spec fn window_model<T, F: Fn(T, T) -> T>(
    sum_fn: F,
    silence: T,
    clips: Seq<(int, Seq<T>)>,
    start: int,
    end: int,
) -> Seq<T> {
    Seq::new((end - start) as nat, |k: int| sample_at(sum_fn, silence, clips, start + k))
}

/// Mixing `[a, b)` and then `[b, c)` gives, end to end, the mix of `[a, c)`: a window is a
/// slice of one timeline.
pub proof fn lemma_window_concat<T, F: Fn(T, T) -> T>(
    sum_fn: F,
    silence: T,
    clips: Seq<(int, Seq<T>)>,
    a: int,
    b: int,
    c: int,
)
    requires
        a <= b <= c,
    ensures
        window_model(sum_fn, silence, clips, a, b) + window_model(sum_fn, silence, clips, b, c)
            == window_model(sum_fn, silence, clips, a, c),
{
    assert(window_model(sum_fn, silence, clips, a, b) + window_model(sum_fn, silence, clips, b, c)
        =~= window_model(sum_fn, silence, clips, a, c));
}

/// A lone clip at the start of the timeline comes out verbatim, where adding a sample onto
/// silence leaves the sample as it is.
pub proof fn lemma_single_clip_verbatim<T, F: Fn(T, T) -> T>(sum_fn: F, silence: T, s: Seq<T>)
    requires
        forall|x: T| #[trigger] apply(sum_fn, silence, x) == x,
    ensures
        window_model(sum_fn, silence, seq![(0int, s)], 0, s.len() as int) == s,
{
    let clips = seq![(0int, s)];
    assert forall|k: int| 0 <= k < s.len() implies #[trigger] sample_at(sum_fn, silence, clips, k) == s[k] by {
        assert(clips.drop_last() =~= Seq::<(int, Seq<T>)>::empty());
        assert(sample_at(sum_fn, silence, clips.drop_last(), k) == silence);
        assert(clips.last() == (0int, s));
        assert(contribute(sum_fn, silence, 0, s, k) == apply(sum_fn, silence, s[k]));
        assert(apply(sum_fn, silence, s[k]) == s[k]);
    }
    assert(window_model(sum_fn, silence, clips, 0, s.len() as int) =~= s);
}

/// Each sample of `dst` with the sample of `src` at the same index added.
pub open spec fn pointwise_add<T, F: Fn(T, T) -> T>(sum_fn: F, dst: Seq<T>, src: Seq<T>) -> Seq<T> {
    Seq::new(dst.len(), |i: int| apply(sum_fn, dst[i], src[i]))
}

/// `s` filled up with silence to a whole lane.
pub open spec fn padded<T>(s: Seq<T>, silence: T) -> Seq<T> {
    Seq::new(LANE as nat, |j: int| if j < s.len() { s[j] } else { silence })
}

/// One lane: both sides padded to a whole lane, summed, and only the real samples kept.
pub open spec fn lane_add<T, F: Fn(T, T) -> T>(sum_fn: F, silence: T, dst: Seq<T>, src: Seq<T>) -> Seq<T> {
    pointwise_add(sum_fn, padded(dst, silence), padded(src, silence)).take(dst.len() as int)
}

/// A region summed lane by lane, the last lane possibly short.
pub open spec fn lanes_add<T, F: Fn(T, T) -> T>(sum_fn: F, silence: T, dst: Seq<T>, src: Seq<T>) -> Seq<T>
    decreases dst.len(),
{
    if dst.len() <= LANE {
        lane_add(sum_fn, silence, dst, src)
    } else {
        lane_add(sum_fn, silence, dst.take(LANE as int), src.take(LANE as int)) + lanes_add(
            sum_fn,
            silence,
            dst.skip(LANE as int),
            src.skip(LANE as int),
        )
    }
}

/// Summing a region lane by lane, with padded lanes, gives exactly the samples of summing it
/// one sample at a time.
pub proof fn lemma_lanes_match_pointwise<T, F: Fn(T, T) -> T>(sum_fn: F, silence: T, dst: Seq<T>, src: Seq<T>)
    requires
        dst.len() <= src.len(),
    ensures
        lanes_add(sum_fn, silence, dst, src) == pointwise_add(sum_fn, dst, src.take(dst.len() as int)),
    decreases dst.len(),
{
    if dst.len() <= LANE {
        assert(lanes_add(sum_fn, silence, dst, src) =~= pointwise_add(sum_fn, dst, src.take(dst.len() as int)));
    } else {
        let l = LANE as int;
        lemma_lanes_match_pointwise(sum_fn, silence, dst.skip(l), src.skip(l));
        assert(lane_add(sum_fn, silence, dst.take(l), src.take(l)) =~= pointwise_add(
            sum_fn,
            dst.take(l),
            src.take(l),
        ));
        assert(lanes_add(sum_fn, silence, dst, src) =~= pointwise_add(sum_fn, dst, src.take(dst.len() as int)));
    }
}

/// `new` is `old` with `[at, at + n)` summed with `src` from `src_at` on.
pub open spec fn region_added<T, F: Fn(T, T) -> T>(
    sum_fn: F,
    old: Seq<T>,
    new: Seq<T>,
    at: int,
    src: Seq<T>,
    src_at: int,
    n: int,
) -> bool {
    &&& new.len() == old.len()
    &&& forall|k: int|
        0 <= k < old.len() ==> #[trigger] new[k] == if at <= k < at + n {
            apply(sum_fn, old[k], src[src_at + k - at])
        } else {
            old[k]
        }
}

/// Adds `src[src_at .. src_at + n]` onto `buffer[at .. at + n]`, one sample at a time.
pub fn add_pointwise<T: Copy, F: Fn(T, T) -> T>(
    buffer: &mut Vec<T>,
    at: usize,
    src: &[T],
    src_at: usize,
    n: usize,
    sum_fn: &F,
)
    requires
        is_sample_sum(*sum_fn),
        at + n <= old(buffer)@.len(),
        src_at + n <= src@.len(),
    ensures
        region_added(*sum_fn, old(buffer)@, final(buffer)@, at as int, src@, src_at as int, n as int),
{
    let ghost start = buffer@;
    let buf_len = buffer.len();
    let mut i: usize = 0;
    while i < n
        invariant
            is_sample_sum(*sum_fn),
            i <= n,
            buffer@.len() == buf_len == start.len(),
            at + n <= start.len(),
            src_at + n <= src@.len(),
            region_added(*sum_fn, start, buffer@, at as int, src@, src_at as int, i as int),
        decreases n - i,
    {
        let sum = sum_fn(buffer[at + i], src[src_at + i]);
        let ghost prev = buffer@;
        buffer[at + i] = sum;
        proof {
            assert forall|k: int| 0 <= k < start.len() implies #[trigger] buffer@[k] == if at <= k < at + i + 1 {
                apply(*sum_fn, start[k], src@[src_at + k - at])
            } else {
                start[k]
            } by {
                if k != at + i {
                    assert(buffer@[k] == prev[k]);
                }
            }
        }
        i = i + 1;
    }
}

/// The sum of one lane: both sides padded with silence to a whole lane and summed.
fn lane_sum<T: Copy, F: Fn(T, T) -> T>(dst: &Vec<T>, src: &Vec<T>, sum_fn: &F) -> (r: Vec<T>)
    requires
        is_sample_sum(*sum_fn),
        dst@.len() == LANE,
        src@.len() == LANE,
    ensures
        r@ == pointwise_add(*sum_fn, dst@, src@),
{
    let mut r: Vec<T> = Vec::with_capacity(LANE);
    let mut j: usize = 0;
    while j < LANE
        invariant
            is_sample_sum(*sum_fn),
            j <= LANE,
            dst@.len() == LANE,
            src@.len() == LANE,
            r@ =~= pointwise_add(*sum_fn, dst@, src@).take(j as int),
        decreases LANE - j,
    {
        r.push(sum_fn(dst[j], src[j]));
        j = j + 1;
    }
    r
}

/// Adds `src[src_at .. src_at + n]` onto `buffer[at .. at + n]` lane by lane: each lane loads
/// both sides, padding a short last lane with silence, sums the whole lane at once, and
/// writes back only the real samples.
pub fn add_lanes<T: Copy, F: Fn(T, T) -> T>(
    buffer: &mut Vec<T>,
    at: usize,
    src: &[T],
    src_at: usize,
    n: usize,
    silence: T,
    sum_fn: &F,
)
    requires
        is_sample_sum(*sum_fn),
        at + n <= old(buffer)@.len(),
        src_at + n <= src@.len(),
    ensures
        region_added(*sum_fn, old(buffer)@, final(buffer)@, at as int, src@, src_at as int, n as int),
        final(buffer)@.subrange(at as int, at + n) == lanes_add(
            *sum_fn,
            silence,
            old(buffer)@.subrange(at as int, at + n),
            src@.subrange(src_at as int, src_at + n),
        ),
{
    let ghost start = buffer@;
    let buf_len = buffer.len();
    let src_len = src.len();
    let mut done: usize = 0;
    while done < n
        invariant
            is_sample_sum(*sum_fn),
            done <= n,
            buffer@.len() == buf_len == start.len(),
            src@.len() == src_len,
            at + n <= start.len(),
            src_at + n <= src@.len(),
            region_added(*sum_fn, start, buffer@, at as int, src@, src_at as int, done as int),
        decreases n - done,
    {
        let width = if n - done < LANE {
            n - done
        } else {
            LANE
        };
        let mut dst_lane: Vec<T> = Vec::with_capacity(LANE);
        let mut src_lane: Vec<T> = Vec::with_capacity(LANE);
        let mut j: usize = 0;
        while j < LANE
            invariant
                j <= LANE,
                width <= LANE,
                done + width <= n,
                at + n <= buffer@.len(),
                buffer@.len() == buf_len,
                src_at + n <= src@.len() == src_len,
                dst_lane@ =~= padded(buffer@.subrange(at + done, at + done + width), silence).take(j as int),
                src_lane@ =~= padded(src@.subrange(src_at + done, src_at + done + width), silence).take(j as int),
            decreases LANE - j,
        {
            if j < width {
                dst_lane.push(buffer[at + done + j]);
                src_lane.push(src[src_at + done + j]);
            } else {
                dst_lane.push(silence);
                src_lane.push(silence);
            }
            j = j + 1;
        }
        let sum = lane_sum(&dst_lane, &src_lane, sum_fn);
        let ghost before = buffer@;
        let mut w: usize = 0;
        while w < width
            invariant
                w <= width <= LANE,
                done + width <= n,
                at + n <= before.len(),
                sum@.len() == LANE,
                buffer@.len() == before.len() == buf_len,
                forall|k: int| 0 <= k < before.len() ==> #[trigger] buffer@[k] == if at + done <= k < at + done + w {
                    sum@[k - at - done]
                } else {
                    before[k]
                },
            decreases width - w,
        {
            buffer[at + done + w] = sum[w];
            w = w + 1;
        }
        proof {
            assert forall|k: int| 0 <= k < start.len() implies #[trigger] buffer@[k] == if at <= k < at + done + width {
                apply(*sum_fn, start[k], src@[src_at + k - at])
            } else {
                start[k]
            } by {
                if at + done <= k < at + done + width {
                    let j = k - at - done;
                    assert(dst_lane@[j] == before[k]);
                    assert(src_lane@[j] == src@[src_at + k - at]);
                    assert(before[k] == start[k]);
                } else {
                    assert(buffer@[k] == before[k]);
                }
            }
        }
        done = done + width;
    }
    proof {
        let d = start.subrange(at as int, at + n);
        let s = src@.subrange(src_at as int, src_at + n);
        lemma_lanes_match_pointwise(*sum_fn, silence, d, s);
        assert(buffer@.subrange(at as int, at + n) =~= pointwise_add(*sum_fn, d, s.take(d.len() as int)));
    }
}

/// Where a clip at `offset` with `len` samples meets the window `[start, end)`: the first and
/// one-past-last global index of the overlap, empty where they do not meet.
pub open spec fn overlap(start: int, end: int, offset: int, len: int) -> (int, int) {
    let lo = if offset > start { offset } else { start };
    let hi = if offset + len < end { offset + len } else { end };
    (lo, hi)
}

/// Adds the part of a clip that falls inside the window `[start, start + buffer.len())` onto
/// `buffer`, lane by lane or one sample at a time.
pub fn add_clip<T: Copy, F: Fn(T, T) -> T>(
    buffer: &mut Vec<T>,
    start: usize,
    offset: usize,
    samples: &[T],
    silence: T,
    sum_fn: &F,
    lanes: bool,
)
    requires
        is_sample_sum(*sum_fn),
        start + old(buffer)@.len() <= usize::MAX,
    ensures
        final(buffer)@.len() == old(buffer)@.len(),
        forall|k: int|
            0 <= k < old(buffer)@.len() ==> #[trigger] final(buffer)@[k] == contribute(
                *sum_fn,
                old(buffer)@[k],
                offset as int,
                samples@,
                start + k,
            ),
{
    let end = start + buffer.len();
    let clip_end = if samples.len() <= usize::MAX - offset {
        offset + samples.len()
    } else {
        usize::MAX
    };
    let lo = if offset > start {
        offset
    } else {
        start
    };
    let hi = if clip_end < end {
        clip_end
    } else {
        end
    };
    if lo < hi {
        let n = hi - lo;
        if lanes {
            add_lanes(buffer, lo - start, samples, lo - offset, n, silence, sum_fn);
        } else {
            add_pointwise(buffer, lo - start, samples, lo - offset, n, sum_fn);
        }
    }
}

} // verus!
