//! Integer side of Detrended Fluctuation Analysis (DFA).
use vstd::prelude::*;

verus! {

/// `ceil(13 * n / 10) + 1`: the window size that follows `n` in the
/// log-equidistant DFA schedule (growth by a factor of 1.3, plus one).
pub open spec fn spec_next_window(n: int) -> int {
    (13 * n + 9) / 10 + 1
}

/// The next DFA window size after `n`: `ceil(1.3 * n) + 1`, computed
/// exactly in integer arithmetic.
pub fn next_window(n: usize) -> (r: usize)
    requires
        spec_next_window(n as int) <= usize::MAX,
    ensures
        r == spec_next_window(n as int),
        10 * (r - 1) >= 13 * n,
        10 * (r - 1) < 13 * n + 10,
{
    let wide: u128 = 13 * (n as u128) + 9;
    (wide / 10 + 1) as usize
}

/// Whether DFA can be run on a series of length `len` with window sizes
/// from `min_window` to `max_window`: the series holds at least four of the
/// largest windows, the smallest window has at least four samples, and the
/// largest window is larger than the smallest.
pub open spec fn dfa_params_valid(len: int, min_window: int, max_window: int) -> bool {
    &&& len >= max_window * 4
    &&& min_window >= 4
    &&& max_window > min_window
}

/// The window sizes DFA examines: starting at `n`, each next size by
/// [`spec_next_window`], up to `max_window`, keeping the sizes that fit at
/// least twice into a series of length `len`.
pub open spec fn window_schedule(n: int, max_window: int, len: int) -> Seq<int>
    decreases (if n <= max_window { max_window + 1 - n } else { 0 }),
{
    if n > max_window || n < 1 {
        Seq::empty()
    } else {
        let rest = window_schedule(spec_next_window(n), max_window, len);
        if len / n >= 2 {
            seq![n] + rest
        } else {
            rest
        }
    }
}

/// A sequence of `usize` read as integers.
pub open spec fn as_ints(v: Seq<usize>) -> Seq<int> {
    v.map_values(|x: usize| x as int)
}

/// The window sizes that DFA examines on a series of length `series_len`,
/// or `None` where the parameters are refused (see [`dfa_params_valid`]).
pub fn dfa_window_sizes(series_len: usize, min_window: usize, max_window: usize) -> (r: Option<
    Vec<usize>,
>)
    requires
        max_window <= usize::MAX / 4,
    ensures
        r is None <==> !dfa_params_valid(series_len as int, min_window as int, max_window as int),
        r matches Some(v) ==> as_ints(v@) == window_schedule(
            min_window as int,
            max_window as int,
            series_len as int,
        ),
        // refused exactly on the three bad-parameter conditions
        r is Some <==> (series_len >= 4 * max_window && min_window >= 4 && max_window > min_window),
        // on accepted parameters: the whole chain from `min_window`, each
        // next size `ceil(1.3 * previous) + 1`, cut only once it passes
        // `max_window`
        r matches Some(v) ==> {
            &&& v@.len() >= 1
            &&& v@[0] == min_window
            &&& forall|i: int|
                0 <= i < v@.len() - 1 ==> 10 * (v@[i + 1] - 1) >= 13 * #[trigger] v@[i] && 10 * (
                v@[i + 1] - 1) < 13 * v@[i] + 10
            &&& forall|i: int|
                0 <= i < v@.len() ==> #[trigger] v@[i] <= max_window && series_len >= 4 * v@[i]
            &&& 13 * v@[v@.len() - 1] > 10 * (max_window - 1)
        },
{
    if series_len < max_window * 4 || min_window < 4 || max_window <= min_window {
        return None;
    }
    let ghost full = window_schedule(min_window as int, max_window as int, series_len as int);
    let mut sizes: Vec<usize> = Vec::new();
    let mut n = min_window;
    while n <= max_window
        invariant
            4 <= min_window <= n,
            max_window <= usize::MAX / 4,
            full == window_schedule(min_window as int, max_window as int, series_len as int),
            as_ints(sizes@) + window_schedule(n as int, max_window as int, series_len as int)
                == full,
        decreases (if n <= max_window { max_window + 1 - n } else { 0 }),
    {
        let ghost before = sizes@;
        if series_len / n >= 2 {
            sizes.push(n);
            proof {
                assert(as_ints(sizes@) =~= as_ints(before) + seq![n as int]);
            }
        } else {
            proof {
                assert(as_ints(sizes@) =~= as_ints(before));
            }
        }
        proof {
            let rest = window_schedule(spec_next_window(n as int), max_window as int, series_len as int);
            assert(as_ints(sizes@) + rest =~= as_ints(before) + window_schedule(
                n as int,
                max_window as int,
                series_len as int,
            ));
        }
        n = next_window(n);
    }
    proof {
        assert(as_ints(sizes@) =~= as_ints(sizes@) + window_schedule(
            n as int,
            max_window as int,
            series_len as int,
        ));
        lemma_schedule_is_full_chain(min_window as int, max_window as int, series_len as int);
        let s = as_ints(sizes@);
        assert(s.len() == sizes@.len());
        assert forall|i: int| 0 <= i < sizes@.len() implies #[trigger] sizes@[i] == s[i] by {}
        assert(sizes@[0] == s[0]);
        assert forall|i: int| 0 <= i < sizes@.len() - 1 implies 10 * (sizes@[i + 1] - 1) >= 13
            * #[trigger] sizes@[i] && 10 * (sizes@[i + 1] - 1) < 13 * sizes@[i] + 10 by {
            assert(s[i + 1] == spec_next_window(s[i]));
            assert(sizes@[i + 1] == s[i + 1]);
        }
        assert forall|i: int| 0 <= i < sizes@.len() implies #[trigger] sizes@[i] <= max_window
            && series_len >= 4 * sizes@[i] by {
            assert(s[i] <= max_window);
        }
        let last = sizes@.len() - 1;
        assert(sizes@[last] == s[last]);
        assert(spec_next_window(s[s.len() - 1]) > max_window);
    }
    Some(sizes)
}

/// The number of sliding windows of length `window_len`, advanced by
/// `step`, that fit into a series of length `len`.
pub open spec fn local_window_count(len: int, window_len: int, step: int) -> int {
    if len < window_len {
        0
    } else {
        (len - window_len) / step + 1
    }
}

/// The sliding windows for a local (time-varying) Hurst estimate: for the
/// `k`-th window, its start `k * step` and its centre
/// `k * step + window_len / 2`; windows start while they fit into the
/// series.
pub fn local_windows(series_len: usize, window_len: usize, step: usize) -> (r: Vec<(usize, usize)>)
    requires
        series_len < window_len || (step > 0 && local_window_count(
            series_len as int,
            window_len as int,
            step as int,
        ) * step + window_len <= usize::MAX),
    ensures
        r@.len() == local_window_count(series_len as int, window_len as int, step as int),
        forall|k: int|
            0 <= k < r@.len() ==> (#[trigger] r@[k]).0 == k * step && r@[k].1 == k * step
                + window_len / 2 && r@[k].0 + window_len <= series_len,
{
    let mut out: Vec<(usize, usize)> = Vec::new();
    if series_len < window_len {
        return out;
    }
    let ghost count = local_window_count(series_len as int, window_len as int, step as int);
    let mut start: usize = 0;
    while start + window_len <= series_len
        invariant
            window_len <= series_len,
            step > 0,
            count == (series_len - window_len) / step as int + 1,
            count * step + window_len <= usize::MAX,
            out@.len() <= count,
            start == out@.len() * step,
            start <= count * step,
            forall|k: int|
                0 <= k < out@.len() ==> (#[trigger] out@[k]).0 == k * step && out@[k].1 == k
                    * step + window_len / 2 && out@[k].0 + window_len <= series_len,
        decreases count - out@.len(),
    {
        let k = out.len();
        proof {
            assert(k < count) by (nonlinear_arith)
                requires
                    start == k * step,
                    start + window_len <= series_len,
                    step > 0,
                    count == (series_len - window_len) / step as int + 1,
            ;
            assert(k * step + step == (k + 1) * step && (k + 1) * step <= count * step)
                by (nonlinear_arith)
                requires
                    k < count,
                    step > 0,
            ;
        }
        let center = start + window_len / 2;
        out.push((start, center));
        start = start + step;
        proof {
            assert(start == (k + 1) * step) by (nonlinear_arith)
                requires
                    start == k * step + step,
            ;
        }
    }
    proof {
        let k = out@.len();
        assert(k >= count) by (nonlinear_arith)
            requires
                start == k * step,
                start + window_len > series_len,
                step > 0,
                count == (series_len - window_len) / step as int + 1,
                window_len <= series_len,
        ;
    }
    out
}

/// Law: each next DFA window size is larger than the one before it, by at
/// least a factor of 1.3 (plus one sample).
pub proof fn lemma_next_window_grows(n: int)
    requires
        0 <= n,
    ensures
        spec_next_window(n) > n,
        10 * spec_next_window(n) >= 13 * n + 10,
{
}

/// Law: the examined window sizes rise strictly, lie between the starting
/// size and `max_window`, and each fits at least twice into the series.
pub proof fn lemma_window_schedule_shape(n: int, max_window: int, len: int)
    requires
        n >= 1,
    ensures
        forall|i: int|
            0 <= i < window_schedule(n, max_window, len).len() ==> n <= #[trigger] window_schedule(
                n,
                max_window,
                len,
            )[i] <= max_window && len / window_schedule(n, max_window, len)[i] >= 2,
        forall|i: int, j: int|
            0 <= i < j < window_schedule(n, max_window, len).len() ==> #[trigger] window_schedule(
                n,
                max_window,
                len,
            )[i] < #[trigger] window_schedule(n, max_window, len)[j],
    decreases (if n <= max_window { max_window + 1 - n } else { 0 }),
{
    if n <= max_window {
        let next = spec_next_window(n);
        lemma_window_schedule_shape(next, max_window, len);
        let rest = window_schedule(next, max_window, len);
        let s = window_schedule(n, max_window, len);
        if len / n >= 2 {
            assert(s == seq![n] + rest);
            assert forall|i: int| 0 <= i < s.len() implies n <= #[trigger] s[i] <= max_window && len
                / s[i] >= 2 by {
                if i > 0 {
                    assert(s[i] == rest[i - 1]);
                }
            }
            assert forall|i: int, j: int| 0 <= i < j < s.len() implies #[trigger] s[i] < #[trigger] s[j] by {
                assert(s[j] == rest[j - 1]);
                if i > 0 {
                    assert(s[i] == rest[i - 1]);
                }
            }
        }
    }
}

/// Law: on accepted parameters every window size from `min_window` up to
/// `max_window` fits at least four times into the series, so the schedule
/// keeps all of them and starts with `min_window` itself.
pub proof fn lemma_window_schedule_starts_at_min(min_window: int, max_window: int, len: int)
    requires
        dfa_params_valid(len, min_window, max_window),
    ensures
        window_schedule(min_window, max_window, len).len() >= 1,
        window_schedule(min_window, max_window, len)[0] == min_window,
        forall|n: int| 1 <= n <= max_window ==> #[trigger] (len / n) >= 4,
{
    assert forall|n: int| 1 <= n <= max_window implies #[trigger] (len / n) >= 4 by {
        assert(len / n >= 4) by (nonlinear_arith)
            requires
                1 <= n <= max_window,
                len >= max_window * 4,
        ;
    }
    assert(len / min_window >= 4);
}

/// Law: when every size up to `max_window` fits at least four times into
/// the series, the schedule from `n` is the unfiltered chain
/// `n, next(n), next(next(n)), ...` cut exactly where it passes
/// `max_window`.
pub proof fn lemma_schedule_is_full_chain(n: int, max_window: int, len: int)
    requires
        n >= 1,
        len >= 4 * max_window,
    ensures
        ({
            let s = window_schedule(n, max_window, len);
            &&& n > max_window ==> s.len() == 0
            &&& n <= max_window ==> s.len() >= 1 && s[0] == n
            &&& forall|i: int| 0 <= i < s.len() - 1 ==> s[i + 1] == spec_next_window(#[trigger] s[i])
            &&& forall|i: int| 0 <= i < s.len() ==> #[trigger] s[i] <= max_window
            &&& s.len() >= 1 ==> spec_next_window(s[s.len() - 1]) > max_window
        }),
    decreases (if n <= max_window { max_window + 1 - n } else { 0 }),
{
    if n <= max_window {
        let next = spec_next_window(n);
        lemma_schedule_is_full_chain(next, max_window, len);
        assert(len / n >= 2) by (nonlinear_arith)
            requires
                1 <= n <= max_window,
                len >= 4 * max_window,
        ;
        let rest = window_schedule(next, max_window, len);
        let s = window_schedule(n, max_window, len);
        assert(s == seq![n] + rest);
        assert forall|i: int| 0 <= i < s.len() - 1 implies s[i + 1] == spec_next_window(
            #[trigger] s[i],
        ) by {
            assert(s[i + 1] == rest[i]);
            if i > 0 {
                assert(s[i] == rest[i - 1]);
            } else if rest.len() >= 1 {
                assert(rest[0] == next);
            }
        }
        assert forall|i: int| 0 <= i < s.len() implies #[trigger] s[i] <= max_window by {
            if i > 0 {
                assert(s[i] == rest[i - 1]);
            }
        }
        if rest.len() >= 1 {
            assert(s[s.len() - 1] == rest[rest.len() - 1]);
        } else {
            assert(next > max_window);
        }
    }
}

} // verus!
