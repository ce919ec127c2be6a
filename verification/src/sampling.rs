//! Choosing which stored events answer a request for a time window.
use vstd::prelude::*;
use vstd::arithmetic::div_mod::{
    lemma_div_is_ordered, lemma_fundamental_div_mod, lemma_fundamental_div_mod_converse,
};
use crate::models::{window_minutes, Window, EVENT_DURATION_MINS};

verus! {

/// The `k`-th of `n` evenly spaced points from `min` to `max` (`k` from 0
/// to `n - 1`), rounded to the nearest integer, halves away from zero.
/// Rounding `x` to `floor(x + 1/2)` agrees with rounding halves away from
/// zero wherever the result is positive, the only place where it is kept.
/// The rounding is exact: a computation in `f32` arithmetic gives other ids
/// once the ids reach 2^24, where `f32` no longer holds every integer.
pub open spec fn tween_point(min: int, max: int, n: int, k: int) -> int {
    min + (2 * k * (max - min) + (n - 1)) / (2 * (n - 1))
}

/// `min`, then the points `1..n - 1` up to (not including) the first that
/// is not positive.
pub open spec fn tween_raw(min: int, max: int, n: int, j: int) -> Seq<int>
    decreases j,
{
    if j <= 0 {
        seq![min]
    } else {
        let prev = tween_raw(min, max, n, j - 1);
        if prev.len() == j && tween_point(min, max, n, j) > 0 {
            prev.push(tween_point(min, max, n, j))
        } else {
            prev
        }
    }
}

/// A sequence without runs of equal neighbours (`Vec::dedup`).
pub open spec fn dedup(s: Seq<int>) -> Seq<int>
    decreases s.len(),
{
    if s.len() == 0 {
        s
    } else {
        let p = dedup(s.drop_last());
        if p.len() > 0 && p.last() == s.last() {
            p
        } else {
            p.push(s.last())
        }
    }
}

/// The ids that sample `n` events evenly from the ids `min..=max`.
pub open spec fn tween_spec(min: int, max: int, n: int) -> Seq<int> {
    dedup(tween_raw(min, max, n, n - 1))
}

pub open spec fn as_ints(v: Seq<i64>) -> Seq<int> {
    v.map_values(|x: i64| x as int)
}

proof fn lemma_round_nonneg(u: int, d: int)
    requires
        u >= 0,
        d > 0,
    ensures
        (2 * u + d) / (2 * d) == u / d + (if 2 * (u % d) >= d {
            1int
        } else {
            0int
        }),
{
    lemma_fundamental_div_mod(u, d);
    let q = u / d;
    let r = u % d;
    assert(0 <= r < d);
    if 2 * r >= d {
        assert(2 * u + d == (q + 1) * (2 * d) + (2 * r - d)) by (nonlinear_arith)
            requires
                u == d * q + r,
        ;
        lemma_fundamental_div_mod_converse(2 * u + d, 2 * d, q + 1, 2 * r - d);
    } else {
        assert(2 * u + d == q * (2 * d) + (2 * r + d)) by (nonlinear_arith)
            requires
                u == d * q + r,
        ;
        lemma_fundamental_div_mod_converse(2 * u + d, 2 * d, q, 2 * r + d);
    }
}

proof fn lemma_round_nonpos(u: int, d: int)
    requires
        u >= 0,
        d > 0,
    ensures
        (-2 * u + d) / (2 * d) == -(u / d) - (if 2 * (u % d) > d {
            1int
        } else {
            0int
        }),
{
    lemma_fundamental_div_mod(u, d);
    let q = u / d;
    let r = u % d;
    assert(0 <= r < d);
    if 2 * r > d {
        assert(-2 * u + d == (-q - 1) * (2 * d) + (3 * d - 2 * r)) by (nonlinear_arith)
            requires
                u == d * q + r,
        ;
        lemma_fundamental_div_mod_converse(-2 * u + d, 2 * d, -q - 1, 3 * d - 2 * r);
    } else {
        assert(-2 * u + d == (-q) * (2 * d) + (d - 2 * r)) by (nonlinear_arith)
            requires
                u == d * q + r,
        ;
        lemma_fundamental_div_mod_converse(-2 * u + d, 2 * d, -q, d - 2 * r);
    }
}

/// The `k`-th point of `tween_spec`, computed without overflow.
fn tween_point_exec(min_id: i64, max_id: i64, n: usize, k: usize) -> (res: i128)
    requires
        2 <= n <= i64::MAX,
        1 <= k < n,
    ensures
        res == tween_point(min_id as int, max_id as int, n as int, k as int),
{
    let d: u128 = (n - 1) as u128;
    let diff: i128 = max_id as i128 - min_id as i128;
    let ghost dd = max_id as int - min_id as int;
    if diff >= 0 {
        assert((k as u128) * (diff as u128) <= (i64::MAX as u128) * (u64::MAX as u128))
            by (nonlinear_arith)
            requires
                k < i64::MAX,
                0 <= diff <= u64::MAX,
        ;
        let u: u128 = (k as u128) * (diff as u128);
        let q = u / d;
        let r = u % d;
        let bump: i128 = if 2 * r >= d {
            1
        } else {
            0
        };
        proof {
            lemma_round_nonneg(u as int, d as int);
            assert(2 * (k as int) * dd == 2 * (u as int)) by (nonlinear_arith)
                requires
                    u == k * dd,
            ;
            assert(q <= diff) by (nonlinear_arith)
                requires
                    q == u / d,
                    u == k * diff,
                    k <= d,
                    d > 0,
                    diff >= 0,
            ;
        }
        min_id as i128 + q as i128 + bump
    } else {
        let mag: u128 = (min_id as i128 - max_id as i128) as u128;
        assert((k as u128) * mag <= (i64::MAX as u128) * (u64::MAX as u128)) by (nonlinear_arith)
            requires
                k < i64::MAX,
                0 <= mag <= u64::MAX,
        ;
        let u: u128 = (k as u128) * mag;
        let q = u / d;
        let r = u % d;
        let bump: i128 = if 2 * r > d {
            1
        } else {
            0
        };
        proof {
            lemma_round_nonpos(u as int, d as int);
            assert(2 * (k as int) * dd == -2 * (u as int)) by (nonlinear_arith)
                requires
                    u == k * mag,
                    mag == -dd,
            ;
            assert(q <= mag) by (nonlinear_arith)
                requires
                    q == u / d,
                    u == k * mag,
                    k <= d,
                    d > 0,
                    mag >= 0,
            ;
        }
        min_id as i128 - q as i128 - bump
    }
}

/// Picks `num_samples` ids spread evenly over `min_id..=max_id`, always
/// starting with `min_id` and ending with `max_id` (the points are rounded
/// to whole ids; equal neighbours are kept once, and the run stops at the
/// first id that is not positive).
pub fn tween_ids(min_id: i64, max_id: i64, num_samples: usize) -> (res: Vec<i64>)
    requires
        1 <= num_samples <= i64::MAX,
    ensures
        as_ints(res@) == tween_spec(min_id as int, max_id as int, num_samples as int),
{
    let mut ids: Vec<i64> = Vec::with_capacity(num_samples);
    let ghost mut raw: Seq<int> = seq![min_id as int];
    ids.push(min_id);
    assert(as_ints(ids@) =~= dedup(raw)) by {
        assert(raw.drop_last() =~= Seq::<int>::empty());
        assert(dedup(raw.drop_last()) =~= Seq::<int>::empty());
        assert(raw.last() == min_id as int);
    };
    let mut k: usize = 1;
    let mut stopped = false;
    while k < num_samples
        invariant
            1 <= num_samples <= i64::MAX,
            1 <= k <= num_samples,
            raw == tween_raw(min_id as int, max_id as int, num_samples as int, k - 1),
            stopped == (raw.len() < k),
            raw.len() <= k,
            as_ints(ids@) == dedup(raw),
            ids@.len() > 0,
            ids@.len() <= raw.len(),
        decreases num_samples - k,
    {
        if !stopped {
            let p = tween_point_exec(min_id, max_id, num_samples, k);
            if p <= 0 {
                stopped = true;
            } else {
                proof {
                    assert(p <= i64::MAX) by {
                        assert(p <= min_id || p <= max_id) by (nonlinear_arith)
                            requires
                                p == min_id + (2 * k * (max_id - min_id) + (num_samples - 1)) / (
                                2 * (num_samples - 1)),
                                1 <= k < num_samples,
                        ;
                    };
                }
                let id = p as i64;
                let ghost before = ids@;
                if ids[ids.len() - 1] != id {
                    ids.push(id);
                }
                proof {
                    let r2 = raw.push(p as int);
                    assert(r2.drop_last() =~= raw);
                    if before.last() == id {
                        assert(ids@ == before);
                    } else {
                        assert(as_ints(ids@) =~= as_ints(before).push(id as int));
                    }
                    raw = r2;
                }
            }
        }
        k = k + 1;
    }
    ids
}

proof fn lemma_div_add_divisor(x: int, c: int)
    requires
        c > 0,
    ensures
        (x + c) / c == x / c + 1,
{
    lemma_fundamental_div_mod(x, c);
    assert(x + c == (x / c + 1) * c + x % c) by (nonlinear_arith)
        requires
            x == c * (x / c) + x % c,
    ;
    lemma_fundamental_div_mod_converse(x + c, c, x / c + 1, x % c);
}

/// Consecutive points are at least one apart where the ids are at least
/// as many as the points.
proof fn lemma_tween_point_step(min: int, max: int, n: int, k: int)
    requires
        n >= 2,
        max - min >= n - 1,
        0 <= k,
    ensures
        tween_point(min, max, n, k + 1) >= tween_point(min, max, n, k) + 1,
{
    let d = n - 1;
    let x = 2 * k * (max - min) + d;
    let y = 2 * (k + 1) * (max - min) + d;
    assert(y >= x + 2 * d) by (nonlinear_arith)
        requires
            y == 2 * (k + 1) * (max - min) + d,
            x == 2 * k * (max - min) + d,
            max - min >= d,
    ;
    lemma_div_is_ordered(x + 2 * d, y, 2 * d);
    lemma_div_add_divisor(x, 2 * d);
}

proof fn lemma_tween_point_ends(min: int, max: int, n: int)
    requires
        n >= 2,
    ensures
        tween_point(min, max, n, 0) == min,
        tween_point(min, max, n, n - 1) == max,
{
    let d = n - 1;
    lemma_fundamental_div_mod_converse(d, 2 * d, 0, d);
    assert(2 * 0 * (max - min) + (n - 1) == d) by (nonlinear_arith)
        requires
            d == n - 1,
    ;
    assert((2 * 0 * (max - min) + (n - 1)) / (2 * (n - 1)) == 0);
    assert(2 * (n - 1) * (max - min) + d == (max - min) * (2 * d) + d) by (nonlinear_arith)
        requires
            d == n - 1,
    ;
    lemma_fundamental_div_mod_converse(2 * (n - 1) * (max - min) + d, 2 * d, max - min, d);
}

proof fn lemma_tween_points_increase(min: int, max: int, n: int, i: int, j: int)
    requires
        n >= 2,
        max - min >= n - 1,
        0 <= i < j,
    ensures
        tween_point(min, max, n, i) < tween_point(min, max, n, j),
    decreases j - i,
{
    lemma_tween_point_step(min, max, n, j - 1);
    if i < j - 1 {
        lemma_tween_points_increase(min, max, n, i, j - 1);
    }
}

/// Points do not go down where `max` is at least `min`.
proof fn lemma_tween_points_nondecreasing(min: int, max: int, n: int, i: int, j: int)
    requires
        n >= 2,
        max >= min,
        0 <= i <= j,
    ensures
        tween_point(min, max, n, i) <= tween_point(min, max, n, j),
{
    let d = n - 1;
    assert(2 * i * (max - min) + d <= 2 * j * (max - min) + d) by (nonlinear_arith)
        requires
            max - min >= 0,
            i <= j,
    ;
    lemma_div_is_ordered(2 * i * (max - min) + d, 2 * j * (max - min) + d, 2 * d);
}

proof fn lemma_tween_raw_all(min: int, max: int, n: int, j: int)
    requires
        n >= 2,
        max >= min,
        min >= 1,
        0 <= j <= n - 1,
    ensures
        tween_raw(min, max, n, j) == Seq::new((j + 1) as nat, |i: int| tween_point(min, max, n, i)),
    decreases j,
{
    lemma_tween_point_ends(min, max, n);
    if j == 0 {
        assert(Seq::new(1, |i: int| tween_point(min, max, n, i)) =~= seq![min]);
    } else {
        lemma_tween_raw_all(min, max, n, j - 1);
        lemma_tween_points_nondecreasing(min, max, n, 0, j);
        assert(Seq::new(j as nat, |i: int| tween_point(min, max, n, i)).push(
            tween_point(min, max, n, j),
        ) =~= Seq::new((j + 1) as nat, |i: int| tween_point(min, max, n, i)));
    }
}

/// Dropping the repeats of a sequence that does not go down leaves one that
/// rises strictly, with the same first and last element and no more
/// elements.
proof fn lemma_dedup_nondecreasing(s: Seq<int>)
    requires
        s.len() > 0,
        forall|i: int, j: int| 0 <= i <= j < s.len() ==> s[i] <= s[j],
    ensures
        1 <= dedup(s).len() <= s.len(),
        dedup(s)[0] == s[0],
        dedup(s).last() == s.last(),
        forall|i: int, j: int| 0 <= i < j < dedup(s).len() ==> dedup(s)[i] < dedup(s)[j],
    decreases s.len(),
{
    let pre = s.drop_last();
    if s.len() == 1 {
        assert(pre =~= Seq::<int>::empty());
        assert(dedup(pre) =~= Seq::<int>::empty());
    } else {
        assert forall|i: int, j: int| 0 <= i <= j < pre.len() implies pre[i] <= pre[j] by {
            assert(pre[i] == s[i] && pre[j] == s[j]);
        }
        lemma_dedup_nondecreasing(pre);
        let p = dedup(pre);
        assert(pre.last() == s[s.len() - 2]);
        assert(p.last() <= s.last());
        if !(p.len() > 0 && p.last() == s.last()) {
            let r = p.push(s.last());
            assert forall|i: int, j: int| 0 <= i < j < r.len() implies r[i] < r[j] by {
                if j == r.len() - 1 {
                    if i < p.len() - 1 {
                        assert(p[i] < p[p.len() - 1]);
                    }
                    assert(r[i] == p[i]);
                } else {
                    assert(r[i] == p[i] && r[j] == p[j]);
                }
            }
        }
    }
}

proof fn lemma_dedup_increasing(s: Seq<int>)
    requires
        forall|i: int, j: int| 0 <= i < j < s.len() ==> s[i] < s[j],
    ensures
        dedup(s) == s,
    decreases s.len(),
{
    if s.len() > 0 {
        lemma_dedup_increasing(s.drop_last());
        if s.len() > 1 {
            assert(s.drop_last().last() == s[s.len() - 2]);
        }
        assert(s.drop_last().push(s.last()) =~= s);
    }
}

/// For positive ids from `min` to `max`, `tween_ids` gives ids that rise
/// strictly from `min` to `max`, no more of them than the `n` wanted;
/// exactly `n` where there are at least as many ids as samples wanted.
pub proof fn lemma_tween_spans_range(min: int, max: int, n: int)
    requires
        n >= 2,
        max >= min,
        min >= 1,
    ensures
        1 <= tween_spec(min, max, n).len() <= n,
        tween_spec(min, max, n)[0] == min,
        tween_spec(min, max, n).last() == max,
        forall|i: int, j: int|
            0 <= i < j < tween_spec(min, max, n).len() ==> tween_spec(min, max, n)[i] < tween_spec(
                min,
                max,
                n,
            )[j],
        max - min >= n - 1 ==> tween_spec(min, max, n).len() == n,
{
    lemma_tween_raw_all(min, max, n, n - 1);
    lemma_tween_point_ends(min, max, n);
    let s = Seq::new(n as nat, |i: int| tween_point(min, max, n, i));
    assert forall|i: int, j: int| 0 <= i <= j < s.len() implies s[i] <= s[j] by {
        lemma_tween_points_nondecreasing(min, max, n, i, j);
    }
    lemma_dedup_nondecreasing(s);
    if max - min >= n - 1 {
        assert forall|i: int, j: int| 0 <= i < j < s.len() implies s[i] < s[j] by {
            lemma_tween_points_increase(min, max, n, i, j);
        }
        lemma_dedup_increasing(s);
    }
}

/// The first timestamp of a window that ends now, one minute early to keep
/// the event just before it.
pub open spec fn window_start(now_ms: int, window: Window) -> int {
    now_ms - window_minutes(window) * 60_000 - 60_000
}

/// Where to start looking for the events of a window: `None` where the
/// newest event (at `max_timestamp`) is older than the window.
pub fn search_start(now_ms: i64, max_timestamp: i64, window: Window) -> (res: Option<i64>)
    requires
        window_start(now_ms as int, window) >= i64::MIN,
    ensures
        match res {
            Some(t) => t == window_start(now_ms as int, window) && t <= max_timestamp,
            None => window_start(now_ms as int, window) > max_timestamp,
        },
{
    let min_timestamp = now_ms - window.as_ms() - 60_000;
    if min_timestamp > max_timestamp {
        None
    } else {
        Some(min_timestamp)
    }
}

/// At most as many samples as the window holds events.
pub open spec fn capped_samples(num_samples: int, window: Window) -> int {
    let total = window_minutes(window) / (EVENT_DURATION_MINS as nat);
    if num_samples > total {
        total as int
    } else {
        num_samples
    }
}

/// The ids `lo..=hi`.
pub open spec fn id_range(lo: int, hi: int) -> Seq<int> {
    Seq::new(if hi >= lo {
        (hi - lo + 1) as nat
    } else {
        0
    }, |i: int| lo + i)
}

/// The ids of the events that answer a request for `num_samples` samples
/// of `window`, given the smallest and largest id in it: every id where
/// there are no more of them than samples, else an even spread.
pub open spec fn select_spec(min_id: int, max_id: int, num_samples: int, window: Window) -> Seq<int> {
    let n = capped_samples(num_samples, window);
    if max_id - min_id + 1 <= n {
        id_range(min_id, max_id)
    } else {
        tween_spec(min_id, max_id, n)
    }
}

/// The events chosen for a window whose events have the positive ids
/// `min..=max`, where at least two samples are asked for: their ids rise
/// strictly from `min` to `max`, and there are no more of them than the
/// samples asked for, nor than the events the window holds.
pub proof fn lemma_selection_spans_window(min: int, max: int, num_samples: int, window: Window)
    requires
        1 <= min <= max,
        num_samples >= 2,
    ensures
        select_spec(min, max, num_samples, window).len() >= 1,
        select_spec(min, max, num_samples, window)[0] == min,
        select_spec(min, max, num_samples, window).last() == max,
        forall|i: int, j: int|
            0 <= i < j < select_spec(min, max, num_samples, window).len() ==> select_spec(
                min,
                max,
                num_samples,
                window,
            )[i] < select_spec(min, max, num_samples, window)[j],
        select_spec(min, max, num_samples, window).len() <= num_samples,
        select_spec(min, max, num_samples, window).len() <= window_minutes(window) / (
        EVENT_DURATION_MINS as nat),
{
    let n = capped_samples(num_samples, window);
    assert(n >= 2);
    if max - min + 1 <= n {
        assert(id_range(min, max).len() == max - min + 1);
    } else {
        lemma_tween_spans_range(min, max, n);
        assert(tween_spec(min, max, n).last() == tween_spec(min, max, n)[n - 1]);
    }
}

/// Chooses the ids of the events that answer a request.
pub fn select_event_ids(min_id: i64, max_id: i64, num_samples: usize, window: Window) -> (res: Vec<
    i64,
>)
    requires
        num_samples > 0 || max_id < min_id,
    ensures
        as_ints(res@) == select_spec(min_id as int, max_id as int, num_samples as int, window),
{
    let total = window.total_samples();
    let n = if num_samples > total {
        total
    } else {
        num_samples
    };
    assert(n <= 43200);
    if (max_id as i128) - (min_id as i128) + 1 <= n as i128 {
        let mut ids: Vec<i64> = Vec::new();
        let mut id = min_id;
        if min_id <= max_id {
            loop
                invariant_except_break
                    min_id <= id <= max_id,
                    as_ints(ids@) =~= id_range(min_id as int, id as int - 1),
                ensures
                    as_ints(ids@) =~= id_range(min_id as int, max_id as int),
                decreases max_id - id,
            {
                let ghost before = ids@;
                ids.push(id);
                assert(id_range(min_id as int, id as int) =~= id_range(
                    min_id as int,
                    id as int - 1,
                ).push(id as int));
                assert(as_ints(ids@) =~= as_ints(before).push(id as int));
                if id == max_id {
                    break;
                }
                id = id + 1;
            }
        } else {
            assert(as_ints(ids@) =~= id_range(min_id as int, max_id as int));
        }
        ids
    } else {
        tween_ids(min_id, max_id, n)
    }
}

} // verus!
