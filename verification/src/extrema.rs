use vstd::prelude::*;
use crate::error::TrendError;

verus! {

/// A local peak or valley: the price and the place where it stands.
#[derive(Clone, Copy, Debug, PartialEq, Eq, Structural)]
pub struct Extremum {
    pub value: i64,
    pub index: usize,
}

/// Whether price `a` is strictly more extreme than price `b`: higher when
/// peaks are sought (`high`), lower when valleys are.
pub open spec fn outranks(high: bool, a: i64, b: i64) -> bool {
    if high {
        a > b
    } else {
        a < b
    }
}

/// The window of index `i` spans `period` points on either side of it. The
/// point is an extremum when that window lies inside the series and no point
/// of it outranks the one at `i`. Points of a plateau are all extrema.
pub open spec fn is_extremum(prices: Seq<i64>, period: int, high: bool, i: int) -> bool {
    &&& 0 < period <= i
    &&& i + period < prices.len()
    &&& forall|j: int| i - period <= j <= i + period ==> !outranks(high, #[trigger] prices[j], prices[i])
}

/// The extrema among the first `k` points, by ascending index.
pub open spec fn candidates(prices: Seq<i64>, period: int, high: bool, k: int) -> Seq<Extremum>
    decreases k,
{
    if k <= 0 {
        Seq::empty()
    } else if is_extremum(prices, period, high, k - 1) {
        candidates(prices, period, high, k - 1).push(
            Extremum { value: prices[k - 1], index: (k - 1) as usize },
        )
    } else {
        candidates(prices, period, high, k - 1)
    }
}

/// Takes one more candidate into the kept list. A candidate closer than
/// `closest_neighbor` to the last kept one competes with it: the more extreme
/// of the two stays, the earlier one on a tie. Any other candidate is kept.
pub open spec fn merge_step(
    kept: Seq<Extremum>,
    c: Extremum,
    closest_neighbor: int,
    high: bool,
) -> Seq<Extremum> {
    if kept.len() == 0 {
        seq![c]
    } else if c.index - kept.last().index < closest_neighbor {
        if outranks(high, c.value, kept.last().value) {
            kept.drop_last().push(c)
        } else {
            kept
        }
    } else {
        kept.push(c)
    }
}

/// The candidates that survive the left-to-right merge.
pub open spec fn prune(cands: Seq<Extremum>, closest_neighbor: int, high: bool) -> Seq<Extremum>
    decreases cands.len(),
{
    if cands.len() == 0 {
        Seq::empty()
    } else {
        merge_step(prune(cands.drop_last(), closest_neighbor, high), cands.last(), closest_neighbor, high)
    }
}

/// What the detector reports for a series.
pub open spec fn extrema_of(
    prices: Seq<i64>,
    period: int,
    closest_neighbor: int,
    high: bool,
) -> Seq<Extremum> {
    prune(candidates(prices, period, high, prices.len() as int), closest_neighbor, high)
}

/// Indices ascend strictly along the sequence.
pub open spec fn ascending(s: Seq<Extremum>) -> bool {
    forall|i: int, j: int| 0 <= i < j < s.len() ==> s[i].index < s[j].index
}

/// Any two members are at least `gap` indices apart.
pub open spec fn separated(s: Seq<Extremum>, gap: int) -> bool {
    forall|i: int, j: int| 0 <= i < j < s.len() ==> s[j].index - s[i].index >= gap
}

/// What holds of the candidates of any series: they ascend, lie among the
/// first `k` points, carry the price at their index, and are extrema.
pub proof fn lemma_candidates(prices: Seq<i64>, period: int, high: bool, k: int)
    requires
        0 <= k <= prices.len() <= usize::MAX,
    ensures
        ascending(candidates(prices, period, high, k)),
        candidates(prices, period, high, k).len() <= k,
        forall|t: int|
            0 <= t < candidates(prices, period, high, k).len() ==> {
                let c = #[trigger] candidates(prices, period, high, k)[t];
                &&& c.index < k
                &&& c.value == prices[c.index as int]
                &&& is_extremum(prices, period, high, c.index as int)
            },
    decreases k,
{
    if k > 0 {
        lemma_candidates(prices, period, high, k - 1);
    }
}

/// What the merge keeps: a sub-list of the candidates that still ascends,
/// ends no later than they do, is empty only if they are, and holds no two
/// members closer than `closest_neighbor`.
pub proof fn lemma_prune(cands: Seq<Extremum>, closest_neighbor: int, high: bool)
    requires
        ascending(cands),
    ensures
        ascending(prune(cands, closest_neighbor, high)),
        separated(prune(cands, closest_neighbor, high), closest_neighbor),
        prune(cands, closest_neighbor, high).len() <= cands.len(),
        cands.len() > 0 ==> prune(cands, closest_neighbor, high).len() > 0,
        cands.len() > 0 ==> prune(cands, closest_neighbor, high).last().index <= cands.last().index,
        forall|t: int|
            0 <= t < prune(cands, closest_neighbor, high).len() ==> cands.contains(
                #[trigger] prune(cands, closest_neighbor, high)[t],
            ),
    decreases cands.len(),
{
    if cands.len() > 0 {
        let rest = cands.drop_last();
        let c = cands.last();
        lemma_prune(rest, closest_neighbor, high);
        let kept = prune(rest, closest_neighbor, high);
        let out = prune(cands, closest_neighbor, high);
        assert(out == merge_step(kept, c, closest_neighbor, high));
        assert forall|t: int| 0 <= t < kept.len() implies cands.contains(#[trigger] kept[t]) && kept[t].index < c.index by {
            assert(rest.contains(kept[t]));
            let s = choose|s: int| 0 <= s < rest.len() && rest[s] == kept[t];
            assert(cands[s] == kept[t]);
        }
        assert(cands[cands.len() - 1] == c);
        assert forall|t: int| 0 <= t < out.len() implies cands.contains(#[trigger] out[t]) by {
            if t < kept.len() && out[t] == kept[t] {
            } else {
                assert(out[t] == c);
            }
        }
    }
}

/// With a distance of zero nothing is merged: every candidate is reported.
pub proof fn lemma_zero_distance_keeps_all(prices: Seq<i64>, period: int, high: bool)
    requires
        prices.len() <= usize::MAX,
    ensures
        extrema_of(prices, period, 0, high) == candidates(prices, period, high, prices.len() as int),
{
    let cands = candidates(prices, period, high, prices.len() as int);
    lemma_candidates(prices, period, high, prices.len() as int);
    lemma_prune_zero(cands, high);
}

proof fn lemma_prune_zero(cands: Seq<Extremum>, high: bool)
    requires
        ascending(cands),
    ensures
        prune(cands, 0, high) == cands,
    decreases cands.len(),
{
    if cands.len() > 0 {
        let rest = cands.drop_last();
        lemma_prune_zero(rest, high);
        if rest.len() > 0 {
            assert(rest.last() == cands[cands.len() - 2]);
        }
        assert(rest.push(cands.last()) =~= cands);
    } else {
        assert(cands =~= Seq::empty());
    }
}

/// Asking for a greater distance never reports more extrema.
pub proof fn lemma_pruning_is_monotone(
    prices: Seq<i64>,
    period: int,
    nearer: int,
    farther: int,
    high: bool,
)
    requires
        prices.len() <= usize::MAX,
        nearer <= farther,
    ensures
        extrema_of(prices, period, farther, high).len() <= extrema_of(prices, period, nearer, high).len(),
{
    let cands = candidates(prices, period, high, prices.len() as int);
    lemma_candidates(prices, period, high, prices.len() as int);
    lemma_prune_pair(cands, nearer, farther, high);
}

/// The two merges side by side: the one with the greater distance has kept
/// fewer, or as many with a last member that stands no earlier and is no more
/// extreme.
proof fn lemma_prune_pair(cands: Seq<Extremum>, nearer: int, farther: int, high: bool)
    requires
        ascending(cands),
        nearer <= farther,
    ensures
        ({
            let p = prune(cands, nearer, high);
            let q = prune(cands, farther, high);
            ||| q.len() < p.len()
            ||| q.len() == p.len() && (p.len() == 0 || (p.last().index <= q.last().index
                && !outranks(high, q.last().value, p.last().value)))
        }),
    decreases cands.len(),
{
    if cands.len() > 0 {
        let rest = cands.drop_last();
        let c = cands.last();
        lemma_prune_pair(rest, nearer, farther, high);
        lemma_prune(rest, nearer, high);
        lemma_prune(rest, farther, high);
        if rest.len() > 0 {
            assert(rest.last() == cands[cands.len() - 2]);
            assert(cands[cands.len() - 1] == c);
        }
    }
}

fn outranks_exec(high: bool, a: i64, b: i64) -> (r: bool)
    ensures
        r == outranks(high, a, b),
{
    if high {
        a > b
    } else {
        a < b
    }
}

fn window_holds(prices: &[i64], period: usize, high: bool, i: usize) -> (r: bool)
    requires
        0 < period <= i,
        i + period < prices.len(),
    ensures
        r == is_extremum(prices@, period as int, high, i as int),
{
    let mut j: usize = i - period;
    while j <= i + period
        invariant
            0 < period <= i,
            i + period < prices.len(),
            i - period <= j <= i + period + 1,
            forall|t: int| i - period <= t < j ==> !outranks(high, #[trigger] prices@[t], prices@[i as int]),
        decreases i + period + 1 - j,
    {
        if outranks_exec(high, prices[j], prices[i]) {
            return false;
        }
        j += 1;
    }
    true
}

fn detect(prices: &[i64], period: usize, closest_neighbor: usize, high: bool) -> (kept: Vec<Extremum>)
    requires
        period > 0,
    ensures
        kept@ == extrema_of(prices@, period as int, closest_neighbor as int, high),
{
    let n: usize = prices.len();
    let mut kept: Vec<Extremum> = Vec::new();
    let mut i: usize = 0;
    while i < n
        invariant
            period > 0,
            i <= n,
            n == prices.len(),
            kept@ == prune(candidates(prices@, period as int, high, i as int), closest_neighbor as int, high),
            kept@.len() > 0 ==> kept@.last().index < i,
        decreases n - i,
    {
        let ghost before = candidates(prices@, period as int, high, i as int);
        if period <= i && period < n - i && window_holds(prices, period, high, i) {
            let c = Extremum { value: prices[i], index: i };
            let m: usize = kept.len();
            if m == 0 {
                kept.push(c);
            } else {
                let last = kept[m - 1];
                if i - last.index < closest_neighbor {
                    if outranks_exec(high, c.value, last.value) {
                        kept.pop();
                        kept.push(c);
                    }
                } else {
                    kept.push(c);
                }
            }
            proof {
                assert(before.push(c).drop_last() =~= before);
                assert(kept@ =~= merge_step(
                    prune(before, closest_neighbor as int, high),
                    c,
                    closest_neighbor as int,
                    high,
                ));
            }
        }
        i += 1;
    }
    kept
}

/// What `peaks` and `valleys` owe their callers.
pub open spec fn detector_result(
    prices: Seq<i64>,
    period: usize,
    closest_neighbor: usize,
    high: bool,
    r: Result<Vec<Extremum>, TrendError>,
) -> bool {
    if period == 0 {
        r == Err::<Vec<Extremum>, TrendError>(TrendError::InvalidInput)
    } else {
        &&& r is Ok
        &&& r->Ok_0@ == extrema_of(prices, period as int, closest_neighbor as int, high)
        &&& ascending(r->Ok_0@)
        &&& separated(r->Ok_0@, closest_neighbor as int)
        &&& forall|t: int|
            0 <= t < r->Ok_0@.len() ==> {
                let e = #[trigger] r->Ok_0@[t];
                &&& is_extremum(prices, period as int, high, e.index as int)
                &&& e.value == prices[e.index as int]
            }
    }
}

fn detect_checked(prices: &[i64], period: usize, closest_neighbor: usize, high: bool) -> (r: Result<
    Vec<Extremum>,
    TrendError,
>)
    ensures
        detector_result(prices@, period, closest_neighbor, high, r),
{
    if period == 0 {
        return Err(TrendError::InvalidInput);
    }
    let n: usize = prices.len();
    let kept = detect(prices, period, closest_neighbor, high);
    proof {
        assert(prices@.len() == n);
        let cands = candidates(prices@, period as int, high, prices@.len() as int);
        lemma_candidates(prices@, period as int, high, prices@.len() as int);
        lemma_prune(cands, closest_neighbor as int, high);
        assert forall|t: int| 0 <= t < kept@.len() implies {
            let e = #[trigger] kept@[t];
            &&& is_extremum(prices@, period as int, high, e.index as int)
            &&& e.value == prices@[e.index as int]
        } by {
            assert(cands.contains(kept@[t]));
            let s = choose|s: int| 0 <= s < cands.len() && cands[s] == kept@[t];
            assert(cands[s] == kept@[t]);
        }
    }
    Ok(kept)
}

/// The local maxima of `prices`. A point is a peak when no point within
/// `period` places of it, on either side, is higher; a point with fewer than
/// `period` neighbours on a side is none. Of two peaks closer than
/// `closest_neighbor` only the higher is reported, the earlier on a tie.
/// A `period` of zero is refused.
pub fn peaks(prices: &[i64], period: usize, closest_neighbor: usize) -> (r: Result<
    Vec<Extremum>,
    TrendError,
>)
    ensures
        detector_result(prices@, period, closest_neighbor, true, r),
{
    detect_checked(prices, period, closest_neighbor, true)
}

/// The local minima of `prices`, found as `peaks` finds the maxima, with
/// lower in place of higher.
pub fn valleys(prices: &[i64], period: usize, closest_neighbor: usize) -> (r: Result<
    Vec<Extremum>,
    TrendError,
>)
    ensures
        detector_result(prices@, period, closest_neighbor, false, r),
{
    detect_checked(prices, period, closest_neighbor, false)
}

} // verus!
