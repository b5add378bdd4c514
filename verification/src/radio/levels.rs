//! Statistics of signal levels.

use vstd::prelude::*;

verus! {

/// One level is no stronger than another.
pub open spec fn no_stronger() -> spec_fn(i16, i16) -> bool {
    |a: i16, b: i16| a <= b
}

/// Levels from the weakest to the strongest.
pub open spec fn in_order(levels: Seq<i16>) -> Seq<i16> {
    levels.sort_by(no_stronger())
}

/// The median, the extremes and the number of a set of levels.
#[derive(Debug, Clone, Copy, PartialEq, Eq, Structural)]
pub struct LevelStats {
    /// The median: of an even number, the stronger of the two in the middle.
    pub median: i16,
    /// The weakest.
    pub min: i16,
    /// The strongest.
    pub max: i16,
    /// How many there are.
    pub count: u16,
}

/// The statistics of levels, if there are any.
pub open spec fn stats_of(levels: Seq<i16>) -> Option<LevelStats> {
    let n: int = levels.len() as int;
    if n == 0 {
        None
    } else {
        Some(
            LevelStats {
                median: in_order(levels)[n / 2],
                min: in_order(levels)[0],
                max: in_order(levels)[n - 1],
                count: n as u16,
            },
        )
    }
}

proof fn lemma_no_stronger_orders()
    ensures
        vstd::relations::total_ordering(no_stronger()),
{
}

/// Putting levels in order keeps each as often as it is there.
pub proof fn lemma_in_order(levels: Seq<i16>)
    ensures
        in_order(levels).to_multiset() == levels.to_multiset(),
        in_order(levels).len() == levels.len(),
        forall|i: int, j: int|
            0 <= i <= j < levels.len() ==> #[trigger] in_order(levels)[i] <= #[trigger] in_order(
                levels,
            )[j],
{
    broadcast use vstd::seq_lib::to_multiset_len;

    lemma_no_stronger_orders();
    levels.lemma_sort_by_ensures(no_stronger());
    let s: Seq<i16> = in_order(levels);
    assert(s.len() == s.to_multiset().len());
    assert(levels.len() == levels.to_multiset().len());
    assert forall|i: int, j: int| 0 <= i <= j < levels.len() implies #[trigger] s[i]
        <= #[trigger] s[j] by {
        if i < j {
            assert(no_stronger()(s[i], s[j]));
        }
    }
}

/// The extremes are levels that occur and bound every other, and so does the median
/// occur, between them.
pub proof fn law_statistics_bound_the_levels(levels: Seq<i16>)
    requires
        levels.len() > 0,
    ensures
        stats_of(levels) matches Some(s) && {
            &&& levels.contains(s.min)
            &&& levels.contains(s.median)
            &&& levels.contains(s.max)
            &&& s.min <= s.median <= s.max
            &&& forall|i: int| 0 <= i < levels.len() ==> s.min <= #[trigger] levels[i] <= s.max
        },
{
    broadcast use vstd::seq_lib::to_multiset_contains;

    lemma_in_order(levels);
    let n: int = levels.len() as int;
    let s: Seq<i16> = in_order(levels);
    assert(s.contains(s[0]));
    assert(s.contains(s[n / 2]));
    assert(s.contains(s[n - 1]));
    assert(s.to_multiset().count(s[0]) > 0);
    assert(s.to_multiset().count(s[n / 2]) > 0);
    assert(s.to_multiset().count(s[n - 1]) > 0);
    assert(levels.contains(s[0]));
    assert(levels.contains(s[n / 2]));
    assert(levels.contains(s[n - 1]));
    assert forall|i: int| 0 <= i < levels.len() implies s[0] <= #[trigger] levels[i] <= s[n - 1] by {
        assert(levels.contains(levels[i]));
        assert(levels.to_multiset().count(levels[i]) > 0);
        assert(s.contains(levels[i]));
        let k: int = choose|k: int| 0 <= k < s.len() && s[k] == levels[i];
        assert(s[0] <= s[k] <= s[n - 1]);
    }
}

/// The median stands in the middle: no more than half of the levels are weaker, and more
/// than half are no stronger.
pub proof fn law_the_median_stands_in_the_middle(levels: Seq<i16>)
    requires
        levels.len() > 0,
    ensures
        stats_of(levels) matches Some(s) && {
            &&& levels.to_multiset().filter(|x: i16| x < s.median).len() <= levels.len() / 2
            &&& levels.to_multiset().filter(|x: i16| x <= s.median).len() > levels.len() / 2
        },
{
    broadcast use vstd::seq_lib::to_multiset_contains;
    broadcast use vstd::seq_lib::to_multiset_len;

    lemma_in_order(levels);
    let n: int = levels.len() as int;
    let s: Seq<i16> = in_order(levels);
    let median: i16 = s[n / 2];
    let all = levels.to_multiset();
    let weaker = all.filter(|x: i16| x < median);
    let no_stronger = all.filter(|x: i16| x <= median);
    let low: Seq<i16> = s.take(n / 2);
    let high: Seq<i16> = s.skip(n / 2);
    let most: Seq<i16> = s.take(n / 2 + 1);
    let rest: Seq<i16> = s.skip(n / 2 + 1);
    vstd::seq_lib::lemma_multiset_commutative(low, high);
    assert(low + high =~= s);
    vstd::seq_lib::lemma_multiset_commutative(most, rest);
    assert(most + rest =~= s);
    assert forall|x: i16| #[trigger] weaker.count(x) <= low.to_multiset().count(x) by {
        if x < median && high.to_multiset().count(x) > 0 {
            assert(high.contains(x));
            let k: int = choose|k: int| 0 <= k < high.len() && high[k] == x;
            assert(s[n / 2] <= s[n / 2 + k]);
        }
    }
    assert(weaker.subset_of(low.to_multiset()));
    assert(low.to_multiset().sub(weaker).add(weaker) =~= low.to_multiset());
    assert(low.to_multiset().sub(weaker).add(weaker).len() >= weaker.len());
    assert forall|x: i16| #[trigger] most.to_multiset().count(x) <= no_stronger.count(x) by {
        if most.to_multiset().count(x) > 0 {
            assert(most.contains(x));
            let k: int = choose|k: int| 0 <= k < most.len() && most[k] == x;
            assert(s[k] <= s[n / 2]);
        }
    }
    assert(no_stronger.sub(most.to_multiset()).add(most.to_multiset()) =~= no_stronger);
    assert(no_stronger.sub(most.to_multiset()).add(most.to_multiset()).len()
        >= most.to_multiset().len());
}

/// Puts levels in order.
pub fn sorted(levels: &[i16]) -> (r: Vec<i16>)
    ensures
        r@ == in_order(levels@),
{
    let mut out: Vec<i16> = Vec::new();
    let mut i: usize = 0;
    proof {
        lemma_no_stronger_orders();
        assert(levels@.take(0) =~= out@);
    }
    while i < levels.len()
        invariant
            i <= levels@.len(),
            out@.len() == i,
            out@.to_multiset() == levels@.take(i as int).to_multiset(),
            vstd::relations::sorted_by(out@, no_stronger()),
        decreases levels@.len() - i,
    {
        let x: i16 = levels[i];
        let mut at: usize = 0;
        while at < out.len() && out[at] <= x
            invariant
                at <= out@.len(),
                forall|k: int| 0 <= k < at ==> #[trigger] out@[k] <= x,
            decreases out@.len() - at,
        {
            at = at + 1;
        }
        let ghost before = out@;
        out.insert(at, x);
        proof {
            let take: Seq<i16> = levels@.take(i + 1);
            assert(take =~= levels@.take(i as int).push(x));
            vstd::seq_lib::to_multiset_build(levels@.take(i as int), x);
            vstd::seq_lib::to_multiset_insert(before, at as int, x);
            assert forall|p: int, q: int| 0 <= p < q < out@.len() implies #[trigger] no_stronger()(
                out@[p],
                out@[q],
            ) by {
                let bp: int = if p < at {
                    p
                } else {
                    p - 1
                };
                let bq: int = if q < at {
                    q
                } else {
                    q - 1
                };
                if p == at {
                    assert(out@[q] == before[bq]);
                    if at < bq {
                        assert(no_stronger()(before[at as int], before[bq]));
                    }
                } else if q == at {
                    assert(out@[p] == before[p]);
                } else {
                    assert(out@[p] == before[bp]);
                    assert(out@[q] == before[bq]);
                    assert(no_stronger()(before[bp], before[bq]));
                }
            }
        }
        i = i + 1;
    }
    proof {
        assert(levels@.take(i as int) =~= levels@);
        lemma_no_stronger_orders();
        levels@.lemma_sort_by_ensures(no_stronger());
        vstd::seq_lib::lemma_sorted_unique(out@, in_order(levels@), no_stronger());
    }
    out
}

/// The statistics of levels, if there are any.
pub fn stats(levels: &[i16]) -> (r: Option<LevelStats>)
    requires
        levels@.len() <= 65535,
    ensures
        r == stats_of(levels@),
{
    let n: usize = levels.len();
    if n == 0 {
        return None;
    }
    let s = sorted(levels);
    proof {
        lemma_in_order(levels@);
    }
    Some(LevelStats { median: s[n / 2], min: s[0], max: s[n - 1], count: n as u16 })
}

} // verus!
