use vstd::prelude::*;
use vstd::arithmetic::div_mod::lemma_div_is_ordered;
use crate::time::{day_number, day_of};

verus! {

/// A new observation is due once this many seconds (168 hours) have passed
/// since the last one, even at an unchanged price.
pub const RECORD_WINDOW_SECS: i64 = 604800;

/// Prices change "materially" when they move by more than one part in this many.
pub const CHANGE_DIVISOR: u64 = 1000;

/// One timestamped price sample of a listing.
#[derive(Clone, Copy, Debug, PartialEq, Eq, Structural)]
pub struct PriceObservation {
    /// Price in whole US dollars.
    pub price_usd: u64,
    /// Unix second of the sample.
    pub observed_at: i64,
}

pub open spec fn abs_diff(a: u64, b: u64) -> int {
    if a >= b {
        a - b
    } else {
        b - a
    }
}

/// `cur` differs from `prev` by more than 0.1% of `prev`.
pub open spec fn price_moved(prev: u64, cur: u64) -> bool {
    abs_diff(prev, cur) * (CHANGE_DIVISOR as int) > prev as int
}

/// More than the record window has passed from `last` to `now`.
pub open spec fn window_elapsed(last: i64, now: i64) -> bool {
    now as int - last as int > RECORD_WINDOW_SECS as int
}

/// Whether saving `price` at `now` records an observation, given the latest
/// recorded one: always for a first save, else on a material change or once
/// the window has passed.
pub open spec fn needs_observation(last: Option<PriceObservation>, price: u64, now: i64) -> bool {
    match last {
        None => true,
        Some(o) => price_moved(o.price_usd, price) || window_elapsed(o.observed_at, now),
    }
}

/// Observation times strictly increase along the series.
pub open spec fn ascending(s: Seq<PriceObservation>) -> bool {
    forall|i: int, j: int| 0 <= i < j < s.len() ==> s[i].observed_at < s[j].observed_at
}

/// The series holds an observation taken at second `t`.
pub open spec fn has_time(s: Seq<PriceObservation>, t: i64) -> bool {
    exists|i: int| 0 <= i < s.len() && s[i].observed_at == t
}

/// Whether compaction keeps `x`, which follows `before` in time order, when
/// `kept` is what it kept of `before`: `x` is the first of its UTC day, or its
/// price differs materially from the last retained observation.
pub open spec fn keeps(kept: Seq<PriceObservation>, before: Seq<PriceObservation>, x: PriceObservation) -> bool {
    ||| before.len() == 0
    ||| day_number(before.last().observed_at as int) != day_number(x.observed_at as int)
    ||| (kept.len() > 0 && price_moved(kept.last().price_usd, x.price_usd))
}

/// What compaction leaves of one listing's series, in time order.
pub open spec fn retained(s: Seq<PriceObservation>) -> Seq<PriceObservation>
    decreases s.len(),
{
    if s.len() == 0 {
        s
    } else {
        let r = retained(s.drop_last());
        if keeps(r, s.drop_last(), s.last()) {
            r.push(s.last())
        } else {
            r
        }
    }
}

/// What compaction deletes from one listing's series, in time order.
pub open spec fn dropped(s: Seq<PriceObservation>) -> Seq<PriceObservation>
    decreases s.len(),
{
    if s.len() == 0 {
        s
    } else {
        let d = dropped(s.drop_last());
        if keeps(retained(s.drop_last()), s.drop_last(), s.last()) {
            d
        } else {
            d.push(s.last())
        }
    }
}

/// Whether saving `price` at `now` records an observation.
pub fn should_record(last: Option<PriceObservation>, price: u64, now: i64) -> (r: bool)
    ensures
        r == needs_observation(last, price, now),
{
    match last {
        None => true,
        Some(o) => {
            let elapsed = (now as i128) - (o.observed_at as i128);
            price_changed(o.price_usd, price) || elapsed > RECORD_WINDOW_SECS as i128
        },
    }
}

/// `cur` differs from `prev` by more than 0.1% of `prev`.
pub fn price_changed(prev: u64, cur: u64) -> (r: bool)
    ensures
        r == price_moved(prev, cur),
{
    let d: u64 = if cur >= prev {
        cur - prev
    } else {
        prev - cur
    };
    let wide = d as u128;
    assert(wide * 1000 <= u64::MAX as u128 * 1000) by (nonlinear_arith)
        requires wide <= u64::MAX as u128;
    wide * (CHANGE_DIVISOR as u128) > prev as u128
}

/// Whether compaction keeps observation `i` of `s`, given what it kept before it.
fn keeps_at(s: &Vec<PriceObservation>, i: usize, kept: &Vec<PriceObservation>) -> (r: bool)
    requires
        i < s@.len(),
    ensures
        r == keeps(kept@, s@.take(i as int), s@[i as int]),
{
    let x = s[i];
    if i == 0 {
        true
    } else if day_of(s[i - 1].observed_at) != day_of(x.observed_at) {
        true
    } else {
        kept.len() > 0 && price_changed(kept[kept.len() - 1].price_usd, x.price_usd)
    }
}

/// The retention policy on one listing's series, oldest first: keeps the first
/// observation of each UTC day and every observation whose price differs by more
/// than 0.1% from the observation retained just before it; drops the rest.
///
/// This is the day-first-or-changed policy, not keep-last-N. Comparing with the
/// retained predecessor (rather than the raw one) is what makes a second pass
/// delete nothing: with the raw predecessor, 10000, 10010, 9998 on one day would
/// keep 9998 (it moved 0.12% from 10010) and a second pass would then drop it.
pub fn compact_series(s: &Vec<PriceObservation>) -> (r: Vec<PriceObservation>)
    ensures
        r@ == retained(s@),
{
    let mut r: Vec<PriceObservation> = Vec::new();
    let mut i: usize = 0;
    while i < s.len()
        invariant
            i <= s.len(),
            r@ == retained(s@.take(i as int)),
        decreases s.len() - i,
    {
        let x = s[i];
        let ghost before = s@.take(i as int);
        assert(s@.take(i as int + 1).drop_last() == before);
        assert(s@.take(i as int + 1).last() == x);
        let keep = keeps_at(s, i, &r);
        if keep {
            r.push(x);
        }
        i = i + 1;
    }
    assert(s@.take(s.len() as int) == s@);
    r
}

/// Where in the series compaction deletes, oldest first.
pub open spec fn dropped_positions(s: Seq<PriceObservation>) -> Seq<int>
    decreases s.len(),
{
    if s.len() == 0 {
        Seq::empty()
    } else {
        let d = dropped_positions(s.drop_last());
        if keeps(retained(s.drop_last()), s.drop_last(), s.last()) {
            d
        } else {
            d.push(s.len() - 1)
        }
    }
}

/// The positions of the observations that compaction deletes from one
/// listing's series, ascending; with what `compact_series` keeps they make up
/// the series.
pub fn compaction_victims(s: &Vec<PriceObservation>) -> (r: Vec<usize>)
    ensures
        r@.len() == dropped(s@).len(),
        forall|k: int| 0 <= k < r@.len() ==> r@[k] as int == dropped_positions(s@)[k],
        forall|k: int| 0 <= k < r@.len() ==> r@[k] < s@.len() && s@[r@[k] as int] == dropped(s@)[k],
        r@.len() + retained(s@).len() == s@.len(),
{
    let mut kept: Vec<PriceObservation> = Vec::new();
    let mut r: Vec<usize> = Vec::new();
    let mut i: usize = 0;
    while i < s.len()
        invariant
            i <= s.len(),
            kept@ == retained(s@.take(i as int)),
            r@.len() == dropped(s@.take(i as int)).len(),
            dropped_positions(s@.take(i as int)).len() == r@.len(),
            forall|k: int| 0 <= k < r@.len() ==> r@[k] as int == dropped_positions(s@.take(i as int))[k],
            forall|k: int| 0 <= k < r@.len() ==> r@[k] < i,
            forall|k: int| 0 <= k < r@.len() ==> s@[r@[k] as int] == dropped(s@.take(i as int))[k],
            r@.len() + kept@.len() == i,
        decreases s.len() - i,
    {
        let x = s[i];
        let ghost pre = s@.take(i as int);
        let ghost next = s@.take(i as int + 1);
        assert(next.drop_last() == pre);
        assert(next.last() == x);
        let keep = keeps_at(s, i, &kept);
        let ghost r0 = r@;
        if keep {
            kept.push(x);
            assert(dropped(next) == dropped(pre));
        } else {
            r.push(i);
            assert(dropped(next) == dropped(pre).push(x));
        }
        proof {
            assert forall|k: int| 0 <= k < r@.len() implies r@[k] < i + 1 && s@[r@[k] as int] == dropped(next)[k] by {
                if k < r0.len() {
                    assert(r@[k] == r0[k]);
                    assert(s@[r0[k] as int] == dropped(pre)[k]);
                    assert(dropped(next)[k] == dropped(pre)[k]);
                } else {
                    assert(r@[k] == i);
                    assert(s@[i as int] == x);
                }
            }
        }
        i = i + 1;
        assert(s@.take(i as int) == next);
    }
    assert(s@.take(s.len() as int) == s@);
    r
}

/// Observations of the series, most recent first.
pub fn newest_first(s: &Vec<PriceObservation>) -> (r: Vec<PriceObservation>)
    ensures
        r@ == s@.reverse(),
{
    let mut r: Vec<PriceObservation> = Vec::new();
    let mut i: usize = s.len();
    while i > 0
        invariant
            i <= s.len(),
            r@.len() == s.len() - i,
            forall|k: int| 0 <= k < r@.len() ==> r@[k] == s@[s.len() - 1 - k],
        decreases i,
    {
        i = i - 1;
        r.push(s[i]);
    }
    assert(r@ == s@.reverse());
    r
}

/// The latest observation of an ascending series.
pub fn latest(s: &Vec<PriceObservation>) -> (r: Option<PriceObservation>)
    ensures
        s@.len() == 0 ==> r == None::<PriceObservation>,
        s@.len() > 0 ==> r == Some(s@.last()),
{
    if s.len() == 0 {
        None
    } else {
        Some(s[s.len() - 1])
    }
}

/// Adds `o` to an ascending series at its place in time, unless an observation
/// at the same second is already there (then nothing changes, and `false`).
pub fn insert_observation(s: &mut Vec<PriceObservation>, o: PriceObservation) -> (r: bool)
    requires
        ascending(old(s)@),
    ensures
        r == !has_time(old(s)@, o.observed_at),
        !r ==> final(s)@ == old(s)@,
        r ==> exists|k: int| 0 <= k <= old(s)@.len() && final(s)@ == old(s)@.insert(k, o),
        ascending(final(s)@),
{
    let mut k: usize = 0;
    while k < s.len() && s[k].observed_at < o.observed_at
        invariant
            k <= s.len(),
            forall|j: int| 0 <= j < k ==> s@[j].observed_at < o.observed_at,
        decreases s.len() - k,
    {
        k = k + 1;
    }
    if k < s.len() && s[k].observed_at == o.observed_at {
        return false;
    }
    proof {
        assert forall|j: int| 0 <= j < s@.len() implies s@[j].observed_at != o.observed_at by {
            if j >= k {
                assert(s@[k as int].observed_at > o.observed_at);
            }
        }
    }
    let ghost pre = s@;
    s.insert(k, o);
    proof {
        let post = pre.insert(k as int, o);
        assert(s@ == post);
        assert forall|i: int, j: int| 0 <= i < j < post.len() implies post[i].observed_at < post[j].observed_at by {
            if j < k {
            } else if j == k {
            } else if i < k {
                assert(post[j] == pre[j - 1]);
                assert(pre[k as int].observed_at > o.observed_at);
            } else if i == k {
                assert(post[j] == pre[j - 1]);
                assert(pre[k as int].observed_at > o.observed_at);
            } else {
                assert(post[j] == pre[j - 1]);
                assert(post[i] == pre[i - 1]);
            }
        }
    }
    true
}

/// The last retained observation is no later than the last observation.
proof fn lemma_retained_last(s: Seq<PriceObservation>)
    requires
        ascending(s),
        s.len() > 0,
    ensures
        retained(s).len() > 0,
        retained(s).last().observed_at <= s.last().observed_at,
    decreases s.len(),
{
    let p = s.drop_last();
    if p.len() > 0 {
        lemma_retained_last(p);
    }
}

/// Compaction keeps the series in time order and never lengthens it.
pub proof fn lemma_retained_ascending(s: Seq<PriceObservation>)
    requires
        ascending(s),
    ensures
        ascending(retained(s)),
        retained(s).len() <= s.len(),
    decreases s.len(),
{
    if s.len() > 0 {
        let p = s.drop_last();
        let r = retained(p);
        lemma_retained_ascending(p);
        if p.len() > 0 {
            lemma_retained_last(p);
            assert(r.last().observed_at < s.last().observed_at);
            assert forall|k: int| 0 <= k < r.len() implies r[k].observed_at <= r.last().observed_at by {}
        }
    }
}

/// Compacting a series that was just compacted removes nothing.
pub proof fn lemma_compaction_idempotent(s: Seq<PriceObservation>)
    requires
        ascending(s),
    ensures
        retained(retained(s)) == retained(s),
    decreases s.len(),
{
    if s.len() > 0 {
        let p = s.drop_last();
        let x = s.last();
        let r = retained(p);
        lemma_compaction_idempotent(p);
        if keeps(r, p, x) {
            assert(r.push(x).drop_last() == r);
            assert(r.push(x).last() == x);
            if p.len() > 0 {
                lemma_retained_last(p);
                let a = r.last().observed_at as int;
                let b = p.last().observed_at as int;
                let c = x.observed_at as int;
                lemma_div_is_ordered(a, b, 86400);
                lemma_div_is_ordered(b, c, 86400);
            }
            assert(keeps(r, r, x));
        }
    }
}

} // verus!
