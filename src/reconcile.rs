use vstd::prelude::*;
use crate::property::{Property, restamped};
use crate::status::PropertyStatus;
use crate::text::same_text;

verus! {

/// The texts of a list of strings.
pub open spec fn texts(v: Seq<String>) -> Seq<Seq<char>> {
    v.map_values(|s: String| s@)
}

/// A listing that reconciliation demotes: active, from `source`, absent from
/// the crawl pass, and not changed since the pass began.
pub open spec fn demotable(p: Property, source: Seq<char>, seen: Seq<Seq<char>>, pass_start: i64) -> bool {
    &&& p.status == PropertyStatus::Active
    &&& p.source@ == source
    &&& !seen.contains(p.external_id@)
    &&& p.updated_at < pass_start
}

/// Row `p` after reconciliation.
pub open spec fn reconciled(p: Property, source: Seq<char>, seen: Seq<Seq<char>>, pass_start: i64, now: i64) -> Property {
    if demotable(p, source, seen, pass_start) {
        restamped(p, PropertyStatus::Sold, now)
    } else {
        p
    }
}

/// How many rows reconciliation demotes.
pub open spec fn demoted_count(rows: Seq<Property>, source: Seq<char>, seen: Seq<Seq<char>>, pass_start: i64) -> nat
    decreases rows.len(),
{
    if rows.len() == 0 {
        0
    } else {
        demoted_count(rows.drop_last(), source, seen, pass_start) + if demotable(
            rows.last(),
            source,
            seen,
            pass_start,
        ) {
            1nat
        } else {
            0nat
        }
    }
}

/// The texts of `v` include `t`.
pub fn contains_text(v: &Vec<String>, t: &str) -> (r: bool)
    ensures
        r == texts(v@).contains(t@),
{
    let mut i: usize = 0;
    while i < v.len()
        invariant
            i <= v@.len(),
            forall|j: int| 0 <= j < i ==> v@[j]@ != t@,
        decreases v@.len() - i,
    {
        if same_text(v[i].as_str(), t) {
            assert(texts(v@)[i as int] == t@);
            return true;
        }
        i = i + 1;
    }
    proof {
        if texts(v@).contains(t@) {
            let j = choose|j: int| 0 <= j < texts(v@).len() && texts(v@)[j] == t@;
            assert(v@[j]@ == t@);
        }
    }
    false
}


/// The ids of the rows that reconciliation demotes, in row order.
pub open spec fn demoted_ids(rows: Seq<Property>, source: Seq<char>, seen: Seq<Seq<char>>, pass_start: i64) -> Seq<i64>
    decreases rows.len(),
{
    if rows.len() == 0 {
        Seq::empty()
    } else {
        let r = demoted_ids(rows.drop_last(), source, seen, pass_start);
        if demotable(rows.last(), source, seen, pass_start) {
            r.push(rows.last().id)
        } else {
            r
        }
    }
}

/// Whether reconciliation demotes row `p`.
pub fn is_demotable(p: &Property, source: &str, seen: &Vec<String>, pass_start: i64) -> (r: bool)
    ensures
        r == demotable(*p, source@, texts(seen@), pass_start),
{
    p.status == PropertyStatus::Active && same_text(p.source.as_str(), source)
        && !contains_text(seen, p.external_id.as_str()) && p.updated_at < pass_start
}

/// The ids that a reconciliation of `source` against the crawl pass `seen`,
/// begun at `pass_start`, marks sold.
pub fn reconcile_targets(rows: &Vec<Property>, source: &str, seen: &Vec<String>, pass_start: i64) -> (r: Vec<i64>)
    ensures
        r@ == demoted_ids(rows@, source@, texts(seen@), pass_start),
{
    let mut r: Vec<i64> = Vec::new();
    let mut i: usize = 0;
    while i < rows.len()
        invariant
            i <= rows@.len(),
            r@ == demoted_ids(rows@.take(i as int), source@, texts(seen@), pass_start),
        decreases rows@.len() - i,
    {
        assert(rows@.take(i as int + 1).drop_last() == rows@.take(i as int));
        if is_demotable(&rows[i], source, seen, pass_start) {
            r.push(rows[i].id);
        }
        i = i + 1;
    }
    assert(rows@.take(rows@.len() as int) == rows@);
    r
}

} // verus!
