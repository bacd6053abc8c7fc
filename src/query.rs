use vstd::prelude::*;
use crate::property::Property;
use crate::status::PropertyStatus;
use crate::text::same_text;

verus! {

/// Which listings a listing query selects.
pub struct PropertyFilter {
    pub source: Option<String>,
    pub status: Option<PropertyStatus>,
    pub min_price: Option<u64>,
    pub max_price: Option<u64>,
    pub min_size: Option<u64>,
    pub max_size: Option<u64>,
}

/// `p` passes every bound that `f` sets; a size bound rejects a listing of
/// unknown size.
pub open spec fn selects(f: PropertyFilter, p: Property) -> bool {
    &&& (f.source matches Some(s) ==> p.source@ == s@)
    &&& (f.status matches Some(st) ==> p.status == st)
    &&& (f.min_price matches Some(m) ==> p.price_usd >= m)
    &&& (f.max_price matches Some(m) ==> p.price_usd <= m)
    &&& (f.min_size matches Some(m) ==> (p.covered_size matches Some(z) && z >= m))
    &&& (f.max_size matches Some(m) ==> (p.covered_size matches Some(z) && z <= m))
}

/// The rows that `f` selects, in row order.
pub open spec fn selected(rows: Seq<Property>, f: PropertyFilter) -> Seq<Property>
    decreases rows.len(),
{
    if rows.len() == 0 {
        rows
    } else {
        let r = selected(rows.drop_last(), f);
        if selects(f, rows.last()) {
            r.push(rows.last())
        } else {
            r
        }
    }
}

/// One page of `s`: skip `offset` items, then take at most `limit`.
pub open spec fn page(s: Seq<Property>, offset: nat, limit: Option<nat>) -> Seq<Property> {
    let rest = if offset <= s.len() {
        s.skip(offset as int)
    } else {
        Seq::empty()
    };
    match limit {
        Some(l) => if l <= rest.len() {
            rest.take(l as int)
        } else {
            rest
        },
        None => rest,
    }
}

/// The attribute a listing query orders by.
#[derive(Clone, Copy, Debug, PartialEq, Eq, Structural)]
pub enum SortField {
    Id,
    Price,
    CoveredSize,
    CreatedAt,
    UpdatedAt,
}

/// The value `p` is ordered by; a listing of unknown size sorts first.
pub open spec fn sort_key(p: Property, field: SortField) -> int {
    match field {
        SortField::Id => p.id as int,
        SortField::Price => p.price_usd as int,
        SortField::CoveredSize => match p.covered_size {
            Some(z) => z as int,
            None => -1,
        },
        SortField::CreatedAt => p.created_at as int,
        SortField::UpdatedAt => p.updated_at as int,
    }
}

/// `s` with `x` placed after every item whose key is at most `x`'s.
pub open spec fn insert_by_key(s: Seq<Property>, x: Property, field: SortField) -> Seq<Property>
    decreases s.len(),
{
    if s.len() == 0 {
        seq![x]
    } else if sort_key(s.last(), field) <= sort_key(x, field) {
        s.push(x)
    } else {
        insert_by_key(s.drop_last(), x, field).push(s.last())
    }
}

/// `s` in ascending key order; items with equal keys keep their order.
pub open spec fn sorted_rows(s: Seq<Property>, field: SortField) -> Seq<Property>
    decreases s.len(),
{
    if s.len() == 0 {
        s
    } else {
        insert_by_key(sorted_rows(s.drop_last(), field), s.last(), field)
    }
}

/// Keys never decrease along `s`.
pub open spec fn keys_ascending(s: Seq<Property>, field: SortField) -> bool {
    forall|i: int, j: int| 0 <= i < j < s.len() ==> sort_key(s[i], field) <= sort_key(s[j], field)
}

proof fn lemma_insert_by_key_at(s: Seq<Property>, x: Property, field: SortField, k: int)
    requires
        0 <= k <= s.len(),
        forall|j: int| k <= j < s.len() ==> sort_key(s[j], field) > sort_key(x, field),
        k == 0 || sort_key(s[k - 1], field) <= sort_key(x, field),
    ensures
        insert_by_key(s, x, field) == s.insert(k, x),
    decreases s.len(),
{
    if s.len() == 0 {
        assert(s.insert(k, x) =~= seq![x]);
    } else if k == s.len() {
        assert(s.insert(k, x) =~= s.push(x));
    } else {
        let p = s.drop_last();
        lemma_insert_by_key_at(p, x, field, k);
        assert(p.insert(k, x).push(s.last()) =~= s.insert(k, x));
    }
}

proof fn lemma_insert_by_key_sorted(s: Seq<Property>, x: Property, field: SortField)
    requires
        keys_ascending(s, field),
    ensures
        keys_ascending(insert_by_key(s, x, field), field),
        insert_by_key(s, x, field).len() == s.len() + 1,
    decreases s.len(),
{
    if s.len() > 0 && sort_key(s.last(), field) > sort_key(x, field) {
        let p = s.drop_last();
        lemma_insert_by_key_sorted(p, x, field);
        lemma_insert_by_key_bound(p, x, field, sort_key(s.last(), field));
    }
}

proof fn lemma_insert_by_key_bound(s: Seq<Property>, x: Property, field: SortField, b: int)
    requires
        forall|i: int| 0 <= i < s.len() ==> sort_key(s[i], field) <= b,
        sort_key(x, field) <= b,
    ensures
        forall|i: int|
            0 <= i < insert_by_key(s, x, field).len() ==> sort_key(insert_by_key(s, x, field)[i], field) <= b,
    decreases s.len(),
{
    let r = insert_by_key(s, x, field);
    if s.len() == 0 {
        assert(r =~= seq![x]);
    } else if sort_key(s.last(), field) <= sort_key(x, field) {
        assert(r == s.push(x));
        assert forall|i: int| 0 <= i < r.len() implies sort_key(r[i], field) <= b by {
            if i < s.len() {
                assert(r[i] == s[i]);
            }
        }
    } else {
        let p = s.drop_last();
        assert forall|i: int| 0 <= i < p.len() implies sort_key(p[i], field) <= b by {
            assert(p[i] == s[i]);
        }
        lemma_insert_by_key_bound(p, x, field, b);
        let q = insert_by_key(p, x, field);
        assert(r == q.push(s.last()));
        assert forall|i: int| 0 <= i < r.len() implies sort_key(r[i], field) <= b by {
            if i < q.len() {
                assert(r[i] == q[i]);
            }
        }
    }
}

proof fn lemma_insert_by_key_multiset(s: Seq<Property>, x: Property, field: SortField)
    ensures
        insert_by_key(s, x, field).to_multiset() =~= s.to_multiset().insert(x),
    decreases s.len(),
{
    broadcast use vstd::seq_lib::group_to_multiset_ensures;

    if s.len() == 0 {
        assert(seq![x] =~= s.push(x));
    } else if sort_key(s.last(), field) > sort_key(x, field) {
        let p = s.drop_last();
        lemma_insert_by_key_multiset(p, x, field);
        assert(s =~= p.push(s.last()));
    }
}

/// Sorting orders keys ascending and keeps every row, each as often as it
/// occurs: the result is a permutation of the input.
pub proof fn lemma_sorted_rows(s: Seq<Property>, field: SortField)
    ensures
        keys_ascending(sorted_rows(s, field), field),
        sorted_rows(s, field).len() == s.len(),
        sorted_rows(s, field).to_multiset() == s.to_multiset(),
    decreases s.len(),
{
    broadcast use vstd::seq_lib::group_to_multiset_ensures;

    if s.len() > 0 {
        let p = s.drop_last();
        lemma_sorted_rows(p, field);
        lemma_insert_by_key_sorted(sorted_rows(p, field), s.last(), field);
        lemma_insert_by_key_multiset(sorted_rows(p, field), s.last(), field);
        assert(s =~= p.push(s.last()));
    }
}

/// The key of `p` for `field`.
pub fn key_of(p: &Property, field: SortField) -> (r: i128)
    ensures
        r == sort_key(*p, field),
{
    match field {
        SortField::Id => p.id as i128,
        SortField::Price => p.price_usd as i128,
        SortField::CoveredSize => match p.covered_size {
            Some(z) => z as i128,
            None => -1,
        },
        SortField::CreatedAt => p.created_at as i128,
        SortField::UpdatedAt => p.updated_at as i128,
    }
}

/// A stable sort of `v` by `field`, ascending.
pub fn sort_rows(v: &Vec<Property>, field: SortField) -> (r: Vec<Property>)
    ensures
        r@ == sorted_rows(v@, field),
{
    let mut r: Vec<Property> = Vec::new();
    let mut i: usize = 0;
    while i < v.len()
        invariant
            i <= v@.len(),
            r@ == sorted_rows(v@.take(i as int), field),
            r@.len() == i,
        decreases v@.len() - i,
    {
        assert(v@.take(i as int + 1).drop_last() == v@.take(i as int));
        let x = v[i].duplicate();
        let kx = key_of(&x, field);
        let mut k: usize = r.len();
        while k > 0 && key_of(&r[k - 1], field) > kx
            invariant
                k <= r@.len(),
                forall|j: int| k <= j < r@.len() ==> sort_key(r@[j], field) > kx,
            decreases k,
        {
            k = k - 1;
        }
        proof {
            lemma_insert_by_key_at(r@, x, field, k as int);
            lemma_sorted_rows(v@.take(i as int), field);
        }
        r.insert(k, x);
        i = i + 1;
    }
    assert(v@.take(v@.len() as int) == v@);
    r
}

/// The rows that `f` selects, ordered by `field` (ascending and stable, then
/// reversed when `descending`), paged by `offset` and `limit`.
pub fn select_page(
    rows: &Vec<Property>,
    f: &PropertyFilter,
    field: SortField,
    descending: bool,
    offset: usize,
    limit: Option<usize>,
) -> (r: Vec<Property>)
    ensures
        r@ == page(
            if descending {
                sorted_rows(selected(rows@, *f), field).reverse()
            } else {
                sorted_rows(selected(rows@, *f), field)
            },
            offset as nat,
            match limit {
                Some(l) => Some(l as nat),
                None => None,
            },
        ),
{
    let mut all: Vec<Property> = Vec::new();
    let mut i: usize = 0;
    while i < rows.len()
        invariant
            i <= rows@.len(),
            all@ == selected(rows@.take(i as int), *f),
        decreases rows@.len() - i,
    {
        assert(rows@.take(i as int + 1).drop_last() == rows@.take(i as int));
        if f.accepts(&rows[i]) {
            all.push(rows[i].duplicate());
        }
        i = i + 1;
    }
    assert(rows@.take(rows@.len() as int) == rows@);
    let all = sort_rows(&all, field);
    let ghost ordered = if descending {
        all@.reverse()
    } else {
        all@
    };
    let n = all.len();
    let mut r: Vec<Property> = Vec::new();
    let mut j: usize = offset;
    while j < n && (limit.is_none() || r.len() < limit.unwrap())
        invariant
            n == all@.len() == ordered.len(),
            offset <= j,
            j - offset == r@.len(),
            ordered == (if descending { all@.reverse() } else { all@ }),
            forall|k: int| 0 <= k < r@.len() ==> r@[k] == ordered[offset + k],
            limit matches Some(l) ==> r@.len() <= l,
            offset <= n ==> j <= n,
            offset > n ==> j == offset,
        decreases n - j,
    {
        let at = if descending { n - 1 - j } else { j };
        r.push(all[at].duplicate());
        j = j + 1;
    }
    proof {
        let lim = match limit {
            Some(l) => Some(l as nat),
            None => None::<nat>,
        };
        let want = page(ordered, offset as nat, lim);
        if offset <= n {
            let rest = ordered.skip(offset as int);
            if j >= n {
                assert(r@ =~= rest);
                match limit {
                    Some(l) => {
                        if (l as nat) <= rest.len() {
                            assert(rest.take(l as int) =~= rest);
                        }
                    },
                    None => {},
                }
            } else {
                let l = limit.unwrap();
                assert(r@.len() == l);
                assert(r@ =~= rest.take(l as int));
            }
        } else {
            assert(r@ =~= Seq::<Property>::empty());
        }
        assert(r@ =~= want);
    }
    r
}

impl PropertyFilter {
    /// Whether `p` passes the filter.
    pub fn accepts(&self, p: &Property) -> (r: bool)
        ensures
            r == selects(*self, *p),
    {
        let source_ok = match &self.source {
            Some(s) => same_text(p.source.as_str(), s.as_str()),
            None => true,
        };
        let status_ok = match self.status {
            Some(st) => p.status == st,
            None => true,
        };
        let min_price_ok = match self.min_price {
            Some(m) => p.price_usd >= m,
            None => true,
        };
        let max_price_ok = match self.max_price {
            Some(m) => p.price_usd <= m,
            None => true,
        };
        let min_size_ok = match self.min_size {
            Some(m) => match p.covered_size {
                Some(z) => z >= m,
                None => false,
            },
            None => true,
        };
        let max_size_ok = match self.max_size {
            Some(m) => match p.covered_size {
                Some(z) => z <= m,
                None => false,
            },
            None => true,
        };
        source_ok && status_ok && min_price_ok && max_price_ok && min_size_ok && max_size_ok
    }
}

} // verus!
