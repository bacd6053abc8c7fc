use vstd::prelude::*;
use crate::error::DbError;
use crate::history::{
    PriceObservation, ascending, has_time, needs_observation, insert_observation, latest,
    should_record, RECORD_WINDOW_SECS, price_moved, retained, compact_series, newest_first,
    lemma_retained_ascending, lemma_compaction_idempotent,
};
use crate::property::{Property, PropertyImage, ImageView, fresh_row, refreshed_row, restamped};
use crate::status::{PropertyStatus, next_status};
use crate::query::{PropertyFilter, SortField, page, select_page, selected, sorted_rows};
use crate::reconcile::{demoted_count, is_demotable, reconciled, texts};
use crate::text::same_text;

verus! {

/// The store's contents: listings by position (listing `i` has id `i + 1`),
/// the price series of each listing, oldest first, and the images.
pub struct CatalogView {
    pub properties: Seq<Property>,
    pub histories: Seq<Seq<PriceObservation>>,
    pub images: Seq<ImageView>,
}

/// Row `p` carries the identity `(source, ext)`.
pub open spec fn has_key(p: Property, source: Seq<char>, ext: Seq<char>) -> bool {
    p.source@ == source && p.external_id@ == ext
}

/// Some row carries the identity `(source, ext)`.
pub open spec fn key_present(rows: Seq<Property>, source: Seq<char>, ext: Seq<char>) -> bool {
    exists|i: int| 0 <= i < rows.len() && has_key(rows[i], source, ext)
}

/// The position of the row with identity `(source, ext)`, when there is one.
pub open spec fn key_index(rows: Seq<Property>, source: Seq<char>, ext: Seq<char>) -> int {
    choose|i: int| 0 <= i < rows.len() && has_key(rows[i], source, ext)
}

/// The latest observation of a series kept oldest first.
pub open spec fn last_observation(h: Seq<PriceObservation>) -> Option<PriceObservation> {
    if h.len() == 0 {
        None
    } else {
        Some(h.last())
    }
}

/// `h2` is `h` with `o` appended at its place in time; an observation already
/// taken at the same second makes it a no-op.
pub open spec fn recorded(h: Seq<PriceObservation>, h2: Seq<PriceObservation>, o: PriceObservation) -> bool {
    if has_time(h, o.observed_at) {
        h2 == h
    } else {
        ascending(h2) && exists|k: int| 0 <= k <= h.len() && h2 == h.insert(k, o)
    }
}

/// No two rows carry the same identity.
pub open spec fn keys_unique(rows: Seq<Property>) -> bool {
    forall|i: int, j: int|
        0 <= i < rows.len() && 0 <= j < rows.len() && has_key(rows[j], rows[i].source@, rows[i].external_id@)
            ==> i == j
}

/// Rows whose identities stay put keep their identities unique.
proof fn lemma_keys_unique_kept(before: Seq<Property>, after: Seq<Property>)
    requires
        keys_unique(before),
        after.len() == before.len(),
        forall|i: int|
            0 <= i < after.len() ==> after[i].source@ == before[i].source@ && after[i].external_id@
                == before[i].external_id@,
    ensures
        keys_unique(after),
{
    assert forall|a: int, b: int|
        0 <= a < after.len() && 0 <= b < after.len() && has_key(after[b], after[a].source@, after[a].external_id@)
        implies a == b by {
        assert(has_key(before[b], before[a].source@, before[a].external_id@));
    }
}

/// Appending a row with a new identity keeps identities unique.
proof fn lemma_keys_unique_push(before: Seq<Property>, row: Property)
    requires
        keys_unique(before),
        !key_present(before, row.source@, row.external_id@),
    ensures
        keys_unique(before.push(row)),
{
    let after = before.push(row);
    let n = before.len() as int;
    assert forall|i: int, j: int|
        0 <= i < after.len() && 0 <= j < after.len() && has_key(after[j], after[i].source@, after[i].external_id@)
        implies i == j by {
        if i == n && j < n {
            assert(has_key(before[j], row.source@, row.external_id@));
        }
        if j == n && i < n {
            assert(has_key(before[i], row.source@, row.external_id@));
        }
        if i < n && j < n {
            assert(has_key(before[j], before[i].source@, before[i].external_id@));
        }
    }
}

impl CatalogView {
    pub open spec fn wf(self) -> bool {
        &&& self.histories.len() == self.properties.len()
        &&& forall|i: int| 0 <= i < self.properties.len() ==> self.properties[i].id == i + 1
        &&& keys_unique(self.properties)
        &&& forall|i: int| 0 <= i < self.histories.len() ==> ascending(#[trigger] self.histories[i])
        &&& forall|k: int|
            0 <= k < self.images.len() ==> self.images[k].id == k + 1 && 1 <= self.images[k].property_id
                <= self.properties.len()
        &&& forall|k: int, l: int|
            0 <= k < self.images.len() && 0 <= l < self.images.len() && self.images[k].property_id
                == self.images[l].property_id && self.images[k].url == self.images[l].url ==> k == l
    }
}

/// The id that a save of `p` returns.
pub open spec fn saved_id(before: CatalogView, p: Property) -> i64 {
    if key_present(before.properties, p.source@, p.external_id@) {
        before.properties[key_index(before.properties, p.source@, p.external_id@)].id
    } else {
        (before.properties.len() + 1) as i64
    }
}

/// `after` is `before` once `p` was saved at `now`: a new key gets a new row and
/// one observation; a known key keeps its row's id, status and creation time,
/// takes every other attribute from `p`, and gets an observation only when
/// `needs_observation` says so against its latest recorded one.
pub open spec fn saved(before: CatalogView, after: CatalogView, p: Property, now: i64) -> bool {
    let obs = PriceObservation { price_usd: p.price_usd, observed_at: now };
    &&& after.images == before.images
    &&& if key_present(before.properties, p.source@, p.external_id@) {
        let i = key_index(before.properties, p.source@, p.external_id@);
        &&& after.properties == before.properties.update(i, refreshed_row(before.properties[i], p, now))
        &&& after.histories.len() == before.histories.len()
        &&& forall|j: int| 0 <= j < before.histories.len() && j != i ==> after.histories[j] == before.histories[j]
        &&& if needs_observation(last_observation(before.histories[i]), p.price_usd, now) {
            recorded(before.histories[i], after.histories[i], obs)
        } else {
            after.histories[i] == before.histories[i]
        }
    } else {
        &&& after.properties == before.properties.push(fresh_row(p, (before.properties.len() + 1) as i64, now))
        &&& after.histories == before.histories.push(seq![obs])
    }
}

/// An in-memory catalog with the store's semantics.
pub struct Catalog {
    properties: Vec<Property>,
    histories: Vec<Vec<PriceObservation>>,
    images: Vec<PropertyImage>,
}

impl View for Catalog {
    type V = CatalogView;

    closed spec fn view(&self) -> CatalogView {
        CatalogView {
            properties: self.properties@,
            histories: self.histories@.map_values(|h: Vec<PriceObservation>| h@),
            images: self.images@.map_values(|m: PropertyImage| m@),
        }
    }
}

impl Catalog {
    /// An empty catalog.
    pub fn new() -> (r: Catalog)
        ensures
            r@.properties.len() == 0,
            r@.histories.len() == 0,
            r@.images.len() == 0,
            r@.wf(),
    {
        Catalog { properties: Vec::new(), histories: Vec::new(), images: Vec::new() }
    }

    /// Number of listings.
    pub fn len(&self) -> (r: usize)
        ensures
            r == self@.properties.len(),
    {
        self.properties.len()
    }

    /// Position of the listing with identity `(source, external_id)`.
    pub fn find_key(&self, source: &str, external_id: &str) -> (r: Option<usize>)
        ensures
            r matches Some(i) ==> i < self@.properties.len() && has_key(self@.properties[i as int], source@, external_id@),
            r is None ==> !key_present(self@.properties, source@, external_id@),
    {
        let mut i: usize = 0;
        while i < self.properties.len()
            invariant
                i <= self.properties@.len(),
                forall|j: int| 0 <= j < i ==> !has_key(self.properties@[j], source@, external_id@),
            decreases self.properties@.len() - i,
        {
            let row = &self.properties[i];
            if same_text(row.source.as_str(), source) && same_text(row.external_id.as_str(), external_id) {
                return Some(i);
            }
            i = i + 1;
        }
        None
    }

    /// Upserts a listing by `(source, external_id)` at time `now` and returns
    /// its id; see `saved` for the resulting state.
    pub fn save(&mut self, p: &Property, now: i64) -> (id: i64)
        requires
            old(self)@.wf(),
            old(self)@.properties.len() < i64::MAX,
        ensures
            final(self)@.wf(),
            saved(old(self)@, final(self)@, *p, now),
            id == saved_id(old(self)@, *p),
    {
        let ghost before = self@;
        let obs = PriceObservation { price_usd: p.price_usd, observed_at: now };
        match self.find_key(p.source.as_str(), p.external_id.as_str()) {
            None => {
                let id = (self.properties.len() as i64) + 1;
                let row = p.as_fresh(id, now);
                self.properties.push(row);
                let mut h: Vec<PriceObservation> = Vec::new();
                h.push(obs);
                self.histories.push(h);
                proof {
                    assert(self@.histories =~= before.histories.push(seq![obs]));
                    assert(self@.properties == before.properties.push(fresh_row(*p, id, now)));
                    assert(self@.images == before.images);
                    assert(forall|i: int| 0 <= i < self@.properties.len() ==> self@.properties[i].id == i + 1);
                    let n = before.properties.len() as int;
                    lemma_keys_unique_push(before.properties, fresh_row(*p, id, now));
                    assert forall|i: int| 0 <= i < self@.histories.len() implies ascending(
                        #[trigger] self@.histories[i],
                    ) by {
                        if i < n {
                            assert(self@.histories[i] == before.histories[i]);
                        }
                    }
                }
                id
            },
            Some(i) => {
                proof {
                    assert(key_present(before.properties, p.source@, p.external_id@));
                    let k = key_index(before.properties, p.source@, p.external_id@);
                    assert(has_key(before.properties[i as int], before.properties[k].source@, before.properties[k].external_id@));
                    assert(k == i);
                }
                let row = p.refreshing(&self.properties[i], now);
                let id = row.id;
                let last = latest(&self.histories[i]);
                let ghost h0 = self.histories@[i as int]@;
                assert(h0 == before.histories[i as int]);
                if should_record(last, p.price_usd, now) {
                    let slot = &mut self.histories[i];
                    insert_observation(slot, obs);
                }
                self.properties.set(i, row);
                proof {
                    assert(self@.histories.len() == before.histories.len());
                    assert(self@.images == before.images);
                    assert(self@.properties[i as int].id == i + 1);
                    assert(forall|j: int| 0 <= j < self@.properties.len() ==> self@.properties[j].id == j + 1);
                    assert forall|j: int| 0 <= j < before.histories.len() && j != i implies self@.histories[j]
                        == before.histories[j] by {}
                    lemma_keys_unique_kept(before.properties, self@.properties);
                    assert forall|j: int| 0 <= j < self@.histories.len() implies ascending(
                        #[trigger] self@.histories[j],
                    ) by {
                        if j != i {
                            assert(self@.histories[j] == before.histories[j]);
                        }
                    }
                }
                id
            },
        }
    }
}


/// Every series after compaction.
pub open spec fn compacted(hs: Seq<Seq<PriceObservation>>) -> Seq<Seq<PriceObservation>> {
    hs.map_values(|h: Seq<PriceObservation>| retained(h))
}

/// How many observations compaction deletes over all series.
pub open spec fn removed_total(hs: Seq<Seq<PriceObservation>>) -> int
    decreases hs.len(),
{
    if hs.len() == 0 {
        0
    } else {
        removed_total(hs.drop_last()) + (hs.last().len() - retained(hs.last()).len())
    }
}

/// Image `m` saved again as `img` at `now`: identity and creation time stay.
pub open spec fn refreshed_image(m: ImageView, img: ImageView, now: i64) -> ImageView {
    ImageView {
        id: m.id,
        property_id: m.property_id,
        url: m.url,
        local_path: img.local_path,
        hash: img.hash,
        created_at: m.created_at,
        updated_at: now,
    }
}

/// A first save of image `img` under id `id` at `now`.
pub open spec fn fresh_image(img: ImageView, id: i64, now: i64) -> ImageView {
    ImageView {
        id: id,
        property_id: img.property_id,
        url: img.url,
        local_path: img.local_path,
        hash: img.hash,
        created_at: now,
        updated_at: now,
    }
}

/// Image `m` has the identity of `img`.
pub open spec fn same_image(m: ImageView, img: ImageView) -> bool {
    m.property_id == img.property_id && m.url == img.url
}

/// The images of listing `pid`, in id order.
pub open spec fn images_for(imgs: Seq<ImageView>, pid: i64) -> Seq<ImageView>
    decreases imgs.len(),
{
    if imgs.len() == 0 {
        imgs
    } else {
        let r = images_for(imgs.drop_last(), pid);
        if imgs.last().property_id == pid {
            r.push(imgs.last())
        } else {
            r
        }
    }
}

/// Position `k` of a listing id, when `1 <= id <= len`.
pub fn index_of_id(id: i64, len: usize) -> (r: Option<usize>)
    ensures
        r is Some <==> 1 <= id <= len,
        r matches Some(k) ==> k == id - 1,
{
    if id >= 1 && ((id - 1) as u64) < (len as u64) {
        Some((id - 1) as usize)
    } else {
        None
    }
}

impl Catalog {
    /// The listing with id `id`.
    pub fn get(&self, id: i64) -> (r: Option<Property>)
        requires
            self@.wf(),
        ensures
            r is Some <==> 1 <= id <= self@.properties.len(),
            r matches Some(p) ==> p == self@.properties[id - 1],
    {
        match index_of_id(id, self.properties.len()) {
            Some(k) => Some(self.properties[k].duplicate()),
            None => None,
        }
    }

    /// The listing with identity `(source, external_id)`.
    pub fn get_by_key(&self, source: &str, external_id: &str) -> (r: Option<Property>)
        requires
            self@.wf(),
        ensures
            r is Some <==> key_present(self@.properties, source@, external_id@),
            r matches Some(p) ==> p == self@.properties[key_index(self@.properties, source@, external_id@)],
    {
        match self.find_key(source, external_id) {
            Some(i) => {
                proof {
                    let k = key_index(self@.properties, source@, external_id@);
                    assert(has_key(self@.properties[i as int], self@.properties[k].source@, self@.properties[k].external_id@));
                }
                Some(self.properties[i].duplicate())
            },
            None => None,
        }
    }

    /// Moves listing `id` toward `to` (only an active listing moves) and
    /// stamps it with `now`; an unknown id is `NotFound` and changes nothing.
    fn set_status(&mut self, id: i64, to: PropertyStatus, now: i64) -> (r: Result<(), DbError>)
        requires
            old(self)@.wf(),
        ensures
            final(self)@.wf(),
            r is Ok <==> 1 <= id <= old(self)@.properties.len(),
            r is Ok ==> final(self)@ == (CatalogView {
                properties: old(self)@.properties.update(
                    id - 1,
                    restamped(old(self)@.properties[id - 1], next_status(old(self)@.properties[id - 1].status, to), now),
                ),
                ..old(self)@
            }),
            r matches Err(e) ==> final(self)@ == old(self)@ && e == DbError::NotFound,
    {
        if let Some(k) = index_of_id(id, self.properties.len()) {
            let ghost before = self@;
            let row = &mut self.properties[k];
            row.status = row.status.transition(to);
            row.updated_at = now;
            proof {
                assert(self@.properties =~= before.properties.update(
                    id - 1,
                    restamped(before.properties[id - 1], next_status(before.properties[id - 1].status, to), now),
                ));
                lemma_keys_unique_kept(before.properties, self@.properties);
            }
            Ok(())
        } else {
            Err(DbError::NotFound)
        }
    }

    /// Marks listing `id` sold at `now`; repeating it changes only the stamp.
    pub fn mark_sold(&mut self, id: i64, now: i64) -> (r: Result<(), DbError>)
        requires
            old(self)@.wf(),
        ensures
            final(self)@.wf(),
            r is Ok <==> 1 <= id <= old(self)@.properties.len(),
            r is Ok ==> final(self)@ == (CatalogView {
                properties: old(self)@.properties.update(
                    id - 1,
                    restamped(
                        old(self)@.properties[id - 1],
                        next_status(old(self)@.properties[id - 1].status, PropertyStatus::Sold),
                        now,
                    ),
                ),
                ..old(self)@
            }),
            r matches Err(e) ==> final(self)@ == old(self)@ && e == DbError::NotFound,
    {
        self.set_status(id, PropertyStatus::Sold, now)
    }

    /// Marks listing `id` removed at `now`; repeating it changes only the stamp.
    pub fn mark_removed(&mut self, id: i64, now: i64) -> (r: Result<(), DbError>)
        requires
            old(self)@.wf(),
        ensures
            final(self)@.wf(),
            r is Ok <==> 1 <= id <= old(self)@.properties.len(),
            r is Ok ==> final(self)@ == (CatalogView {
                properties: old(self)@.properties.update(
                    id - 1,
                    restamped(
                        old(self)@.properties[id - 1],
                        next_status(old(self)@.properties[id - 1].status, PropertyStatus::Removed),
                        now,
                    ),
                ),
                ..old(self)@
            }),
            r matches Err(e) ==> final(self)@ == old(self)@ && e == DbError::NotFound,
    {
        self.set_status(id, PropertyStatus::Removed, now)
    }

    /// Marks sold, at `now`, every active listing of `source` that the crawl
    /// pass did not see and that no save touched since the pass began at
    /// `pass_start`; returns how many were marked.
    pub fn reconcile_sold(&mut self, source: &str, seen: &Vec<String>, pass_start: i64, now: i64) -> (r: usize)
        requires
            old(self)@.wf(),
        ensures
            final(self)@.wf(),
            final(self)@.properties.len() == old(self)@.properties.len(),
            forall|i: int|
                0 <= i < old(self)@.properties.len() ==> final(self)@.properties[i] == reconciled(
                    old(self)@.properties[i],
                    source@,
                    texts(seen@),
                    pass_start,
                    now,
                ),
            final(self)@.histories == old(self)@.histories,
            final(self)@.images == old(self)@.images,
            r == demoted_count(old(self)@.properties, source@, texts(seen@), pass_start),
    {
        let ghost before = self@;
        let ghost names = texts(seen@);
        let mut count: usize = 0;
        let mut i: usize = 0;
        while i < self.properties.len()
            invariant
                before.wf(),
                i <= self.properties@.len() == before.properties.len(),
                forall|j: int| 0 <= j < i ==> self.properties@[j] == reconciled(before.properties[j], source@, names, pass_start, now),
                forall|j: int| i <= j < self.properties@.len() ==> self.properties@[j] == before.properties[j],
                self@.histories == before.histories,
                self@.images == before.images,
                names == texts(seen@),
                count == demoted_count(before.properties.take(i as int), source@, names, pass_start),
                count <= i,
            decreases self.properties@.len() - i,
        {
            assert(before.properties.take(i as int + 1).drop_last() == before.properties.take(i as int));
            let demote = is_demotable(&self.properties[i], source, seen, pass_start);
            if demote {
                let row = &mut self.properties[i];
                row.status = PropertyStatus::Sold;
                row.updated_at = now;
                count = count + 1;
            }
            i = i + 1;
        }
        proof {
            assert(before.properties.take(before.properties.len() as int) == before.properties);
            lemma_keys_unique_kept(before.properties, self@.properties);
            assert(self@.histories == before.histories);
        }
        count
    }

    /// Adds an observation to listing `id`'s series; one at the same second is
    /// already there is left alone (`Ok(false)`). An unknown id is `NotFound`.
    pub fn append(&mut self, id: i64, price_usd: u64, observed_at: i64) -> (r: Result<bool, DbError>)
        requires
            old(self)@.wf(),
        ensures
            final(self)@.wf(),
            r is Ok <==> 1 <= id <= old(self)@.properties.len(),
            r matches Ok(added) ==> {
                let h = old(self)@.histories[id - 1];
                let o = PriceObservation { price_usd, observed_at };
                &&& added == !has_time(h, observed_at)
                &&& recorded(h, final(self)@.histories[id - 1], o)
                &&& final(self)@.histories == old(self)@.histories.update(id - 1, final(self)@.histories[id - 1])
                &&& final(self)@.properties == old(self)@.properties
                &&& final(self)@.images == old(self)@.images
            },
            r matches Err(e) ==> final(self)@ == old(self)@ && e == DbError::NotFound,
    {
        if let Some(k) = index_of_id(id, self.histories.len()) {
            let ghost before = self@;
            assert(self.histories@[k as int]@ == before.histories[k as int]);
            assert(ascending(before.histories[k as int]));
            let slot = &mut self.histories[k];
            let added = insert_observation(slot, PriceObservation { price_usd, observed_at });
            proof {
                assert(self@.histories =~= before.histories.update(id - 1, self@.histories[id - 1]));
                assert(self@.properties == before.properties);
                assert(self@.images == before.images);
                assert forall|j: int| 0 <= j < self@.histories.len() implies ascending(
                    #[trigger] self@.histories[j],
                ) by {
                    if j != k {
                        assert(self@.histories[j] == before.histories[j]);
                    }
                }
            }
            Ok(added)
        } else {
            Err(DbError::NotFound)
        }
    }

    /// Listing `id`'s observations, most recent first.
    pub fn price_history(&self, id: i64) -> (r: Result<Vec<PriceObservation>, DbError>)
        requires
            self@.wf(),
        ensures
            r is Ok <==> 1 <= id <= self@.properties.len(),
            r matches Ok(v) ==> v@ == self@.histories[id - 1].reverse(),
            r matches Err(e) ==> e == DbError::NotFound,
    {
        if let Some(k) = index_of_id(id, self.histories.len()) {
            assert(self.histories@[k as int]@ == self@.histories[id - 1]);
            Ok(newest_first(&self.histories[k]))
        } else {
            Err(DbError::NotFound)
        }
    }

    /// Applies the retention policy to every listing's series; returns how
    /// many observations were deleted.
    pub fn compact(&mut self) -> (r: u128)
        requires
            old(self)@.wf(),
        ensures
            final(self)@.wf(),
            final(self)@.histories == compacted(old(self)@.histories),
            final(self)@.properties == old(self)@.properties,
            final(self)@.images == old(self)@.images,
            r == removed_total(old(self)@.histories),
    {
        let ghost before = self@;
        let mut total: u128 = 0;
        let mut i: usize = 0;
        while i < self.histories.len()
            invariant
                before.wf(),
                i <= self.histories@.len() == before.histories.len(),
                forall|j: int| 0 <= j < i ==> self.histories@[j]@ == retained(before.histories[j]),
                forall|j: int| i <= j < self.histories@.len() ==> self.histories@[j]@ == before.histories[j],
                self.properties@ == before.properties,
                self@.images == before.images,
                total == removed_total(before.histories.take(i as int)),
                0 <= total <= i * 0x1_0000_0000_0000_0000,
            decreases self.histories@.len() - i,
        {
            assert(before.histories.take(i as int + 1).drop_last() == before.histories.take(i as int));
            assert(self.histories@[i as int]@ == before.histories[i as int]);
            let kept = compact_series(&self.histories[i]);
            proof {
                lemma_retained_ascending(before.histories[i as int]);
            }
            let removed = self.histories[i].len() - kept.len();
            assert(total + removed <= (i + 1) * 0x1_0000_0000_0000_0000) by (nonlinear_arith)
                requires
                    total <= i * 0x1_0000_0000_0000_0000,
                    removed < 0x1_0000_0000_0000_0000,
            ;
            total = total + removed as u128;
            self.histories.set(i, kept);
            i = i + 1;
        }
        proof {
            assert(before.histories.take(before.histories.len() as int) == before.histories);
            assert(self@.histories =~= compacted(before.histories));
            assert forall|j: int| 0 <= j < self@.histories.len() implies ascending(#[trigger] self@.histories[j]) by {
                lemma_retained_ascending(before.histories[j]);
            }
        }
        total
    }

    /// Upserts an image of listing `img.property_id` by `(property_id, url)`:
    /// a known image keeps its id and creation time and takes the new path and
    /// hash; a new one gets the next id. An unknown listing is `NotFound`.
    pub fn save_image(&mut self, img: &PropertyImage, now: i64) -> (r: Result<i64, DbError>)
        requires
            old(self)@.wf(),
            old(self)@.images.len() < i64::MAX,
        ensures
            final(self)@.wf(),
            r is Ok <==> 1 <= img.property_id <= old(self)@.properties.len(),
            r matches Err(e) ==> final(self)@ == old(self)@ && e == DbError::NotFound,
            r matches Ok(id) ==> {
                &&& final(self)@.properties == old(self)@.properties
                &&& final(self)@.histories == old(self)@.histories
                &&& if exists|k: int| 0 <= k < old(self)@.images.len() && same_image(old(self)@.images[k], img@) {
                    let k = choose|k: int| 0 <= k < old(self)@.images.len() && same_image(old(self)@.images[k], img@);
                    &&& final(self)@.images == old(self)@.images.update(k, refreshed_image(old(self)@.images[k], img@, now))
                    &&& id == old(self)@.images[k].id
                } else {
                    &&& final(self)@.images == old(self)@.images.push(fresh_image(img@, id, now))
                    &&& id == old(self)@.images.len() + 1
                }
            },
    {
        if index_of_id(img.property_id, self.properties.len()).is_none() {
            return Err(DbError::NotFound);
        }
        let ghost before = self@;
        let found = self.find_image(img.property_id, img.url.as_str());
        if let Some(k) = found {
            proof {
                let c = choose|c: int| 0 <= c < before.images.len() && same_image(before.images[c], img@);
                assert(same_image(before.images[k as int], img@));
                assert(same_image(before.images[c], before.images[k as int]));
                assert(c == k);
            }
            let id = self.images[k].id;
            let hash = img.hash.clone();
            assert(hash@ == img.hash@);
            let slot = &mut self.images[k];
            slot.local_path = img.local_path.clone();
            slot.hash = hash;
            slot.updated_at = now;
            proof {
                assert(self@.images =~= before.images.update(k as int, refreshed_image(before.images[k as int], img@, now)));
            }
            Ok(id)
        } else {
            let id = (self.images.len() as i64) + 1;
            let mut m = img.duplicate();
            m.id = id;
            m.created_at = now;
            m.updated_at = now;
            self.images.push(m);
            proof {
                assert(self@.images =~= before.images.push(fresh_image(img@, id, now)));
            }
            Ok(id)
        }
    }

    /// Position of the image with identity `(property_id, url)`.
    fn find_image(&self, property_id: i64, url: &str) -> (r: Option<usize>)
        ensures
            r matches Some(k) ==> k < self@.images.len() && self@.images[k as int].property_id == property_id
                && self@.images[k as int].url == url@,
            r is None ==> forall|k: int|
                0 <= k < self@.images.len() ==> !(self@.images[k].property_id == property_id
                    && self@.images[k].url == url@),
    {
        let mut k: usize = 0;
        while k < self.images.len()
            invariant
                k <= self.images@.len(),
                forall|j: int| 0 <= j < k ==> !(self.images@[j].property_id == property_id && self.images@[j].url@ == url@),
            decreases self.images@.len() - k,
        {
            if self.images[k].property_id == property_id && same_text(self.images[k].url.as_str(), url) {
                return Some(k);
            }
            k = k + 1;
        }
        None
    }

    /// The images of listing `property_id`, in id order.
    pub fn images_of(&self, property_id: i64) -> (r: Vec<PropertyImage>)
        ensures
            r@.map_values(|m: PropertyImage| m@) == images_for(self@.images, property_id),
    {
        let mut r: Vec<PropertyImage> = Vec::new();
        let mut i: usize = 0;
        let ghost all = self@.images;
        while i < self.images.len()
            invariant
                i <= self.images@.len(),
                all == self@.images,
                r@.map_values(|m: PropertyImage| m@) == images_for(all.take(i as int), property_id),
            decreases self.images@.len() - i,
        {
            assert(all.take(i as int + 1).drop_last() == all.take(i as int));
            assert(all[i as int] == self.images@[i as int]@);
            if self.images[i].property_id == property_id {
                let ghost before = r@;
                let m = self.images[i].duplicate();
                r.push(m);
                assert(r@.map_values(|m: PropertyImage| m@) =~= before.map_values(|m: PropertyImage| m@).push(m@));
            }
            i = i + 1;
        }
        assert(all.take(all.len() as int) == all);
        r
    }

    /// The listings that `f` selects, ordered by `field` (reversed when
    /// `descending`), paged by `offset` and `limit`.
    pub fn list(
        &self,
        f: &PropertyFilter,
        field: SortField,
        descending: bool,
        offset: usize,
        limit: Option<usize>,
    ) -> (r: Vec<Property>)
        ensures
            r@ == page(
                if descending {
                    sorted_rows(selected(self@.properties, *f), field).reverse()
                } else {
                    sorted_rows(selected(self@.properties, *f), field)
                },
                offset as nat,
                match limit {
                    Some(l) => Some(l as nat),
                    None => None,
                },
            ),
    {
        select_page(&self.properties, f, field, descending, offset, limit)
    }
}

/// Saving one identity twice at the same price within the record window leaves
/// one row for it and one observation: the second save neither inserts a row
/// nor records a price.
pub proof fn lemma_idempotent_upsert(
    c0: CatalogView,
    c1: CatalogView,
    c2: CatalogView,
    p: Property,
    q: Property,
    t1: i64,
    t2: i64,
)
    requires
        c0.wf(),
        !key_present(c0.properties, p.source@, p.external_id@),
        has_key(q, p.source@, p.external_id@),
        q.price_usd == p.price_usd,
        t2 as int - t1 as int <= RECORD_WINDOW_SECS as int,
        saved(c0, c1, p, t1),
        saved(c1, c2, q, t2),
    ensures
        c2.properties.len() == c0.properties.len() + 1,
        has_key(c2.properties[c0.properties.len() as int], p.source@, p.external_id@),
        forall|j: int|
            0 <= j < c2.properties.len() && has_key(c2.properties[j], p.source@, p.external_id@) ==> j
                == c0.properties.len(),
        c2.histories[c0.properties.len() as int].len() == 1,
        saved_id(c1, q) == saved_id(c0, p),
{
    let n = c0.properties.len() as int;
    assert(has_key(c1.properties[n], p.source@, p.external_id@));
    assert(key_present(c1.properties, q.source@, q.external_id@));
    let i = key_index(c1.properties, q.source@, q.external_id@);
    if i != n {
        assert(c1.properties[i] == c0.properties[i]);
        assert(has_key(c0.properties[i], p.source@, p.external_id@));
    }
    assert(i == n);
    assert(c1.histories[n] == seq![PriceObservation { price_usd: p.price_usd, observed_at: t1 }]);
    assert(!price_moved(p.price_usd, q.price_usd));
    assert forall|j: int| 0 <= j < c2.properties.len() && has_key(c2.properties[j], p.source@, p.external_id@) implies j
        == n by {
        if j != n {
            assert(c2.properties[j] == c0.properties[j]);
            assert(has_key(c0.properties[j], p.source@, p.external_id@));
        }
    }
}

proof fn lemma_removed_none(hs: Seq<Seq<PriceObservation>>)
    requires
        forall|i: int| 0 <= i < hs.len() ==> retained(#[trigger] hs[i]) == hs[i],
    ensures
        removed_total(hs) == 0,
    decreases hs.len(),
{
    if hs.len() > 0 {
        let p = hs.drop_last();
        assert forall|i: int| 0 <= i < p.len() implies retained(#[trigger] p[i]) == p[i] by {
            assert(p[i] == hs[i]);
        }
        lemma_removed_none(p);
        assert(retained(hs[hs.len() - 1]) == hs[hs.len() - 1]);
    }
}

/// A second compaction right after a first deletes nothing and leaves every
/// series as it was.
pub proof fn lemma_compact_twice(c: CatalogView)
    requires
        c.wf(),
    ensures
        compacted(compacted(c.histories)) == compacted(c.histories),
        removed_total(compacted(c.histories)) == 0,
{
    let once = compacted(c.histories);
    assert forall|i: int| 0 <= i < once.len() implies retained(#[trigger] once[i]) == once[i] by {
        lemma_compaction_idempotent(c.histories[i]);
    }
    assert(compacted(once) =~= once);
    lemma_removed_none(once);
}

} // verus!
