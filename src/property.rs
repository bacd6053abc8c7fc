use vstd::prelude::*;
use crate::status::PropertyStatus;

verus! {

/// One listing as stored. Identity is `(source, external_id)`; `id` is the
/// surrogate key given on first insert.
#[derive(Debug)]
pub struct Property {
    pub id: i64,
    pub external_id: String,
    pub source: String,
    pub property_type: Option<String>,
    pub district: String,
    pub title: String,
    pub description: Option<String>,
    /// Price in whole US dollars.
    pub price_usd: u64,
    pub address: String,
    /// Covered area in whole square metres.
    pub covered_size: Option<u64>,
    pub rooms: Option<i32>,
    /// Age of the building in years.
    pub antiquity: Option<i32>,
    pub url: String,
    pub status: PropertyStatus,
    /// Unix second of the first insert.
    pub created_at: i64,
    /// Unix second of the last change.
    pub updated_at: i64,
}

/// A picture of a listing, unique by `(property_id, url)`.
#[derive(Debug)]
pub struct PropertyImage {
    pub id: i64,
    pub property_id: i64,
    pub url: String,
    pub local_path: String,
    /// Content hash, used to spot duplicates.
    pub hash: Vec<u8>,
    pub created_at: i64,
    pub updated_at: i64,
}

/// What an image holds, as plain values.
pub struct ImageView {
    pub id: i64,
    pub property_id: i64,
    pub url: Seq<char>,
    pub local_path: Seq<char>,
    pub hash: Seq<u8>,
    pub created_at: i64,
    pub updated_at: i64,
}

impl View for PropertyImage {
    type V = ImageView;

    open spec fn view(&self) -> ImageView {
        ImageView {
            id: self.id,
            property_id: self.property_id,
            url: self.url@,
            local_path: self.local_path@,
            hash: self.hash@,
            created_at: self.created_at,
            updated_at: self.updated_at,
        }
    }
}

pub fn copy_text(t: &Option<String>) -> (r: Option<String>)
    ensures
        r == *t,
{
    match t {
        Some(s) => Some(s.clone()),
        None => None,
    }
}

/// `p` with a new status and change time.
pub open spec fn restamped(p: Property, s: PropertyStatus, now: i64) -> Property {
    Property {
        id: p.id,
        external_id: p.external_id,
        source: p.source,
        property_type: p.property_type,
        district: p.district,
        title: p.title,
        description: p.description,
        price_usd: p.price_usd,
        address: p.address,
        covered_size: p.covered_size,
        rooms: p.rooms,
        antiquity: p.antiquity,
        url: p.url,
        status: s,
        created_at: p.created_at,
        updated_at: now,
    }
}

/// A first save of `p`: id `id`, the status `p` carries, created and changed at `now`.
pub open spec fn fresh_row(p: Property, id: i64, now: i64) -> Property {
    Property {
        id: id,
        external_id: p.external_id,
        source: p.source,
        property_type: p.property_type,
        district: p.district,
        title: p.title,
        description: p.description,
        price_usd: p.price_usd,
        address: p.address,
        covered_size: p.covered_size,
        rooms: p.rooms,
        antiquity: p.antiquity,
        url: p.url,
        status: p.status,
        created_at: now,
        updated_at: now,
    }
}

/// A later save of `p` over row `old`: identity, status and creation time stay,
/// every mutable attribute comes from `p`, and the change time is `now`.
///
/// Keeping the status is the reactivation policy: a save never brings a sold or
/// removed listing back to active, whatever status `p` carries.
pub open spec fn refreshed_row(old: Property, p: Property, now: i64) -> Property {
    Property {
        id: old.id,
        external_id: old.external_id,
        source: old.source,
        property_type: p.property_type,
        district: p.district,
        title: p.title,
        description: p.description,
        price_usd: p.price_usd,
        address: p.address,
        covered_size: p.covered_size,
        rooms: p.rooms,
        antiquity: p.antiquity,
        url: p.url,
        status: old.status,
        created_at: old.created_at,
        updated_at: now,
    }
}

impl Property {
    /// A field-by-field copy.
    pub fn duplicate(&self) -> (r: Property)
        ensures
            r == *self,
    {
        Property {
            id: self.id,
            external_id: self.external_id.clone(),
            source: self.source.clone(),
            property_type: copy_text(&self.property_type),
            district: self.district.clone(),
            title: self.title.clone(),
            description: copy_text(&self.description),
            price_usd: self.price_usd,
            address: self.address.clone(),
            covered_size: self.covered_size,
            rooms: self.rooms,
            antiquity: self.antiquity,
            url: self.url.clone(),
            status: self.status,
            created_at: self.created_at,
            updated_at: self.updated_at,
        }
    }

    /// `self` as first saved under `id` at `now`.
    pub fn as_fresh(&self, id: i64, now: i64) -> (r: Property)
        ensures
            r == fresh_row(*self, id, now),
    {
        let mut r = self.duplicate();
        r.id = id;
        r.created_at = now;
        r.updated_at = now;
        r
    }

    /// `self` saved again over row `old` at `now`.
    pub fn refreshing(&self, old: &Property, now: i64) -> (r: Property)
        ensures
            r == refreshed_row(*old, *self, now),
    {
        Property {
            id: old.id,
            external_id: old.external_id.clone(),
            source: old.source.clone(),
            property_type: copy_text(&self.property_type),
            district: self.district.clone(),
            title: self.title.clone(),
            description: copy_text(&self.description),
            price_usd: self.price_usd,
            address: self.address.clone(),
            covered_size: self.covered_size,
            rooms: self.rooms,
            antiquity: self.antiquity,
            url: self.url.clone(),
            status: old.status,
            created_at: old.created_at,
            updated_at: now,
        }
    }
}

impl PropertyImage {
    /// A field-by-field copy.
    pub fn duplicate(&self) -> (r: PropertyImage)
        ensures
            r@ == self@,
    {
        let hash = self.hash.clone();
        assert(hash@ == self.hash@);
        PropertyImage {
            id: self.id,
            property_id: self.property_id,
            url: self.url.clone(),
            local_path: self.local_path.clone(),
            hash,
            created_at: self.created_at,
            updated_at: self.updated_at,
        }
    }
}

} // verus!
