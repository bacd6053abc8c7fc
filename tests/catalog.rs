use brea_core::catalog::Catalog;
use brea_core::query::{select_page, PropertyFilter, SortField};
use brea_core::reconcile::reconcile_targets;
use brea_core::error::DbError;
use brea_core::property::{Property, PropertyImage};
use brea_core::status::PropertyStatus;

const HOUR: i64 = 3600;
const DAY: i64 = 86400;
const T0: i64 = 1710892800;

fn listing(source: &str, external_id: &str, price_usd: u64) -> Property {
    Property {
        id: 0,
        external_id: external_id.to_string(),
        source: source.to_string(),
        property_type: Some("apartment".to_string()),
        district: "Test District".to_string(),
        title: "Test Property".to_string(),
        description: Some("Test description".to_string()),
        price_usd,
        address: "123 Test St".to_string(),
        covered_size: Some(100),
        rooms: Some(2),
        antiquity: Some(5),
        url: "https://example.com/test".to_string(),
        status: PropertyStatus::Active,
        created_at: 0,
        updated_at: 0,
    }
}

fn no_filter() -> PropertyFilter {
    PropertyFilter { source: None, status: None, min_price: None, max_price: None, min_size: None, max_size: None }
}

#[test]
fn idempotent_upsert() {
    let mut c = Catalog::new();
    let p = listing("test", "test-123", 100000);
    let id1 = c.save(&p, T0);
    let id2 = c.save(&p, T0 + HOUR);
    assert_eq!(id1, 1);
    assert_eq!(id2, id1);
    assert_eq!(c.len(), 1);
    assert_eq!(c.price_history(id1).unwrap().len(), 1);
}

#[test]
fn update_overwrites_attributes_and_keeps_identity() {
    let mut c = Catalog::new();
    let id = c.save(&listing("test", "test-123", 100000), T0);
    let mut changed = listing("test", "test-123", 150000);
    changed.title = "Renamed".to_string();
    changed.status = PropertyStatus::Sold;
    assert_eq!(c.save(&changed, T0 + HOUR), id);
    let row = c.get(id).unwrap();
    assert_eq!(row.title, "Renamed");
    assert_eq!(row.price_usd, 150000);
    assert_eq!(row.status, PropertyStatus::Active);
    assert_eq!(row.created_at, T0);
    assert_eq!(row.updated_at, T0 + HOUR);
    let history = c.price_history(id).unwrap();
    assert_eq!(history.len(), 2);
    assert_eq!(history[0].price_usd, 150000);
    assert_eq!(history[1].price_usd, 100000);
}

#[test]
fn save_change_threshold() {
    let mut c = Catalog::new();
    let id = c.save(&listing("test", "a", 100000), T0);
    c.save(&listing("test", "a", 100100), T0 + HOUR);
    assert_eq!(c.price_history(id).unwrap().len(), 1);
    c.save(&listing("test", "a", 100200), T0 + 2 * HOUR);
    assert_eq!(c.price_history(id).unwrap().len(), 2);
}

#[test]
fn save_time_threshold() {
    let mut c = Catalog::new();
    let id = c.save(&listing("test", "a", 100000), T0);
    c.save(&listing("test", "a", 100000), T0 + 169 * HOUR);
    let history = c.price_history(id).unwrap();
    assert_eq!(history.len(), 2);
    assert_eq!(history[0].observed_at, T0 + 169 * HOUR);
}

#[test]
fn keys_are_source_and_external_id() {
    let mut c = Catalog::new();
    let a = c.save(&listing("x", "1", 10), T0);
    let b = c.save(&listing("y", "1", 10), T0);
    assert_ne!(a, b);
    assert_eq!(c.get_by_key("y", "1").unwrap().id, b);
    assert!(c.get_by_key("z", "1").is_none());
    assert!(c.get(3).is_none());
    assert!(c.get(0).is_none());
}

#[test]
fn reconciliation() {
    let mut c = Catalog::new();
    let a = c.save(&listing("X", "A", 100), T0);
    let b = c.save(&listing("X", "B", 100), T0);
    let cc = c.save(&listing("X", "C", 100), T0);
    let other = c.save(&listing("Y", "B", 100), T0);
    let seen = vec!["A".to_string(), "C".to_string()];
    let marked = c.reconcile_sold("X", &seen, T0 + HOUR, T0 + 2 * HOUR);
    assert_eq!(marked, 1);
    assert_eq!(c.get(b).unwrap().status, PropertyStatus::Sold);
    assert_eq!(c.get(b).unwrap().updated_at, T0 + 2 * HOUR);
    assert_eq!(c.get(a).unwrap().status, PropertyStatus::Active);
    assert_eq!(c.get(a).unwrap().updated_at, T0);
    assert_eq!(c.get(cc).unwrap().status, PropertyStatus::Active);
    assert_eq!(c.get(other).unwrap().status, PropertyStatus::Active);
}

#[test]
fn reconciliation_spares_rows_saved_during_the_pass() {
    let mut c = Catalog::new();
    let b = c.save(&listing("X", "B", 100), T0 + 2 * HOUR);
    let seen: Vec<String> = Vec::new();
    assert_eq!(c.reconcile_sold("X", &seen, T0 + HOUR, T0 + 3 * HOUR), 0);
    assert_eq!(c.get(b).unwrap().status, PropertyStatus::Active);
}

#[test]
fn reconcile_targets_lists_ids() {
    let mut rows = vec![listing("X", "A", 1), listing("X", "B", 1), listing("X", "C", 1)];
    for (i, r) in rows.iter_mut().enumerate() {
        r.id = i as i64 + 1;
    }
    rows[2].status = PropertyStatus::Removed;
    let seen = vec!["A".to_string()];
    assert_eq!(reconcile_targets(&rows, "X", &seen, 10), vec![2]);
}

#[test]
fn mark_sold_and_removed() {
    let mut c = Catalog::new();
    let id = c.save(&listing("test", "1", 10), T0);
    assert_eq!(c.mark_sold(id, T0 + 1), Ok(()));
    assert_eq!(c.mark_sold(id, T0 + 2), Ok(()));
    assert_eq!(c.get(id).unwrap().status, PropertyStatus::Sold);
    assert_eq!(c.get(id).unwrap().updated_at, T0 + 2);
    assert_eq!(c.mark_removed(id, T0 + 3), Ok(()));
    assert_eq!(c.get(id).unwrap().status, PropertyStatus::Sold);
    assert_eq!(c.mark_sold(7, T0), Err(DbError::NotFound));
    assert_eq!(c.mark_removed(0, T0), Err(DbError::NotFound));
    let other = c.save(&listing("test", "2", 10), T0);
    assert_eq!(c.mark_removed(other, T0 + 4), Ok(()));
    assert_eq!(c.get(other).unwrap().status, PropertyStatus::Removed);
}

#[test]
fn catalog_compaction() {
    let mut c = Catalog::new();
    let id = c.save(&listing("test", "1", 100000), T0 + HOUR);
    assert_eq!(c.append(id, 100000, T0 + 2 * HOUR), Ok(true));
    assert_eq!(c.append(id, 100000, T0 + 3 * HOUR), Ok(true));
    assert_eq!(c.append(id, 120000, T0 + DAY + HOUR), Ok(true));
    assert_eq!(c.append(id, 1, T0 + 3 * HOUR), Ok(false));
    assert_eq!(c.append(9, 1, T0), Err(DbError::NotFound));
    assert_eq!(c.compact(), 2);
    let history = c.price_history(id).unwrap();
    assert_eq!(history.len(), 2);
    assert_eq!(history[0].price_usd, 120000);
    assert_eq!(history[1].observed_at, T0 + HOUR);
    assert_eq!(c.compact(), 0);
    assert_eq!(c.price_history(2), Err(DbError::NotFound));
}

#[test]
fn image_upsert() {
    let mut c = Catalog::new();
    let pid = c.save(&listing("test", "1", 10), T0);
    let img = PropertyImage {
        id: 0,
        property_id: pid,
        url: "https://example.com/image.jpg".to_string(),
        local_path: "/tmp/images/test.jpg".to_string(),
        hash: vec![1, 2, 3, 4],
        created_at: 0,
        updated_at: 0,
    };
    let first = c.save_image(&img, T0).unwrap();
    let mut again = img.duplicate();
    again.local_path = "/tmp/images/other.jpg".to_string();
    again.hash = vec![9];
    assert_eq!(c.save_image(&again, T0 + 5), Ok(first));
    let images = c.images_of(pid);
    assert_eq!(images.len(), 1);
    assert_eq!(images[0].local_path, "/tmp/images/other.jpg");
    assert_eq!(images[0].hash, vec![9]);
    assert_eq!(images[0].created_at, T0);
    assert_eq!(images[0].updated_at, T0 + 5);
    let mut orphan = img.duplicate();
    orphan.property_id = 99;
    assert_eq!(c.save_image(&orphan, T0), Err(DbError::NotFound));
}

#[test]
fn list_with_filters() {
    let mut c = Catalog::new();
    let mut one = listing("test", "test-1", 100000);
    one.covered_size = Some(100);
    let mut two = listing("test", "test-2", 200000);
    two.covered_size = Some(200);
    let mut three = listing("other", "test-3", 150000);
    three.covered_size = None;
    c.save(&one, T0);
    c.save(&two, T0);
    c.save(&three, T0);
    let all = c.list(&no_filter(), SortField::Id, false, 0, None);
    assert_eq!(all.len(), 3);
    let mut f = no_filter();
    f.min_price = Some(150000);
    let ids: Vec<i64> = c.list(&f, SortField::Id, false, 0, None).iter().map(|p| p.id).collect();
    assert_eq!(ids, vec![2, 3]);
    f.max_price = Some(250000);
    f.min_size = Some(150);
    let ids: Vec<i64> = c.list(&f, SortField::Id, false, 0, None).iter().map(|p| p.id).collect();
    assert_eq!(ids, vec![2]);
    let mut g = no_filter();
    g.source = Some("test".to_string());
    let ids: Vec<i64> = c.list(&g, SortField::Id, true, 0, None).iter().map(|p| p.id).collect();
    assert_eq!(ids, vec![2, 1]);
    c.mark_sold(1, T0 + 1).unwrap();
    let mut h = no_filter();
    h.status = Some(PropertyStatus::Sold);
    let ids: Vec<i64> = c.list(&h, SortField::Id, false, 0, None).iter().map(|p| p.id).collect();
    assert_eq!(ids, vec![1]);
}

#[test]
fn list_pages() {
    let mut rows = Vec::new();
    for i in 0..5 {
        let mut p = listing("s", &i.to_string(), 10);
        p.id = i + 1;
        rows.push(p);
    }
    let ids = |v: Vec<Property>| v.iter().map(|p| p.id).collect::<Vec<i64>>();
    assert_eq!(ids(select_page(&rows, &no_filter(), SortField::Id, false, 1, Some(2))), vec![2, 3]);
    assert_eq!(ids(select_page(&rows, &no_filter(), SortField::Id, true, 1, Some(2))), vec![4, 3]);
    assert_eq!(ids(select_page(&rows, &no_filter(), SortField::Id, false, 4, Some(3))), vec![5]);
    assert!(select_page(&rows, &no_filter(), SortField::Id, false, 9, None).is_empty());
}

#[test]
fn list_sorts_stably_by_field() {
    let mut rows = Vec::new();
    let prices = [300, 100, 200, 100];
    let sizes = [Some(50), None, Some(80), Some(20)];
    for i in 0..4 {
        let mut p = listing("s", &i.to_string(), prices[i]);
        p.id = i as i64 + 1;
        p.covered_size = sizes[i];
        rows.push(p);
    }
    let ids = |v: Vec<Property>| v.iter().map(|p| p.id).collect::<Vec<i64>>();
    assert_eq!(ids(select_page(&rows, &no_filter(), SortField::Price, false, 0, None)), vec![2, 4, 3, 1]);
    assert_eq!(ids(select_page(&rows, &no_filter(), SortField::Price, true, 0, Some(2))), vec![1, 3]);
    assert_eq!(ids(select_page(&rows, &no_filter(), SortField::CoveredSize, false, 0, None)), vec![2, 4, 1, 3]);
}

#[test]
fn mod_test_property_crud() {
    let mut c = Catalog::new();
    let property = listing("test", "test-123", 100000);
    let id = c.save(&property, T0);
    assert!(id > 0);
    let retrieved = c.get(id).unwrap();
    assert_eq!(retrieved.external_id, "test-123");
    assert_eq!(retrieved.price_usd, 100000);
    let mut changed = property.duplicate();
    changed.price_usd = 150000;
    c.save(&changed, T0 + HOUR);
    let updated = c.get(id).unwrap();
    assert_eq!(updated.price_usd, 150000);
}

#[test]
fn mod_test_property_image_crud() {
    let mut c = Catalog::new();
    let id = c.save(&listing("test", "test-123", 100000), T0);
    let image = PropertyImage {
        id: 0,
        property_id: id,
        url: "https://example.com/image.jpg".to_string(),
        local_path: "/tmp/images/test.jpg".to_string(),
        hash: vec![1, 2, 3, 4],
        created_at: T0,
        updated_at: T0,
    };
    let image_id = c.save_image(&image, T0).unwrap();
    assert!(image_id > 0);
    let images = c.images_of(id);
    assert_eq!(images.len(), 1);
    assert_eq!(images[0].url, "https://example.com/image.jpg");
}

#[test]
fn test_type_safe_query_builder() {
    let mut c = Catalog::new();
    let property1 = listing("test", "test-1", 100000);
    let mut property2 = listing("test", "test-2", 200000);
    property2.property_type = Some("house".to_string());
    property2.covered_size = Some(150);
    property2.status = PropertyStatus::Sold;
    c.save(&property1, T0);
    c.save(&property2, T0);
    let mut f = no_filter();
    f.status = Some(PropertyStatus::Active);
    let active = c.list(&f, SortField::Id, false, 0, None);
    assert_eq!(active.len(), 1);
    assert_eq!(active[0].external_id, "test-1");
    f.status = Some(PropertyStatus::Sold);
    let sold = c.list(&f, SortField::Id, false, 0, None);
    assert_eq!(sold.len(), 1);
    assert_eq!(sold[0].external_id, "test-2");
}
