use brea_core::error::DbError;
use brea_core::listing_source::{property_type_to_str, CliPropertyStatus, CliScraperType, ColumnType, ScraperType};
use brea_core::property_type::{all_property_types, PropertyType};
use brea_core::status::{DbPropertyStatus, PropertyStatus};
use brea_core::time::{day_of, DbTimestamp};

#[test]
fn status_parses_any_case() {
    assert_eq!(PropertyStatus::parse("active"), Ok(PropertyStatus::Active));
    assert_eq!(PropertyStatus::parse("SOLD"), Ok(PropertyStatus::Sold));
    assert_eq!(PropertyStatus::parse("Removed"), Ok(PropertyStatus::Removed));
}

#[test]
fn status_rejects_unknown_text() {
    assert_eq!(
        PropertyStatus::parse("pending"),
        Err(DbError::InvalidStatus("pending".to_string()))
    );
    assert_eq!(
        PropertyStatus::parse("2024-03-20T00:00:00Z"),
        Err(DbError::InvalidStatus("2024-03-20T00:00:00Z".to_string()))
    );
}

#[test]
fn status_text_round_trips() {
    for s in [PropertyStatus::Active, PropertyStatus::Sold, PropertyStatus::Removed] {
        assert_eq!(PropertyStatus::parse(s.as_str()), Ok(s));
    }
    assert_eq!(PropertyStatus::Sold.as_str(), "sold");
}

#[test]
fn transitions_only_leave_active() {
    assert_eq!(PropertyStatus::Active.transition(PropertyStatus::Sold), PropertyStatus::Sold);
    assert_eq!(PropertyStatus::Active.transition(PropertyStatus::Removed), PropertyStatus::Removed);
    assert_eq!(PropertyStatus::Sold.transition(PropertyStatus::Active), PropertyStatus::Sold);
    assert_eq!(PropertyStatus::Removed.transition(PropertyStatus::Sold), PropertyStatus::Removed);
    assert_eq!(PropertyStatus::Sold.transition(PropertyStatus::Sold), PropertyStatus::Sold);
}

#[test]
fn db_status_decodes_or_fails() {
    let s = DbPropertyStatus::new("Active");
    assert_eq!(s.as_str(), "Active");
    assert_eq!(s.status(), Ok(PropertyStatus::Active));
    let bad = DbPropertyStatus::new("gone");
    assert_eq!(bad.status(), Err(DbError::InvalidStatus("gone".to_string())));
    assert_eq!(DbPropertyStatus::from_status(PropertyStatus::Removed).as_str(), "removed");
}

#[test]
fn property_type_aliases() {
    assert_eq!(PropertyType::parse("casa"), Ok(PropertyType::House));
    assert_eq!(PropertyType::parse("Departamentos"), Ok(PropertyType::Apartment));
    assert_eq!(PropertyType::parse("PH"), Ok(PropertyType::Ph));
    assert_eq!(PropertyType::parse("commercial premises"), Ok(PropertyType::CommercialPremises));
    assert_eq!(PropertyType::parse("QUINTA"), Ok(PropertyType::CountryHouse));
    assert_eq!(PropertyType::parse("negocio-especial"), Ok(PropertyType::SpecialBusiness));
    assert_eq!(PropertyType::parse("invalid"), Err("invalid".to_string()));
}

#[test]
fn property_type_texts() {
    assert_eq!(PropertyType::CountryHouse.as_db_str(), "country house");
    assert_eq!(PropertyType::Ph.label(), "PH");
    for k in all_property_types() {
        assert_eq!(PropertyType::parse(k.as_db_str()), Ok(k));
    }
    assert_eq!(all_property_types().len(), 13);
    assert_eq!(all_property_types()[0], PropertyType::House);
    assert_eq!(all_property_types()[12], PropertyType::CountryHouse);
}

#[test]
fn argenprop_slugs() {
    assert_eq!(property_type_to_str(ScraperType::Argenprop, &PropertyType::House), "casas");
    assert_eq!(
        property_type_to_str(ScraperType::Argenprop, &PropertyType::CommercialPremises),
        "locales-comerciales"
    );
    assert_eq!(CliScraperType::Argenprop.scraper_type(), ScraperType::Argenprop);
    assert_eq!(CliPropertyStatus::Sold.status(), PropertyStatus::Sold);
    assert_eq!(CliPropertyStatus::Removed.db_status().as_str(), "removed");
    assert_eq!(<DbPropertyStatus as ColumnType>::sql_type(), "TEXT");
}

#[test]
fn timestamps_decode() {
    let t = DbTimestamp::from_rfc3339("2024-03-20T00:00:00Z").unwrap();
    assert_eq!(t.inner(), 1710892800);
    assert_eq!(t.day(), 19802);
    let shifted = DbTimestamp::from_rfc3339("2024-03-20T01:00:00+01:00").unwrap();
    assert_eq!(shifted.inner(), 1710892800);
    assert_eq!(
        DbTimestamp::from_rfc3339("yesterday"),
        Err(DbError::InvalidTimestamp("yesterday".to_string()))
    );
    assert!(DbTimestamp::now().inner() > 1710892800);
}

#[test]
fn days_round_down() {
    assert_eq!(day_of(0), 0);
    assert_eq!(day_of(86399), 0);
    assert_eq!(day_of(86400), 1);
    assert_eq!(day_of(-1), -1);
    assert_eq!(day_of(-86400), -1);
    assert_eq!(day_of(-86401), -2);
    assert_eq!(day_of(i64::MIN), i64::MIN / 86400 - 1);
}
