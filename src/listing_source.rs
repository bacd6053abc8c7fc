use vstd::prelude::*;
use crate::property_type::PropertyType;
use crate::status::{DbPropertyStatus, PropertyStatus, status_text};

verus! {

/// The sites listings are collected from.
#[derive(Clone, Copy, Debug, PartialEq, Eq, Structural)]
pub enum ScraperType {
    /// ArgenProp, Argentine real-estate listings.
    Argenprop,
}

/// The path segment ArgenProp uses for each kind.
pub open spec fn argenprop_slug(k: PropertyType) -> Seq<char> {
    match k {
        PropertyType::House => "casas"@,
        PropertyType::Apartment => "departamentos"@,
        PropertyType::Land => "terrenos"@,
        PropertyType::Ph => "ph"@,
        PropertyType::Local => "locales"@,
        PropertyType::Field => "campos"@,
        PropertyType::Garage => "cocheras"@,
        PropertyType::CommercialPremises => "locales-comerciales"@,
        PropertyType::Warehouse => "galpones"@,
        PropertyType::Hotel => "hoteles"@,
        PropertyType::SpecialBusiness => "negocios-especiales"@,
        PropertyType::Office => "oficinas"@,
        PropertyType::CountryHouse => "quintas"@,
    }
}

/// Names a kind the way one site does.
pub trait PropertyTypeTranslator {
    spec fn slug(&self, k: PropertyType) -> Seq<char>;

    fn property_type_to_str(&self, k: &PropertyType) -> (r: &'static str)
        ensures
            r@ == self.slug(*k),
    ;
}

impl PropertyTypeTranslator for ScraperType {
    open spec fn slug(&self, k: PropertyType) -> Seq<char> {
        match self {
            ScraperType::Argenprop => argenprop_slug(k),
        }
    }

    fn property_type_to_str(&self, k: &PropertyType) -> (r: &'static str) {
        match k {
            PropertyType::House => "casas",
            PropertyType::Apartment => "departamentos",
            PropertyType::Land => "terrenos",
            PropertyType::Ph => "ph",
            PropertyType::Local => "locales",
            PropertyType::Field => "campos",
            PropertyType::Garage => "cocheras",
            PropertyType::CommercialPremises => "locales-comerciales",
            PropertyType::Warehouse => "galpones",
            PropertyType::Hotel => "hoteles",
            PropertyType::SpecialBusiness => "negocios-especiales",
            PropertyType::Office => "oficinas",
            PropertyType::CountryHouse => "quintas",
        }
    }
}

/// The text a site uses for a kind.
pub fn property_type_to_str(scraper_type: ScraperType, property_type: &PropertyType) -> (r: &'static str)
    ensures
        r@ == scraper_type.slug(*property_type),
{
    scraper_type.property_type_to_str(property_type)
}

/// Listing sources as named on the command line.
#[derive(Clone, Copy, Debug, PartialEq, Eq, Structural)]
pub enum CliScraperType {
    Argenprop,
}

impl CliScraperType {
    pub fn scraper_type(self) -> (r: ScraperType)
        ensures
            self == CliScraperType::Argenprop ==> r == ScraperType::Argenprop,
    {
        match self {
            CliScraperType::Argenprop => ScraperType::Argenprop,
        }
    }
}

/// Statuses as named on the command line.
#[derive(Clone, Copy, Debug, PartialEq, Eq, Structural)]
pub enum CliPropertyStatus {
    Active,
    Sold,
    Removed,
}

pub open spec fn cli_status(c: CliPropertyStatus) -> PropertyStatus {
    match c {
        CliPropertyStatus::Active => PropertyStatus::Active,
        CliPropertyStatus::Sold => PropertyStatus::Sold,
        CliPropertyStatus::Removed => PropertyStatus::Removed,
    }
}

impl CliPropertyStatus {
    pub fn status(self) -> (r: PropertyStatus)
        ensures
            r == cli_status(self),
    {
        match self {
            CliPropertyStatus::Active => PropertyStatus::Active,
            CliPropertyStatus::Sold => PropertyStatus::Sold,
            CliPropertyStatus::Removed => PropertyStatus::Removed,
        }
    }

    /// The stored status text.
    pub fn db_status(self) -> (r: DbPropertyStatus)
        ensures
            r.0@ == status_text(cli_status(self)),
    {
        DbPropertyStatus::from_status(self.status())
    }
}

/// Column types of the stored value types.
pub trait ColumnType {
    fn sql_type() -> &'static str;
}

impl ColumnType for DbPropertyStatus {
    fn sql_type() -> &'static str {
        "TEXT"
    }
}

impl ColumnType for crate::time::DbTimestamp {
    fn sql_type() -> &'static str {
        "TEXT"
    }
}

} // verus!
