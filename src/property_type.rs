use vstd::prelude::*;
use crate::text::{lower_of, lowercase, same_text};

verus! {

/// Kind of real-estate unit a listing offers.
#[derive(Clone, Copy, Debug, PartialEq, Eq, Hash, Structural)]
pub enum PropertyType {
    House,
    Apartment,
    Land,
    Ph,
    Local,
    Field,
    Garage,
    CommercialPremises,
    Warehouse,
    Hotel,
    SpecialBusiness,
    Office,
    CountryHouse,
}

/// The kind named by an already lower-cased text, English or Spanish,
/// singular or plural.
pub open spec fn type_of_text(t: Seq<char>) -> Option<PropertyType> {
    if t == "house"@ || t == "houses"@ || t == "casa"@ || t == "casas"@ {
        Some(PropertyType::House)
    } else if t == "apartment"@ || t == "apartments"@ || t == "departamento"@ || t == "departamentos"@ {
        Some(PropertyType::Apartment)
    } else if t == "land"@ || t == "lands"@ || t == "terreno"@ || t == "terrenos"@ {
        Some(PropertyType::Land)
    } else if t == "ph"@ {
        Some(PropertyType::Ph)
    } else if t == "local"@ || t == "locales"@ {
        Some(PropertyType::Local)
    } else if t == "field"@ || t == "fields"@ || t == "campo"@ || t == "campos"@ {
        Some(PropertyType::Field)
    } else if t == "garage"@ || t == "garages"@ || t == "cochera"@ || t == "cocheras"@ {
        Some(PropertyType::Garage)
    } else if t == "commercial"@ || t == "commercial-premises"@ || t == "fondo-comercio"@ || t == "commercial premises"@ {
        Some(PropertyType::CommercialPremises)
    } else if t == "warehouse"@ || t == "warehouses"@ || t == "galpon"@ || t == "galpones"@ {
        Some(PropertyType::Warehouse)
    } else if t == "hotel"@ || t == "hotels"@ {
        Some(PropertyType::Hotel)
    } else if t == "special-business"@ || t == "special-businesses"@ || t == "negocio-especial"@ || t == "special business"@ {
        Some(PropertyType::SpecialBusiness)
    } else if t == "office"@ || t == "offices"@ || t == "oficina"@ || t == "oficinas"@ {
        Some(PropertyType::Office)
    } else if t == "country-house"@ || t == "country-houses"@ || t == "quinta"@ || t == "quintas"@ || t == "country house"@ {
        Some(PropertyType::CountryHouse)
    } else {
        None
    }
}

/// The text stored in the `property_type` column.
pub open spec fn type_text(k: PropertyType) -> Seq<char> {
    match k {
        PropertyType::House => "house"@,
        PropertyType::Apartment => "apartment"@,
        PropertyType::Land => "land"@,
        PropertyType::Ph => "ph"@,
        PropertyType::Local => "local"@,
        PropertyType::Field => "field"@,
        PropertyType::Garage => "garage"@,
        PropertyType::CommercialPremises => "commercial premises"@,
        PropertyType::Warehouse => "warehouse"@,
        PropertyType::Hotel => "hotel"@,
        PropertyType::SpecialBusiness => "special business"@,
        PropertyType::Office => "office"@,
        PropertyType::CountryHouse => "country house"@,
    }
}

/// The name shown to people.
pub open spec fn type_label(k: PropertyType) -> Seq<char> {
    match k {
        PropertyType::House => "House"@,
        PropertyType::Apartment => "Apartment"@,
        PropertyType::Land => "Land"@,
        PropertyType::Ph => "PH"@,
        PropertyType::Local => "Local"@,
        PropertyType::Field => "Field"@,
        PropertyType::Garage => "Garage"@,
        PropertyType::CommercialPremises => "Commercial Premises"@,
        PropertyType::Warehouse => "Warehouse"@,
        PropertyType::Hotel => "Hotel"@,
        PropertyType::SpecialBusiness => "Special Business"@,
        PropertyType::Office => "Office"@,
        PropertyType::CountryHouse => "Country House"@,
    }
}

impl PropertyType {
    /// Decodes an already lower-cased text.
    pub fn from_lowered(t: &str) -> (r: Option<PropertyType>)
        ensures
            r == type_of_text(t@),
    {
        if same_text(t, "house") || same_text(t, "houses") || same_text(t, "casa") || same_text(t, "casas") {
            Some(PropertyType::House)
        } else if same_text(t, "apartment") || same_text(t, "apartments") || same_text(t, "departamento") || same_text(t, "departamentos") {
            Some(PropertyType::Apartment)
        } else if same_text(t, "land") || same_text(t, "lands") || same_text(t, "terreno") || same_text(t, "terrenos") {
            Some(PropertyType::Land)
        } else if same_text(t, "ph") {
            Some(PropertyType::Ph)
        } else if same_text(t, "local") || same_text(t, "locales") {
            Some(PropertyType::Local)
        } else if same_text(t, "field") || same_text(t, "fields") || same_text(t, "campo") || same_text(t, "campos") {
            Some(PropertyType::Field)
        } else if same_text(t, "garage") || same_text(t, "garages") || same_text(t, "cochera") || same_text(t, "cocheras") {
            Some(PropertyType::Garage)
        } else if same_text(t, "commercial") || same_text(t, "commercial-premises") || same_text(t, "fondo-comercio") || same_text(t, "commercial premises") {
            Some(PropertyType::CommercialPremises)
        } else if same_text(t, "warehouse") || same_text(t, "warehouses") || same_text(t, "galpon") || same_text(t, "galpones") {
            Some(PropertyType::Warehouse)
        } else if same_text(t, "hotel") || same_text(t, "hotels") {
            Some(PropertyType::Hotel)
        } else if same_text(t, "special-business") || same_text(t, "special-businesses") || same_text(t, "negocio-especial") || same_text(t, "special business") {
            Some(PropertyType::SpecialBusiness)
        } else if same_text(t, "office") || same_text(t, "offices") || same_text(t, "oficina") || same_text(t, "oficinas") {
            Some(PropertyType::Office)
        } else if same_text(t, "country-house") || same_text(t, "country-houses") || same_text(t, "quinta") || same_text(t, "quintas") || same_text(t, "country house") {
            Some(PropertyType::CountryHouse)
        } else {
            None
        }
    }

    /// Decodes a kind in any letter case; on failure the error holds the
    /// text that was given.
    pub fn parse(s: &str) -> (r: Result<PropertyType, String>)
        ensures
            match type_of_text(lower_of(s@)) {
                Some(k) => r == Ok::<PropertyType, String>(k),
                None => r matches Err(e) && e@ == s@,
            },
    {
        let lowered = lowercase(s);
        match PropertyType::from_lowered(lowered.as_str()) {
            Some(k) => Ok(k),
            None => Err(s.to_owned()),
        }
    }

    /// The text stored in the `property_type` column.
    pub fn as_db_str(&self) -> (r: &'static str)
        ensures
            r@ == type_text(*self),
    {
        match self {
            PropertyType::House => "house",
            PropertyType::Apartment => "apartment",
            PropertyType::Land => "land",
            PropertyType::Ph => "ph",
            PropertyType::Local => "local",
            PropertyType::Field => "field",
            PropertyType::Garage => "garage",
            PropertyType::CommercialPremises => "commercial premises",
            PropertyType::Warehouse => "warehouse",
            PropertyType::Hotel => "hotel",
            PropertyType::SpecialBusiness => "special business",
            PropertyType::Office => "office",
            PropertyType::CountryHouse => "country house",
        }
    }

    /// The name shown to people.
    pub fn label(&self) -> (r: &'static str)
        ensures
            r@ == type_label(*self),
    {
        match self {
            PropertyType::House => "House",
            PropertyType::Apartment => "Apartment",
            PropertyType::Land => "Land",
            PropertyType::Ph => "PH",
            PropertyType::Local => "Local",
            PropertyType::Field => "Field",
            PropertyType::Garage => "Garage",
            PropertyType::CommercialPremises => "Commercial Premises",
            PropertyType::Warehouse => "Warehouse",
            PropertyType::Hotel => "Hotel",
            PropertyType::SpecialBusiness => "Special Business",
            PropertyType::Office => "Office",
            PropertyType::CountryHouse => "Country House",
        }
    }
}

/// Every kind, in declaration order.
pub fn all_property_types() -> (r: Vec<PropertyType>)
    ensures
        r@ == seq![
            PropertyType::House,
            PropertyType::Apartment,
            PropertyType::Land,
            PropertyType::Ph,
            PropertyType::Local,
            PropertyType::Field,
            PropertyType::Garage,
            PropertyType::CommercialPremises,
            PropertyType::Warehouse,
            PropertyType::Hotel,
            PropertyType::SpecialBusiness,
            PropertyType::Office,
            PropertyType::CountryHouse,
        ],
        forall|k: PropertyType| r@.contains(k),
{
    let r = vec![
        PropertyType::House,
        PropertyType::Apartment,
        PropertyType::Land,
        PropertyType::Ph,
        PropertyType::Local,
        PropertyType::Field,
        PropertyType::Garage,
        PropertyType::CommercialPremises,
        PropertyType::Warehouse,
        PropertyType::Hotel,
        PropertyType::SpecialBusiness,
        PropertyType::Office,
        PropertyType::CountryHouse,
    ];
    assert(r@ =~= seq![
        PropertyType::House,
        PropertyType::Apartment,
        PropertyType::Land,
        PropertyType::Ph,
        PropertyType::Local,
        PropertyType::Field,
        PropertyType::Garage,
        PropertyType::CommercialPremises,
        PropertyType::Warehouse,
        PropertyType::Hotel,
        PropertyType::SpecialBusiness,
        PropertyType::Office,
        PropertyType::CountryHouse,
    ]);
    assert(forall|k: PropertyType| r@.contains(k)) by {
        assert forall|k: PropertyType| r@.contains(k) by {
            match k {
                PropertyType::House => assert(r@[0] == k),
                PropertyType::Apartment => assert(r@[1] == k),
                PropertyType::Land => assert(r@[2] == k),
                PropertyType::Ph => assert(r@[3] == k),
                PropertyType::Local => assert(r@[4] == k),
                PropertyType::Field => assert(r@[5] == k),
                PropertyType::Garage => assert(r@[6] == k),
                PropertyType::CommercialPremises => assert(r@[7] == k),
                PropertyType::Warehouse => assert(r@[8] == k),
                PropertyType::Hotel => assert(r@[9] == k),
                PropertyType::SpecialBusiness => assert(r@[10] == k),
                PropertyType::Office => assert(r@[11] == k),
                PropertyType::CountryHouse => assert(r@[12] == k),
            }
        }
    }
    r
}

} // verus!
