use vstd::prelude::*;
use crate::error::DbError;
use crate::text::{lower_of, lowercase, same_text};

verus! {

/// Lifecycle state of a listing: a closed set, checked when decoded.
#[derive(Clone, Copy, Debug, PartialEq, Eq, Hash, Structural)]
pub enum PropertyStatus {
    Active,
    Sold,
    Removed,
}

/// The text stored in the `status` column for each status.
pub open spec fn status_text(s: PropertyStatus) -> Seq<char> {
    match s {
        PropertyStatus::Active => "active"@,
        PropertyStatus::Sold => "sold"@,
        PropertyStatus::Removed => "removed"@,
    }
}

/// The status whose column text is `t`, if any.
pub open spec fn status_of_text(t: Seq<char>) -> Option<PropertyStatus> {
    if t == "active"@ {
        Some(PropertyStatus::Active)
    } else if t == "sold"@ {
        Some(PropertyStatus::Sold)
    } else if t == "removed"@ {
        Some(PropertyStatus::Removed)
    } else {
        None
    }
}

/// Forward transitions only: an active listing moves to `to`, any other stays put.
pub open spec fn next_status(from: PropertyStatus, to: PropertyStatus) -> PropertyStatus {
    if from == PropertyStatus::Active {
        to
    } else {
        from
    }
}

/// The name shown to people.
pub open spec fn status_label(s: PropertyStatus) -> Seq<char> {
    match s {
        PropertyStatus::Active => "Active"@,
        PropertyStatus::Sold => "Sold"@,
        PropertyStatus::Removed => "Removed"@,
    }
}

impl PropertyStatus {
    /// The name shown to people.
    pub fn label(&self) -> (r: &'static str)
        ensures
            r@ == status_label(*self),
    {
        match self {
            PropertyStatus::Active => "Active",
            PropertyStatus::Sold => "Sold",
            PropertyStatus::Removed => "Removed",
        }
    }

    /// The text stored in the `status` column.
    pub fn as_str(&self) -> (r: &'static str)
        ensures
            r@ == status_text(*self),
    {
        match self {
            PropertyStatus::Active => "active",
            PropertyStatus::Sold => "sold",
            PropertyStatus::Removed => "removed",
        }
    }

    /// Decodes an already lower-cased status text.
    pub fn from_lowered(t: &str) -> (r: Option<PropertyStatus>)
        ensures
            r == status_of_text(t@),
    {
        if same_text(t, "active") {
            Some(PropertyStatus::Active)
        } else if same_text(t, "sold") {
            Some(PropertyStatus::Sold)
        } else if same_text(t, "removed") {
            Some(PropertyStatus::Removed)
        } else {
            None
        }
    }

    /// Decodes a status text in any letter case; anything else is a
    /// validation failure, never a default.
    pub fn parse(t: &str) -> (r: Result<PropertyStatus, DbError>)
        ensures
            match status_of_text(lower_of(t@)) {
                Some(s) => r == Ok::<PropertyStatus, DbError>(s),
                None => r matches Err(DbError::InvalidStatus(e)) && e@ == t@,
            },
    {
        let lowered = lowercase(t);
        match PropertyStatus::from_lowered(lowered.as_str()) {
            Some(s) => Ok(s),
            None => Err(DbError::InvalidStatus(t.to_owned())),
        }
    }

    /// The status after asking for `to`: only `Active` moves, so repeating a
    /// transition changes nothing and no transition reactivates a listing.
    pub fn transition(self, to: PropertyStatus) -> (r: PropertyStatus)
        ensures
            r == next_status(self, to),
    {
        match self {
            PropertyStatus::Active => to,
            _ => self,
        }
    }
}

/// A status as stored: the raw column text, decoded on demand.
#[derive(Clone, Debug)]
pub struct DbPropertyStatus(pub String);

impl DbPropertyStatus {
    pub fn new(status: &str) -> (r: DbPropertyStatus)
        ensures
            r.0@ == status@,
    {
        DbPropertyStatus(status.to_owned())
    }

    pub fn as_str(&self) -> (r: &str)
        ensures
            r@ == self.0@,
    {
        self.0.as_str()
    }

    /// The stored text of a known status.
    pub fn from_status(s: PropertyStatus) -> (r: DbPropertyStatus)
        ensures
            r.0@ == status_text(s),
    {
        DbPropertyStatus::new(s.as_str())
    }

    /// Decodes the stored text; a value outside the closed set is a
    /// validation failure.
    pub fn status(&self) -> (r: Result<PropertyStatus, DbError>)
        ensures
            match status_of_text(lower_of(self.0@)) {
                Some(s) => r == Ok::<PropertyStatus, DbError>(s),
                None => r matches Err(DbError::InvalidStatus(e)) && e@ == self.0@,
            },
    {
        PropertyStatus::parse(self.0.as_str())
    }
}

} // verus!
