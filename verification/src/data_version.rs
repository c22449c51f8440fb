//! On-disk data versions and the header record that stores them.

use vstd::prelude::*;

verus! {

/// The generations of the on-disk data schema.
#[derive(Clone, Copy, PartialEq, Eq, Structural, Debug)]
pub enum DataVersion {
    V0,
    V001,
    V002,
    V003,
}

/// The working data version this library runs on.
pub open spec fn spec_data_version() -> DataVersion {
    DataVersion::V003
}

impl DataVersion {
    /// The working data version.
    pub fn current() -> (r: DataVersion)
        ensures
            r == spec_data_version(),
    {
        DataVersion::V003
    }

    /// The next version in the upgrade chain, if any.
    pub open spec fn spec_next(self) -> Option<DataVersion> {
        match self {
            DataVersion::V0 => Option::Some(DataVersion::V001),
            DataVersion::V001 => Option::Some(DataVersion::V002),
            DataVersion::V002 => Option::Some(DataVersion::V003),
            DataVersion::V003 => Option::None,
        }
    }

    pub fn next(&self) -> (r: Option<DataVersion>)
        ensures
            r == self.spec_next(),
    {
        match self {
            DataVersion::V0 => Option::Some(DataVersion::V001),
            DataVersion::V001 => Option::Some(DataVersion::V002),
            DataVersion::V002 => Option::Some(DataVersion::V003),
            DataVersion::V003 => Option::None,
        }
    }

    /// The oldest on-disk version the working version can still read and
    /// upgrade.
    pub open spec fn spec_min_compatible(self) -> DataVersion {
        DataVersion::V0
    }

    pub fn min_compatible_data_version(&self) -> (r: DataVersion)
        ensures
            r == self.spec_min_compatible(),
    {
        DataVersion::V0
    }

    /// Order of versions along the upgrade chain.
    pub open spec fn spec_index(self) -> int {
        match self {
            DataVersion::V0 => 0,
            DataVersion::V001 => 1,
            DataVersion::V002 => 2,
            DataVersion::V003 => 3,
        }
    }

    /// Whether `self` is strictly older than `other`.
    pub fn is_older_than(&self, other: &DataVersion) -> (r: bool)
        ensures
            r == (self.spec_index() < other.spec_index()),
    {
        let a: u8 = match self {
            DataVersion::V0 => 0,
            DataVersion::V001 => 1,
            DataVersion::V002 => 2,
            DataVersion::V003 => 3,
        };
        let b: u8 = match other {
            DataVersion::V0 => 0,
            DataVersion::V001 => 1,
            DataVersion::V002 => 2,
            DataVersion::V003 => 3,
        };
        a < b
    }
}

/// The on-disk header record: the data version, and the target version of
/// an upgrade in progress, if any.
#[derive(Clone, Copy, PartialEq, Eq, Debug)]
pub struct Header {
    pub version: DataVersion,
    pub upgrading: Option<DataVersion>,
}

impl Header {
    /// The header the working version writes: current version, no upgrade in
    /// progress.
    pub fn this_version() -> (r: Header)
        ensures
            r.version == spec_data_version(),
            r.upgrading is None,
    {
        Header { version: DataVersion::V003, upgrading: Option::None }
    }
}

} // verus!
