//! The interface's modes and its source filter.

use vstd::prelude::*;

use crate::package::PackageSource;

verus! {

/// What the interface shows.
#[derive(Debug, Clone, Copy, PartialEq, Eq, Structural)]
pub enum AppMode {
    /// Searching the package catalog.
    Search,
    /// Searching Flatpak applications.
    Universal,
    /// The installation history.
    History,
    /// The audit against the dotfiles' package lists.
    Audit,
}

/// Which repositories a search covers.
#[derive(Debug, Clone, Copy, PartialEq, Eq, Structural)]
pub enum SourceFilter {
    All,
    Official,
    Aur,
}

impl SourceFilter {
    /// The next filter in the cycle all, official, community.
    pub fn next(&self) -> (r: Self)
        ensures
            r == match *self {
                SourceFilter::All => SourceFilter::Official,
                SourceFilter::Official => SourceFilter::Aur,
                SourceFilter::Aur => SourceFilter::All,
            },
    {
        match self {
            SourceFilter::All => SourceFilter::Official,
            SourceFilter::Official => SourceFilter::Aur,
            SourceFilter::Aur => SourceFilter::All,
        }
    }

    /// The filter's label.
    pub fn label(&self) -> (r: &'static str)
        ensures
            r@ == match *self {
                SourceFilter::All => "ALL"@,
                SourceFilter::Official => "OFFICIAL"@,
                SourceFilter::Aur => "AUR"@,
            },
    {
        match self {
            SourceFilter::All => "ALL",
            SourceFilter::Official => "OFFICIAL",
            SourceFilter::Aur => "AUR",
        }
    }

    /// The source a catalog search keeps, if it keeps only one.
    pub fn to_package_source(&self) -> (r: Option<PackageSource>)
        ensures
            r == match *self {
                SourceFilter::All => None,
                SourceFilter::Official => Some(PackageSource::Official),
                SourceFilter::Aur => Some(PackageSource::Aur),
            },
    {
        match self {
            SourceFilter::All => None,
            SourceFilter::Official => Some(PackageSource::Official),
            SourceFilter::Aur => Some(PackageSource::Aur),
        }
    }
}

} // verus!
