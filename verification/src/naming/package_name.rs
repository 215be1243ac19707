//! A package's name: a path, such as `acme/orders`.

use crate::naming::name::SegmentView;
use crate::naming::path::{parse_path, path_canonical, Path};
use vstd::prelude::*;

verus! {

/// The name of a package: a path of names.
#[derive(Debug, Clone, PartialEq, Eq, Hash)]
pub struct PackageName {
    path: Path,
}

impl View for PackageName {
    type V = Seq<Seq<SegmentView>>;

    closed spec fn view(&self) -> Seq<Seq<SegmentView>> {
        self.path@
    }
}

pub open spec fn package_result_view(r: Result<PackageName, String>) -> Result<
    Seq<Seq<SegmentView>>,
    Seq<char>,
> {
    match r {
        Ok(p) => Ok(p@),
        Err(e) => Err(e@),
    }
}

impl PackageName {
    pub fn new(path: Path) -> (r: PackageName)
        ensures
            r@ == path@,
    {
        PackageName { path }
    }

    /// The package's path.
    pub fn path(&self) -> (r: &Path)
        ensures
            r@ == self@,
    {
        &self.path
    }

    /// Parse a canonical package name, `name/name`.
    pub fn from_canonical_string(source: &str) -> (r: Result<PackageName, String>)
        ensures
            package_result_view(r) == parse_path(source@),
    {
        match Path::from_canonical_string(source) {
            Ok(path) => Ok(PackageName { path }),
            Err(e) => Err(e),
        }
    }

    pub fn to_canonical_string(&self) -> (r: String)
        ensures
            r@ == path_canonical(self@),
    {
        self.path.to_canonical_string()
    }

    pub fn canonical_chars(&self) -> (r: Vec<char>)
        ensures
            r@ == path_canonical(self@),
    {
        self.path.canonical_chars()
    }

    pub fn is_empty(&self) -> (r: bool)
        ensures
            r == (self@.len() == 0),
    {
        self.path.is_empty()
    }

    pub fn duplicate(&self) -> (r: PackageName)
        ensures
            r@ == self@,
    {
        PackageName { path: self.path.duplicate() }
    }

    pub fn same_as(&self, other: &PackageName) -> (r: bool)
        ensures
            r == (self@ == other@),
    {
        self.path.same_as(&other.path)
    }
}

} // verus!
