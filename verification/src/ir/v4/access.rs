//! Access control.

use crate::text::str_eq;
use vstd::prelude::*;

verus! {

/// Access control.
#[derive(Debug, Clone, Copy, PartialEq, Eq, Structural)]
pub enum Access {
    Public,
    Private,
}

/// The canonical tag an access level is written with.
pub open spec fn access_tag(a: Access) -> Seq<char> {
    match a {
        Access::Public => "Public"@,
        Access::Private => "Private"@,
    }
}

/// The access level a wrapper tag names: the canonical tags, and the `pub`, `public` and
/// `private` shorthands.
pub open spec fn access_named(tag: Seq<char>) -> Option<Access> {
    if tag == "Public"@ || tag == "pub"@ || tag == "public"@ {
        Some(Access::Public)
    } else if tag == "Private"@ || tag == "private"@ {
        Some(Access::Private)
    } else {
        None
    }
}

impl Access {
    /// The canonical variant tag this access level is written with.
    pub fn tag(self) -> (r: &'static str)
        ensures
            r@ == access_tag(self),
    {
        match self {
            Access::Public => "Public",
            Access::Private => "Private",
        }
    }

    /// The access level a wrapper tag names, if it names one.
    pub fn from_tag(tag: &str) -> (r: Option<Access>)
        ensures
            r == access_named(tag@),
    {
        if str_eq(tag, "Public") || str_eq(tag, "pub") || str_eq(tag, "public") {
            Some(Access::Public)
        } else if str_eq(tag, "Private") || str_eq(tag, "private") {
            Some(Access::Private)
        } else {
            None
        }
    }
}

/// Every access level reads back from its canonical tag: `Access::from_tag(a.tag())` is
/// `Some(a)`.
pub proof fn lemma_access_tag_roundtrip(a: Access)
    ensures
        access_named(access_tag(a)) == Some(a),
{
    reveal_strlit("Public");
    reveal_strlit("Private");
    reveal_strlit("pub");
    reveal_strlit("public");
    assert("Private"@.len() == 7 && "pub"@.len() == 3 && "public"@.len() == 6 && "Public"@.len()
        == 6);
    assert("Public"@[0] != "public"@[0]);
}

/// A value paired with its access level.
#[derive(Debug, Clone, PartialEq)]
pub struct AccessControlled<T> {
    pub access: Access,
    pub value: T,
}

} // verus!
