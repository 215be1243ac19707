//! Format versions written as a release triplet, `major.minor.patch`.

use crate::text::{decimal, decimal_of, push_chars, string_of};
use vstd::prelude::*;

verus! {

/// A `major.minor.patch` release of the IR format.
#[derive(Debug, Clone, Copy, PartialEq, Eq, Hash, Structural)]
pub struct ReleaseTriplet {
    pub major: u32,
    pub minor: u32,
    pub patch: u32,
}

/// `major.minor.patch`, each number in its shortest decimal spelling.
pub open spec fn release_spelling(t: ReleaseTriplet) -> Seq<char> {
    decimal(t.major as nat) + seq!['.'] + decimal(t.minor as nat) + seq!['.'] + decimal(
        t.patch as nat,
    )
}

impl ReleaseTriplet {
    pub fn new(major: u32, minor: u32, patch: u32) -> (r: ReleaseTriplet)
        ensures
            r == (ReleaseTriplet { major, minor, patch }),
    {
        ReleaseTriplet { major, minor, patch }
    }

    /// The triplet's characters, `major.minor.patch`.
    pub fn spelling_chars(&self) -> (r: Vec<char>)
        ensures
            r@ == release_spelling(*self),
    {
        let mut out = decimal_of(self.major as u64);
        out.push('.');
        let minor = decimal_of(self.minor as u64);
        push_chars(&mut out, minor.as_slice());
        out.push('.');
        let patch = decimal_of(self.patch as u64);
        push_chars(&mut out, patch.as_slice());
        proof {
            assert(out@ =~= release_spelling(*self));
        }
        out
    }

    /// `major.minor.patch`.
    pub fn to_string(&self) -> (r: String)
        ensures
            r@ == release_spelling(*self),
    {
        let cs = self.spelling_chars();
        string_of(cs.as_slice())
    }
}

} // verus!
