//! An application's entry points.

use crate::text::str_eq;
use vstd::prelude::*;

verus! {

/// Entry point kind, drawn from a fixed set.
#[derive(Debug, Clone, Copy, PartialEq, Eq, Structural)]
pub enum EntryPointKind {
    Main,
    Command,
    Handler,
    Job,
    Policy,
}

/// An entry point: the canonical FQName string of the value it names, its kind, and an
/// optional `doc`.
#[derive(Debug, Clone, PartialEq)]
pub struct EntryPoint {
    pub target: String,
    pub kind: EntryPointKind,
    pub doc: Option<String>,
}

/// The kinds, in the order the specification lists them.
pub open spec fn entry_point_kinds() -> Seq<EntryPointKind> {
    seq![
        EntryPointKind::Main,
        EntryPointKind::Command,
        EntryPointKind::Handler,
        EntryPointKind::Job,
        EntryPointKind::Policy,
    ]
}

/// The lowercase wire spelling of a kind.
pub open spec fn entry_point_kind_spelling(k: EntryPointKind) -> Seq<char> {
    match k {
        EntryPointKind::Main => "main"@,
        EntryPointKind::Command => "command"@,
        EntryPointKind::Handler => "handler"@,
        EntryPointKind::Job => "job"@,
        EntryPointKind::Policy => "policy"@,
    }
}

/// The first kind from `i` on whose spelling is `text`.
pub open spec fn entry_point_kind_from(text: Seq<char>, i: int) -> Option<EntryPointKind>
    decreases 5 - i,
{
    if i < 0 || i >= 5 {
        None
    } else if entry_point_kind_spelling(entry_point_kinds()[i]) == text {
        Some(entry_point_kinds()[i])
    } else {
        entry_point_kind_from(text, i + 1)
    }
}

impl EntryPointKind {
    /// The kinds an entry point may name, in the order the specification lists them.
    pub fn all() -> (r: Vec<EntryPointKind>)
        ensures
            r@ == entry_point_kinds(),
    {
        let r = vec![
            EntryPointKind::Main,
            EntryPointKind::Command,
            EntryPointKind::Handler,
            EntryPointKind::Job,
            EntryPointKind::Policy,
        ];
        assert(r@ =~= entry_point_kinds());
        r
    }

    /// The lowercase wire spelling of this kind.
    pub fn as_str(self) -> (r: &'static str)
        ensures
            r@ == entry_point_kind_spelling(self),
    {
        match self {
            EntryPointKind::Main => "main",
            EntryPointKind::Command => "command",
            EntryPointKind::Handler => "handler",
            EntryPointKind::Job => "job",
            EntryPointKind::Policy => "policy",
        }
    }

    /// The kind `text` names, if it names one.
    pub fn parse(text: &str) -> (r: Option<EntryPointKind>)
        ensures
            r == entry_point_kind_from(text@, 0),
    {
        let all = EntryPointKind::all();
        let mut i: usize = 0;
        while i < all.len()
            invariant
                i <= all.len(),
                all@ == entry_point_kinds(),
                entry_point_kind_from(text@, 0) == entry_point_kind_from(text@, i as int),
            decreases all.len() - i,
        {
            let kind = all[i];
            if str_eq(kind.as_str(), text) {
                return Some(kind);
            }
            i = i + 1;
        }
        None
    }
}

/// Every kind reads back from its spelling: `EntryPointKind::parse(k.as_str())` is `Some(k)`.
pub proof fn lemma_entry_point_kind_roundtrip(k: EntryPointKind)
    ensures
        entry_point_kind_from(entry_point_kind_spelling(k), 0) == Some(k),
{
    reveal_strlit("main");
    reveal_strlit("command");
    reveal_strlit("handler");
    reveal_strlit("job");
    reveal_strlit("policy");
    assert("main"@.len() == 4 && "command"@.len() == 7 && "handler"@.len() == 7 && "job"@.len()
        == 3 && "policy"@.len() == 6);
    assert("command"@[0] != "handler"@[0]);
    reveal_with_fuel(entry_point_kind_from, 6);
    let ks = entry_point_kinds();
    assert(ks[0] == EntryPointKind::Main && ks[1] == EntryPointKind::Command && ks[2]
        == EntryPointKind::Handler && ks[3] == EntryPointKind::Job && ks[4]
        == EntryPointKind::Policy);
}

} // verus!
