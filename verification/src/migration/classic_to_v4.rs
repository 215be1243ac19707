//! Migrating classic names, paths and fully qualified names to version 4.

use crate::ir::v4::access::Access;
use crate::migration::diagnostic::{MigrationDiagnostic, Severity};
use crate::naming::fqname::{FQName, FQNameView};
use crate::naming::name::{
    collapse_words, lowered_words, string_views, Name, SegmentView,
};
use crate::naming::path::{name_views, Path};
use vstd::prelude::*;

verus! {

/// A classic name: its words, as text.
#[derive(Debug, Clone, PartialEq, Eq)]
pub struct ClassicName {
    pub words: Vec<String>,
}

/// A classic path: its names.
#[derive(Debug, Clone, PartialEq, Eq)]
pub struct ClassicPath {
    pub segments: Vec<ClassicName>,
}

/// A classic fully qualified name.
#[derive(Debug, Clone, PartialEq, Eq)]
pub struct ClassicFQName {
    pub package_path: ClassicPath,
    pub module: ClassicPath,
    pub local_name: ClassicName,
}

/// The diagnostic code a classic name with no spelling is refused under.
pub const EMPTY_NAME: &'static str = "empty-name";

/// The v4 name a classic name's words make.
pub open spec fn migrated_name(words: Seq<String>) -> Seq<SegmentView> {
    collapse_words(lowered_words(string_views(words)))
}

/// Whether a migrated name has a v4 spelling: at least one segment, none of them empty.
pub open spec fn spellable(n: Seq<SegmentView>) -> bool {
    n.len() > 0 && forall|i: int| 0 <= i < n.len() ==> (#[trigger] n[i]).text.len() > 0
}

/// Whether every name of a classic path has a v4 spelling.
pub open spec fn all_spellable(names: Seq<ClassicName>) -> bool {
    forall|k: int| 0 <= k < names.len() ==> spellable(migrated_name(#[trigger] names[k].words@))
}

pub open spec fn empty_name_refusal(d: MigrationDiagnostic, cursor: Seq<char>) -> bool {
    &&& d.severity == Severity::Error
    &&& d.code@ == EMPTY_NAME@
    &&& d.path@ == cursor
    &&& d.message@ == "a Classic name with no words has no v4 spelling"@
    &&& d.help matches Some(h) && h@
        == "give the name at least one non-empty word in the Classic document"@
    &&& !d.recoverable
}

/// Migrates one classic name, refusing a name that has no v4 spelling: one with no words,
/// or with nothing but empty words.
pub fn migrate_name(name: &ClassicName, cursor: &str) -> (r: Result<Name, MigrationDiagnostic>)
    ensures
        match r {
            Ok(n) => spellable(migrated_name(name.words@)) && n@ == migrated_name(name.words@),
            Err(d) => !spellable(migrated_name(name.words@)) && empty_name_refusal(d, cursor@),
        },
{
    let words = name.words.clone();
    let migrated = Name::from_words(words);
    let segments = migrated.segments();
    let mut has_empty = false;
    let mut i: usize = 0;
    while i < segments.len()
        invariant
            i <= segments.len(),
            segments@.map_values(|s: crate::naming::name::Segment| s@) == migrated@,
            has_empty == exists|j: int| 0 <= j < i && (#[trigger] migrated@[j]).text.len() == 0,
        decreases segments.len() - i,
    {
        assert(migrated@[i as int] == segments@[i as int]@);
        if segments[i].text().is_empty() {
            has_empty = true;
        }
        i = i + 1;
    }
    if migrated.is_empty() || has_empty {
        let d = MigrationDiagnostic::error(
            EMPTY_NAME,
            cursor,
            String::from_str("a Classic name with no words has no v4 spelling"),
        );
        return Err(
            d.with_help(
                String::from_str("give the name at least one non-empty word in the Classic document"),
            ),
        );
    }
    Ok(migrated)
}

/// Migrates a classic path, name by name; the first name without a spelling refuses it.
pub fn migrate_path(path: &ClassicPath, cursor: &str) -> (r: Result<Path, MigrationDiagnostic>)
    ensures
        match r {
            Ok(p) => p@.len() == path.segments@.len() && (forall|k: int|
                0 <= k < p@.len() ==> #[trigger] p@[k] == migrated_name(path.segments@[k].words@))
                && all_spellable(path.segments@),
            Err(d) => !all_spellable(path.segments@) && empty_name_refusal(d, cursor@),
        },
{
    let mut segments: Vec<Name> = Vec::new();
    let mut i: usize = 0;
    while i < path.segments.len()
        invariant
            i <= path.segments.len(),
            segments@.len() == i,
            forall|k: int|
                0 <= k < i ==> (#[trigger] segments@[k])@ == migrated_name(path.segments@[k].words@),
            forall|k: int|
                0 <= k < i ==> spellable(migrated_name(#[trigger] path.segments@[k].words@)),
        decreases path.segments.len() - i,
    {
        match migrate_name(&path.segments[i], cursor) {
            Ok(n) => {
                let ghost before = segments@;
                let ghost nv = n@;
                let ghost words = path.segments@[i as int].words@;
                assert(nv == migrated_name(words) && spellable(migrated_name(words)));
                segments.push(n);
                assert forall|k: int| 0 <= k < i + 1 implies (#[trigger] segments@[k])@
                    == migrated_name(path.segments@[k].words@) by {
                    if k < i {
                        assert(segments@[k] == before[k]);
                    } else {
                        assert(segments@[k]@ == nv);
                    }
                }
            },
            Err(d) => {
                return Err(d);
            },
        }
        i = i + 1;
    }
    let p = Path { segments };
    assert(p@.len() == path.segments@.len());
    assert forall|k: int| 0 <= k < p@.len() implies #[trigger] p@[k] == migrated_name(
        path.segments@[k].words@,
    ) by {
        assert(p@[k] == p.segments@[k]@);
    }
    Ok(p)
}

/// Migrates a classic fully qualified name: its package path, then its module path, then
/// its local name.
pub fn migrate_fqname(name: &ClassicFQName, cursor: &str) -> (r: Result<
    FQName,
    MigrationDiagnostic,
>)
    ensures
        match r {
            Ok(f) => {
                &&& all_spellable(name.package_path.segments@)
                &&& all_spellable(name.module.segments@)
                &&& spellable(migrated_name(name.local_name.words@))
                &&& f@.local_name == migrated_name(name.local_name.words@)
                &&& f@.package_path.len() == name.package_path.segments@.len()
                &&& f@.module.len() == name.module.segments@.len()
                &&& forall|k: int|
                    0 <= k < f@.package_path.len() ==> #[trigger] f@.package_path[k]
                        == migrated_name(name.package_path.segments@[k].words@)
                &&& forall|k: int|
                    0 <= k < f@.module.len() ==> #[trigger] f@.module[k] == migrated_name(
                        name.module.segments@[k].words@,
                    )
            },
            Err(d) => !(all_spellable(name.package_path.segments@) && all_spellable(
                name.module.segments@,
            ) && spellable(migrated_name(name.local_name.words@))) && empty_name_refusal(
                d,
                cursor@,
            ),
        },
{
    let package_path = match migrate_path(&name.package_path, cursor) {
        Ok(p) => p,
        Err(d) => {
            return Err(d);
        },
    };
    let module = match migrate_path(&name.module, cursor) {
        Ok(p) => p,
        Err(d) => {
            return Err(d);
        },
    };
    let local_name = match migrate_name(&name.local_name, cursor) {
        Ok(n) => n,
        Err(d) => {
            return Err(d);
        },
    };
    Ok(FQName::new(package_path, module, local_name))
}

/// A classic access level.
#[derive(Debug, Clone, Copy, PartialEq, Eq, Structural)]
pub enum ClassicAccess {
    Public,
    Private,
}

/// The v4 access level a classic one stands for: the same level.
pub fn migrate_access(access: &ClassicAccess) -> (r: Access)
    ensures
        r == match *access {
            ClassicAccess::Public => Access::Public,
            ClassicAccess::Private => Access::Private,
        },
{
    match access {
        ClassicAccess::Public => Access::Public,
        ClassicAccess::Private => Access::Private,
    }
}

} // verus!
