//! Fully qualified names: a package path, a module path and a local name.

use crate::naming::name::{
    canonical_in, canonical_style, lemma_canonical_charset, lemma_canonical_roundtrip,
    parse_canonical, permissive_name, valid_name, Name, SegmentView,
};
use crate::naming::path::{
    lemma_path_charset, lemma_path_roundtrip, parse_path, path_canonical, path_new, valid_path,
    Path,
};
use crate::text::{
    chars_of, find_char, first_index, is_alnum, lemma_first_index, lemma_first_index_concat,
    lemma_split_len, push_chars, split, split_chars, string_of, subrange,
};
use vstd::prelude::*;

verus! {

/// A fully qualified name: package path, module path and local name.
#[derive(Debug, Clone, PartialEq, Eq, Hash)]
pub struct FQName {
    pub package_path: Path,
    pub module: Path,
    pub local_name: Name,
}

pub struct FQNameView {
    pub package_path: Seq<Seq<SegmentView>>,
    pub module: Seq<Seq<SegmentView>>,
    pub local_name: Seq<SegmentView>,
}

impl View for FQName {
    type V = FQNameView;

    open spec fn view(&self) -> FQNameView {
        FQNameView {
            package_path: self.package_path@,
            module: self.module@,
            local_name: self.local_name@,
        }
    }
}

/// `package/path:module/path#local-name`
pub open spec fn fqname_canonical(f: FQNameView) -> Seq<char> {
    path_canonical(f.package_path) + seq![':'] + path_canonical(f.module) + seq!['#']
        + canonical_in(f.local_name, canonical_style())
}

/// What [`FQName::parse`] answers: three `:`-separated parts, the last non-empty.
pub open spec fn parse_classic_fqname(s: Seq<char>) -> Option<FQNameView> {
    let parts = split(s, ':');
    if parts.len() != 3 || parts[2].len() == 0 {
        None
    } else {
        Some(
            FQNameView {
                package_path: path_new(parts[0]),
                module: path_new(parts[1]),
                local_name: permissive_name(parts[2]),
            },
        )
    }
}

/// What [`FQName::from_canonical_string`] answers.
pub open spec fn parse_fqname(s: Seq<char>) -> Result<FQNameView, Seq<char>> {
    match first_index(s, ':') {
        None => Err("missing ':' in FQName: "@ + s),
        Some(c) => {
            let package = s.take(c);
            let rest = s.skip(c + 1);
            match first_index(rest, '#') {
                None => Err("missing '#' in FQName: "@ + s),
                Some(h) => {
                    let module = rest.take(h);
                    let local = rest.skip(h + 1);
                    match parse_path(package) {
                        Err(e) => Err(e),
                        Ok(p) => match parse_path(module) {
                            Err(e) => Err(e),
                            Ok(m) => match parse_canonical(local) {
                                Err(e) => Err(e),
                                Ok(l) => Ok(
                                    FQNameView { package_path: p, module: m, local_name: l },
                                ),
                            },
                        },
                    }
                },
            }
        },
    }
}

pub open spec fn valid_fqname(f: FQNameView) -> bool {
    valid_path(f.package_path) && valid_path(f.module) && valid_name(f.local_name)
}

impl FQName {
    pub fn new(package_path: Path, module: Path, local_name: Name) -> (r: FQName)
        ensures
            r@ == (FQNameView {
                package_path: package_path@,
                module: module@,
                local_name: local_name@,
            }),
    {
        FQName { package_path, module, local_name }
    }

    /// Parse the classic format `pkg:mod:local`.
    pub fn parse(s: &str) -> (r: Option<FQName>)
        ensures
            match r {
                Some(f) => parse_classic_fqname(s@) == Some(f@),
                None => parse_classic_fqname(s@) is None,
            },
    {
        let cs = chars_of(s);
        let parts = split_chars(cs.as_slice(), ':');
        if parts.len() != 3 {
            return None;
        }
        assert(parts@[2]@ == split(s@, ':')[2]);
        if parts[2].len() == 0 {
            return None;
        }
        assert(parts@[0]@ == split(s@, ':')[0]);
        assert(parts@[1]@ == split(s@, ':')[1]);
        let pkg = string_of(parts[0].as_slice());
        let module = string_of(parts[1].as_slice());
        let local = string_of(parts[2].as_slice());
        Some(FQName::new(Path::new(pkg.as_str()), Path::new(module.as_str()), Name::from(local.as_str())))
    }

    pub fn canonical_chars(&self) -> (r: Vec<char>)
        ensures
            r@ == fqname_canonical(self@),
    {
        let mut out = self.package_path.canonical_chars();
        out.push(':');
        let m = self.module.canonical_chars();
        push_chars(&mut out, m.as_slice());
        out.push('#');
        let l = self.local_name.canonical_chars(crate::naming::name::NameStyle::Uppercase);
        push_chars(&mut out, l.as_slice());
        assert(out@ =~= fqname_canonical(self@));
        out
    }

    /// `package/path:module/path#local-name`
    pub fn to_canonical_string(&self) -> (r: String)
        ensures
            r@ == fqname_canonical(self@),
    {
        let cs = self.canonical_chars();
        string_of(cs.as_slice())
    }

    /// The display spelling of a fully qualified name: its canonical string.
    pub fn to_string(&self) -> (r: String)
        ensures
            r@ == fqname_canonical(self@),
    {
        self.to_canonical_string()
    }

    /// Parse `package/path:module/path#local-name`.
    pub fn from_canonical_string(s: &str) -> (r: Result<FQName, String>)
        ensures
            match r {
                Ok(f) => parse_fqname(s@) == Ok::<FQNameView, Seq<char>>(f@),
                Err(e) => parse_fqname(s@) == Err::<FQNameView, Seq<char>>(e@),
            },
    {
        let cs = chars_of(s);
        let colon = match find_char(cs.as_slice(), ':') {
            None => {
                let mut m = String::from_str("missing ':' in FQName: ");
                m.append(s);
                return Err(m);
            },
            Some(c) => c,
        };
        proof {
            lemma_first_index(s@, ':');
        }
        assert(colon < cs.len());
        let package = subrange(cs.as_slice(), 0, colon);
        let rest = subrange(cs.as_slice(), colon + 1, cs.len());
        assert(package@ =~= s@.take(colon as int));
        assert(rest@ =~= s@.skip(colon as int + 1));
        let hash = match find_char(rest.as_slice(), '#') {
            None => {
                let mut m = String::from_str("missing '#' in FQName: ");
                m.append(s);
                return Err(m);
            },
            Some(h) => h,
        };
        proof {
            lemma_first_index(rest@, '#');
        }
        let module = subrange(rest.as_slice(), 0, hash);
        let local = subrange(rest.as_slice(), hash + 1, rest.len());
        assert(module@ =~= rest@.take(hash as int));
        assert(local@ =~= rest@.skip(hash as int + 1));
        let package_s = string_of(package.as_slice());
        let module_s = string_of(module.as_slice());
        let local_s = string_of(local.as_slice());
        let p = match Path::from_canonical_string(package_s.as_str()) {
            Ok(p) => p,
            Err(e) => {
                return Err(e);
            },
        };
        let m = match Path::from_canonical_string(module_s.as_str()) {
            Ok(m) => m,
            Err(e) => {
                return Err(e);
            },
        };
        let l = match Name::from_canonical_string(local_s.as_str()) {
            Ok(l) => l,
            Err(e) => {
                return Err(e);
            },
        };
        Ok(FQName::new(p, m, l))
    }

    /// A fully qualified name with the same parts.
    pub fn duplicate(&self) -> (r: FQName)
        ensures
            r@ == self@,
    {
        FQName {
            package_path: self.package_path.duplicate(),
            module: self.module.duplicate(),
            local_name: self.local_name.duplicate(),
        }
    }

    /// Whether two fully qualified names are equal.
    pub fn same_as(&self, other: &FQName) -> (r: bool)
        ensures
            r == (self@ == other@),
    {
        self.package_path.same_as(&other.package_path) && self.module.same_as(
            &other.module,
        ) && self.local_name.same_as(&other.local_name)
    }
}

/// A valid fully qualified name's canonical string decodes back to it:
/// `FQName::from_canonical_string(f.to_canonical_string())` is `Ok(f)`.
pub proof fn lemma_fqname_roundtrip(f: FQNameView)
    requires
        valid_fqname(f),
    ensures
        parse_fqname(fqname_canonical(f)) == Ok::<FQNameView, Seq<char>>(f),
{
    let a = path_canonical(f.package_path);
    let b = path_canonical(f.module);
    let c = canonical_in(f.local_name, canonical_style());
    lemma_path_charset(f.package_path, ':');
    lemma_path_charset(f.module, '#');
    let s = fqname_canonical(f);
    assert(s =~= a + seq![':'] + (b + seq!['#'] + c));
    lemma_first_index_concat(a, ':', b + seq!['#'] + c);
    lemma_first_index_concat(b, '#', c);
    lemma_path_roundtrip(f.package_path);
    lemma_path_roundtrip(f.module);
    lemma_canonical_roundtrip(f.local_name, canonical_style());
}

} // verus!
