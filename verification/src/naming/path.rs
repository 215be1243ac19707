//! A path: a sequence of names, written `name/name`.

use crate::naming::name::{
    canonical_in, canonical_style, canonical_uppercase, lemma_canonical_charset,
    lemma_canonical_roundtrip, parse_canonical, permissive_name, valid_name, Name, SegmentView,
};
use crate::text::{
    chars_of, is_alnum, join, join_chars, lemma_join_excludes, lemma_join_no_pair,
    lemma_split_join, lemma_take_succ, lemma_views_push, split, split_chars, string_of, views,
};
use vstd::prelude::*;

verus! {

/// A sequence of names, such as a package or module path.
#[derive(Debug, Clone, PartialEq, Eq, Hash)]
pub struct Path {
    pub segments: Vec<Name>,
}

pub open spec fn name_views(v: Seq<Name>) -> Seq<Seq<SegmentView>> {
    v.map_values(|n: Name| n@)
}

impl View for Path {
    type V = Seq<Seq<SegmentView>>;

    open spec fn view(&self) -> Seq<Seq<SegmentView>> {
        name_views(self.segments@)
    }
}

pub proof fn lemma_name_views_push(v: Seq<Name>, x: Name)
    ensures
        name_views(v.push(x)) == name_views(v).push(x@),
{
    assert(name_views(v.push(x)) =~= name_views(v).push(x@));
}

/// Every name of the path is valid and non-empty.
pub open spec fn valid_path(p: Seq<Seq<SegmentView>>) -> bool {
    forall|i: int| 0 <= i < p.len() ==> valid_name(#[trigger] p[i]) && p[i].len() > 0
}

pub open spec fn path_pieces(p: Seq<Seq<SegmentView>>) -> Seq<Seq<char>> {
    p.map_values(|n: Seq<SegmentView>| canonical_in(n, canonical_style()))
}

/// `name/name/...`, each name in its canonical encoding.
pub open spec fn path_canonical(p: Seq<Seq<SegmentView>>) -> Seq<char> {
    join(path_pieces(p), seq!['/'])
}

/// What [`Path::new`] builds: each `/`-separated part parsed permissively.
pub open spec fn path_new(s: Seq<char>) -> Seq<Seq<SegmentView>> {
    if s.len() == 0 {
        Seq::<Seq<SegmentView>>::empty()
    } else {
        split(s, '/').map_values(|part: Seq<char>| permissive_name(part))
    }
}

pub open spec fn prepend_path(
    a: Seq<Seq<SegmentView>>,
    r: Result<Seq<Seq<SegmentView>>, Seq<char>>,
) -> Result<Seq<Seq<SegmentView>>, Seq<char>> {
    match r {
        Ok(x) => Ok(a + x),
        Err(e) => Err(e),
    }
}

/// Decoding the `/`-separated parts `i..`; the first refused part decides the error.
pub open spec fn parse_path_from(parts: Seq<Seq<char>>, i: int) -> Result<
    Seq<Seq<SegmentView>>,
    Seq<char>,
>
    decreases parts.len() - i,
{
    if i >= parts.len() {
        Ok(Seq::<Seq<SegmentView>>::empty())
    } else {
        match parse_canonical(parts[i]) {
            Err(e) => Err(e),
            Ok(n) => prepend_path(seq![n], parse_path_from(parts, i + 1)),
        }
    }
}

/// What [`Path::from_canonical_string`] answers for `s`.
pub open spec fn parse_path(s: Seq<char>) -> Result<Seq<Seq<SegmentView>>, Seq<char>> {
    if s.len() == 0 {
        Ok(Seq::<Seq<SegmentView>>::empty())
    } else {
        parse_path_from(split(s, '/'), 0)
    }
}

pub open spec fn path_result_view(r: Result<Path, String>) -> Result<
    Seq<Seq<SegmentView>>,
    Seq<char>,
> {
    match r {
        Ok(p) => Ok(p@),
        Err(e) => Err(e@),
    }
}

impl Path {
    /// A path from a `/`-separated string, each part parsed permissively.
    pub fn new(source: &str) -> (r: Path)
        ensures
            r@ == path_new(source@),
    {
        let cs = chars_of(source);
        if cs.len() == 0 {
            let r = Path { segments: Vec::new() };
            assert(r@ =~= path_new(source@));
            return r;
        }
        let parts = split_chars(cs.as_slice(), '/');
        let ghost target = split(source@, '/').map_values(|part: Seq<char>| permissive_name(part));
        let mut segments: Vec<Name> = Vec::new();
        let mut i: usize = 0;
        while i < parts.len()
            invariant
                i <= parts.len(),
                parts@.len() == split(source@, '/').len(),
                forall|k: int| 0 <= k < parts@.len() ==> (#[trigger] parts@[k])@ == split(source@, '/')[k],
                target == split(source@, '/').map_values(|part: Seq<char>| permissive_name(part)),
                name_views(segments@) == target.take(i as int),
            decreases parts.len() - i,
        {
            let text = string_of(parts[i].as_slice());
            assert(parts@[i as int]@ == split(source@, '/')[i as int]);
            let n = Name::from(text.as_str());
            let ghost before = segments@;
            segments.push(n);
            proof {
                lemma_name_views_push(before, n);
                lemma_take_succ(target, i as int);
            }
            i = i + 1;
        }
        assert(target.take(i as int) =~= target);
        Path { segments }
    }

    pub fn from_canonical_string(source: &str) -> (r: Result<Path, String>)
        ensures
            path_result_view(r) == parse_path(source@),
    {
        let cs = chars_of(source);
        if cs.len() == 0 {
            let r = Path { segments: Vec::new() };
            assert(r@ =~= Seq::<Seq<SegmentView>>::empty());
            return Ok(r);
        }
        let parts = split_chars(cs.as_slice(), '/');
        let ghost p = split(source@, '/');
        let ghost whole = parse_path(source@);
        let mut segments: Vec<Name> = Vec::new();
        assert(name_views(segments@) =~= Seq::<Seq<SegmentView>>::empty());
        let mut i: usize = 0;
        while i < parts.len()
            invariant
                i <= parts.len(),
                source@.len() > 0,
                p == split(source@, '/'),
                parts@.len() == p.len(),
                forall|k: int| 0 <= k < parts@.len() ==> (#[trigger] parts@[k])@ == p[k],
                whole == parse_path(source@),
                whole == prepend_path(name_views(segments@), parse_path_from(p, i as int)),
            decreases parts.len() - i,
        {
            let text = string_of(parts[i].as_slice());
            assert(parts@[i as int]@ == p[i as int]);
            match Name::from_canonical_string(text.as_str()) {
                Err(e) => {
                    return Err(e);
                },
                Ok(n) => {
                    let ghost before = segments@;
                    segments.push(n);
                    proof {
                        lemma_name_views_push(before, n);
                        match parse_path_from(p, i as int + 1) {
                            Ok(x) => {
                                assert(name_views(before) + (seq![n@] + x) =~= name_views(
                                    before,
                                ).push(n@) + x);
                            },
                            Err(e) => {},
                        }
                    }
                },
            }
            i = i + 1;
        }
        assert(name_views(segments@) + Seq::<Seq<SegmentView>>::empty() =~= name_views(
            segments@,
        ));
        Ok(Path { segments })
    }

    pub fn canonical_chars(&self) -> (r: Vec<char>)
        ensures
            r@ == path_canonical(self@),
    {
        let ghost target = path_pieces(self@);
        let mut pieces: Vec<Vec<char>> = Vec::new();
        let mut i: usize = 0;
        while i < self.segments.len()
            invariant
                i <= self.segments.len(),
                target == path_pieces(self@),
                views(pieces@) == target.take(i as int),
            decreases self.segments.len() - i,
        {
            let piece = self.segments[i].canonical_chars(crate::naming::name::NameStyle::Uppercase);
            let ghost old = pieces@;
            pieces.push(piece);
            proof {
                lemma_views_push(old, piece);
                lemma_take_succ(target, i as int);
            }
            i = i + 1;
        }
        assert(target.take(i as int) =~= target);
        let sep = vec!['/'];
        assert(sep@ =~= seq!['/']);
        join_chars(&pieces, sep.as_slice())
    }

    pub fn to_canonical_string(&self) -> (r: String)
        ensures
            r@ == path_canonical(self@),
    {
        let cs = self.canonical_chars();
        string_of(cs.as_slice())
    }

    /// The display spelling of a path: its canonical string.
    pub fn to_string(&self) -> (r: String)
        ensures
            r@ == path_canonical(self@),
    {
        self.to_canonical_string()
    }

    pub fn is_empty(&self) -> (r: bool)
        ensures
            r == (self@.len() == 0),
    {
        self.segments.len() == 0
    }

    /// A path with the same names.
    pub fn duplicate(&self) -> (r: Path)
        ensures
            r@ == self@,
    {
        let mut out: Vec<Name> = Vec::new();
        let mut i: usize = 0;
        while i < self.segments.len()
            invariant
                i <= self.segments.len(),
                name_views(out@) == self@.take(i as int),
            decreases self.segments.len() - i,
        {
            let n = self.segments[i].duplicate();
            let ghost before = out@;
            out.push(n);
            proof {
                lemma_name_views_push(before, n);
                lemma_take_succ(self@, i as int);
            }
            i = i + 1;
        }
        assert(self@.take(i as int) =~= self@);
        Path { segments: out }
    }

    /// Whether two paths hold the same names.
    pub fn same_as(&self, other: &Path) -> (r: bool)
        ensures
            r == (self@ == other@),
    {
        if self.segments.len() != other.segments.len() {
            assert(self@.len() != other@.len());
            return false;
        }
        let mut i: usize = 0;
        while i < self.segments.len()
            invariant
                i <= self.segments.len(),
                self.segments.len() == other.segments.len(),
                forall|j: int| 0 <= j < i ==> self@[j] == other@[j],
            decreases self.segments.len() - i,
        {
            if !self.segments[i].same_as(&other.segments[i]) {
                assert(self@[i as int] != other@[i as int]);
                return false;
            }
            i = i + 1;
        }
        assert(self@ =~= other@);
        true
    }
}

proof fn lemma_parse_path_pieces(p: Seq<Seq<SegmentView>>, i: int)
    requires
        valid_path(p),
        0 <= i <= p.len(),
    ensures
        parse_path_from(path_pieces(p), i) == Ok::<Seq<Seq<SegmentView>>, Seq<char>>(p.skip(i)),
    decreases p.len() - i,
{
    if i == p.len() {
        assert(p.skip(i) =~= Seq::<Seq<SegmentView>>::empty());
    } else {
        lemma_parse_path_pieces(p, i + 1);
        lemma_canonical_roundtrip(p[i], canonical_style());
        assert(seq![p[i]] + p.skip(i + 1) =~= p.skip(i));
    }
}

/// The characters a valid path's canonical string holds are letters, digits, `-` and `/`.
pub proof fn lemma_path_charset(p: Seq<Seq<SegmentView>>, c: char)
    requires
        valid_path(p),
        !is_alnum(c),
        c != '-',
        c != '/',
    ensures
        !path_canonical(p).contains(c),
        p.len() > 0 ==> path_canonical(p).len() > 0,
{
    let pieces = path_pieces(p);
    assert forall|i: int| 0 <= i < pieces.len() implies !(#[trigger] pieces[i]).contains(c) && pieces[i].len() > 0
        && !pieces[i].contains('/') by {
        lemma_canonical_charset(p[i], c);
        lemma_canonical_charset(p[i], '/');
    }
    lemma_join_excludes(pieces, seq!['/'], c);
    lemma_join_no_pair(pieces, '/');
}

/// A valid path's canonical string decodes back to the path:
/// `Path::from_canonical_string(p.to_canonical_string())` is `Ok(p)`.
pub proof fn lemma_path_roundtrip(p: Seq<Seq<SegmentView>>)
    requires
        valid_path(p),
    ensures
        parse_path(path_canonical(p)) == Ok::<Seq<Seq<SegmentView>>, Seq<char>>(p),
{
    let pieces = path_pieces(p);
    if p.len() == 0 {
        assert(path_canonical(p) =~= Seq::<char>::empty());
        assert(p =~= Seq::<Seq<SegmentView>>::empty());
    } else {
        assert forall|i: int| 0 <= i < pieces.len() implies !(#[trigger] pieces[i]).contains('/') && pieces[i].len() > 0 by {
            lemma_canonical_charset(p[i], '/');
        }
        lemma_join_no_pair(pieces, '/');
        lemma_split_join(pieces, '/');
        lemma_parse_path_pieces(p, 0);
        assert(p.skip(0) =~= p);
    }
}

/// The empty string reads as the empty path.
pub proof fn lemma_empty_path()
    ensures
        parse_path(Seq::<char>::empty()) == Ok::<Seq<Seq<SegmentView>>, Seq<char>>(Seq::<Seq<SegmentView>>::empty()),
{
}

/// Reading the parts from `i` on fails exactly when one of them is not a canonical name.
pub proof fn lemma_parse_path_from_fails(parts: Seq<Seq<char>>, i: int)
    requires
        0 <= i,
    ensures
        parse_path_from(parts, i) is Err <==> exists|j: int| i <= j < parts.len() && (#[trigger] parse_canonical(parts[j])) is Err,
    decreases parts.len() - i,
{
    if i < parts.len() {
        lemma_parse_path_from_fails(parts, i + 1);
        if parse_canonical(parts[i]) is Err {
            assert(exists|j: int| i <= j < parts.len() && (#[trigger] parse_canonical(parts[j])) is Err);
        } else if exists|j: int| i <= j < parts.len() && (#[trigger] parse_canonical(parts[j])) is Err {
            let j = choose|j: int| i <= j < parts.len() && (#[trigger] parse_canonical(parts[j])) is Err;
            assert(j != i);
            assert(i + 1 <= j < parts.len() && parse_canonical(parts[j]) is Err);
        }
    }
}

/// A non-empty string fails to read as a path exactly when one of its `/`-separated parts
/// fails to read as a canonical name.
pub proof fn lemma_parse_path_fails(s: Seq<char>)
    requires
        s.len() > 0,
    ensures
        parse_path(s) is Err <==> exists|j: int| 0 <= j < split(s, '/').len() && (#[trigger] parse_canonical(split(s, '/')[j])) is Err,
{
    lemma_parse_path_from_fails(split(s, '/'), 0);
}

} // verus!
