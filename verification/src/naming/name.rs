//! The Morphir IR v4 name model and its canonical encodings.
//!
//! A [`Name`] is a sequence of [`Segment`]s. A segment is a lowercase alphanumeric
//! token that is either an ordinary word or an initialism. Two canonical string
//! encodings exist: [`NameStyle::Uppercase`] writes an initialism in capitals
//! (`value-in-USD`), [`NameStyle::DoubledHyphen`] precedes it with a doubled
//! separator (`value-in--usd`). Decoding accepts both; the syntaxes are disjoint.

use crate::text::{
    all_alnum, all_lower_alnum, ascii_is_digit, ascii_is_lower, ascii_is_upper, ascii_lower,
    ascii_upper, chars_of, has_lower, has_upper, is_alnum, is_lower, is_lower_alnum, is_upper,
    lower_seq, push_chars, string_of, subrange, to_upper, upper_seq, join, join_chars, views,
    seq_eq, push_char, lemma_views_push, lemma_take_succ, split, split_chars, lemma_split_len,
    decimal, decimal_of, has_pair, contains_pair, is_digit, split_any, split_chars_any, to_lower,
};
use vstd::prelude::*;

verus! {

/// One component of a [`Name`]: an ordinary word or an initialism.
#[derive(Debug, Clone, PartialEq, Eq, Hash)]
pub enum Segment {
    /// An ordinary word, such as `user`.
    Word(String),
    /// An initialism, such as `usd`, rendered `USD` or `Usd` by convention.
    Initialism(String),
}

/// The mathematical content of a segment: its class and its text.
pub struct SegmentView {
    pub initialism: bool,
    pub text: Seq<char>,
}

impl View for Segment {
    type V = SegmentView;

    open spec fn view(&self) -> SegmentView {
        match self {
            Segment::Word(t) => SegmentView { initialism: false, text: t@ },
            Segment::Initialism(t) => SegmentView { initialism: true, text: t@ },
        }
    }
}

pub open spec fn word(text: Seq<char>) -> SegmentView {
    SegmentView { initialism: false, text }
}

pub open spec fn initialism(text: Seq<char>) -> SegmentView {
    SegmentView { initialism: true, text }
}

/// Why a [`Segment`] cannot appear in a [`Name`].
#[derive(Debug, Clone, PartialEq, Eq)]
pub enum SegmentError {
    /// The segment carries no text.
    Empty,
    /// The segment carries a character outside `[a-z0-9]`.
    InvalidCharacter { text: String },
    /// The initialism carries no letter, so it would read back as a word.
    DigitOnlyInitialism { text: String },
}

/// A segment a name may hold: non-empty `[a-z0-9]` text, and an initialism has a letter.
pub open spec fn valid_segment(s: SegmentView) -> bool {
    &&& s.text.len() > 0
    &&& all_lower_alnum(s.text)
    &&& s.initialism ==> has_lower(s.text)
}

pub open spec fn valid_name(n: Seq<SegmentView>) -> bool {
    forall|i: int| 0 <= i < n.len() ==> valid_segment(#[trigger] n[i])
}

/// `"` + `t` + `"`: how `{:?}` spells an alphanumeric string.
pub open spec fn quoted(t: Seq<char>) -> Seq<char> {
    seq!['"'] + t + seq!['"']
}

pub open spec fn digit_only_message(text: Seq<char>) -> Seq<char> {
    "initialism "@ + quoted(text) + " has no letter, so it cannot be distinguished from a word"@
}

/// What [`Segment::validate`] answers.
pub open spec fn segment_check(s: SegmentView) -> Option<SegmentErrorKind> {
    if s.text.len() == 0 {
        Some(SegmentErrorKind::Empty)
    } else if !all_lower_alnum(s.text) {
        Some(SegmentErrorKind::InvalidCharacter)
    } else if s.initialism && !has_lower(s.text) {
        Some(SegmentErrorKind::DigitOnlyInitialism)
    } else {
        None
    }
}

/// The variant of a [`SegmentError`], without its text.
pub enum SegmentErrorKind {
    Empty,
    InvalidCharacter,
    DigitOnlyInitialism,
}

impl SegmentError {
    pub open spec fn kind(&self) -> SegmentErrorKind {
        match self {
            SegmentError::Empty => SegmentErrorKind::Empty,
            SegmentError::InvalidCharacter { .. } => SegmentErrorKind::InvalidCharacter,
            SegmentError::DigitOnlyInitialism { .. } => SegmentErrorKind::DigitOnlyInitialism,
        }
    }

    pub open spec fn text_view(&self) -> Seq<char> {
        match self {
            SegmentError::Empty => Seq::<char>::empty(),
            SegmentError::InvalidCharacter { text } => text@,
            SegmentError::DigitOnlyInitialism { text } => text@,
        }
    }
}

pub proof fn lemma_valid_segment_check(s: SegmentView)
    ensures
        valid_segment(s) <==> segment_check(s) is None,
{
}

pub fn all_lower_alnum_exec(t: &[char]) -> (r: bool)
    ensures
        r == all_lower_alnum(t@),
{
    let mut i: usize = 0;
    while i < t.len()
        invariant
            i <= t.len(),
            forall|j: int| 0 <= j < i ==> is_lower_alnum(#[trigger] t@[j]),
        decreases t.len() - i,
    {
        if !(ascii_is_lower(t[i]) || ascii_is_digit(t[i])) {
            return false;
        }
        i = i + 1;
    }
    true
}

pub fn all_alnum_exec(t: &[char]) -> (r: bool)
    ensures
        r == all_alnum(t@),
{
    let mut i: usize = 0;
    while i < t.len()
        invariant
            i <= t.len(),
            forall|j: int| 0 <= j < i ==> is_alnum(#[trigger] t@[j]),
        decreases t.len() - i,
    {
        if !(ascii_is_lower(t[i]) || ascii_is_upper(t[i]) || ascii_is_digit(t[i])) {
            return false;
        }
        i = i + 1;
    }
    true
}

pub fn has_lower_exec(t: &[char]) -> (r: bool)
    ensures
        r == has_lower(t@),
{
    let mut i: usize = 0;
    while i < t.len()
        invariant
            i <= t.len(),
            forall|j: int| 0 <= j < i ==> !is_lower(#[trigger] t@[j]),
        decreases t.len() - i,
    {
        if ascii_is_lower(t[i]) {
            return true;
        }
        i = i + 1;
    }
    false
}

pub fn has_upper_exec(t: &[char]) -> (r: bool)
    ensures
        r == has_upper(t@),
{
    let mut i: usize = 0;
    while i < t.len()
        invariant
            i <= t.len(),
            forall|j: int| 0 <= j < i ==> !is_upper(#[trigger] t@[j]),
        decreases t.len() - i,
    {
        if ascii_is_upper(t[i]) {
            return true;
        }
        i = i + 1;
    }
    false
}

pub fn upper_chars(t: &[char]) -> (r: Vec<char>)
    ensures
        r@ == upper_seq(t@),
{
    let mut out: Vec<char> = Vec::new();
    let mut i: usize = 0;
    while i < t.len()
        invariant
            i <= t.len(),
            out@ == upper_seq(t@.take(i as int)),
        decreases t.len() - i,
    {
        out.push(ascii_upper(t[i]));
        i = i + 1;
        assert(out@ =~= upper_seq(t@.take(i as int)));
    }
    assert(t@.take(t.len() as int) =~= t@);
    out
}

pub fn lower_chars(t: &[char]) -> (r: Vec<char>)
    ensures
        r@ == lower_seq(t@),
{
    let mut out: Vec<char> = Vec::new();
    let mut i: usize = 0;
    while i < t.len()
        invariant
            i <= t.len(),
            out@ == lower_seq(t@.take(i as int)),
        decreases t.len() - i,
    {
        out.push(ascii_lower(t[i]));
        i = i + 1;
        assert(out@ =~= lower_seq(t@.take(i as int)));
    }
    assert(t@.take(t.len() as int) =~= t@);
    out
}

/// `t` with its first character in capitals.
pub open spec fn titled(t: Seq<char>) -> Seq<char> {
    if t.len() == 0 {
        t
    } else {
        seq![to_upper(t[0])] + t.drop_first()
    }
}

impl Segment {
    /// The lowercase text of this segment, without its class.
    pub fn text(&self) -> (r: &str)
        ensures
            r@ == self@.text,
    {
        match self {
            Segment::Word(text) => text.as_str(),
            Segment::Initialism(text) => text.as_str(),
        }
    }

    pub fn is_initialism(&self) -> (r: bool)
        ensures
            r == self@.initialism,
    {
        match self {
            Segment::Initialism(_) => true,
            Segment::Word(_) => false,
        }
    }

    /// A segment with the same class and text.
    pub fn duplicate(&self) -> (r: Segment)
        ensures
            r@ == self@,
    {
        match self {
            Segment::Word(t) => Segment::Word(t.clone()),
            Segment::Initialism(t) => Segment::Initialism(t.clone()),
        }
    }

    pub fn from_view_chars(initialism: bool, text: &[char]) -> (r: Segment)
        ensures
            r@ == (SegmentView { initialism, text: text@ }),
    {
        let s = string_of(text);
        if initialism {
            Segment::Initialism(s)
        } else {
            Segment::Word(s)
        }
    }

    /// Check that this segment may stand in a name.
    pub fn validate(&self) -> (r: Result<(), SegmentError>)
        ensures
            r is Ok <==> segment_check(self@) is None,
            r matches Err(e) ==> segment_check(self@) == Some(e.kind()) && (e.kind()
                != SegmentErrorKind::Empty ==> e.text_view() == self@.text),
    {
        let text = chars_of(self.text());
        if text.len() == 0 {
            return Err(SegmentError::Empty);
        }
        if !all_lower_alnum_exec(text.as_slice()) {
            return Err(SegmentError::InvalidCharacter { text: self.text().to_owned() });
        }
        if self.is_initialism() && !has_lower_exec(text.as_slice()) {
            return Err(SegmentError::DigitOnlyInitialism { text: self.text().to_owned() });
        }
        Ok(())
    }

    pub fn titled(&self) -> (r: Vec<char>)
        ensures
            r@ == titled(self@.text),
    {
        let text = chars_of(self.text());
        if text.len() == 0 {
            return text;
        }
        let mut out: Vec<char> = Vec::new();
        out.push(ascii_upper(text[0]));
        let rest = subrange(text.as_slice(), 1, text.len());
        push_chars(&mut out, rest.as_slice());
        assert(out@ =~= titled(self@.text));
        out
    }
}

impl SegmentError {
    /// The error's human-readable message.
    pub open spec fn message_view(&self) -> Seq<char> {
        match self {
            SegmentError::Empty => "a name segment cannot be empty"@,
            SegmentError::InvalidCharacter { text } => "name segment "@ + debug_str(text@)
                + " is not lowercase alphanumeric"@,
            SegmentError::DigitOnlyInitialism { text } => "initialism "@ + debug_str(text@)
                + " has no letter, so it cannot be distinguished from a word"@,
        }
    }

    /// The error's human-readable message.
    pub fn message(&self) -> (r: String)
        ensures
            r@ == self.message_view(),
    {
        match self {
            SegmentError::Empty => String::from_str("a name segment cannot be empty"),
            SegmentError::InvalidCharacter { text } => {
                let mut out = String::from_str("name segment ");
                let q = debug_quote(text.as_str());
                out.append(q.as_str());
                out.append(" is not lowercase alphanumeric");
                out
            },
            SegmentError::DigitOnlyInitialism { text } => {
                let mut out = String::from_str("initialism ");
                let q = debug_quote(text.as_str());
                out.append(q.as_str());
                out.append(" has no letter, so it cannot be distinguished from a word");
                out
            },
        }
    }
}

/// What `{:?}` writes for a string.
pub uninterp spec fn debug_str(s: Seq<char>) -> Seq<char>;

/// `format!("{s:?}")`: the string's `Debug` spelling.
///
/// Stated: the result is the named `debug_str` of the text, and an ASCII
/// alphanumeric string is written between double quotes unchanged, as the
/// escaping rules of `char::escape_debug` leave such characters alone.
#[verifier::external_body]
pub(crate) fn debug_quote(s: &str) -> (r: String)
    ensures
        r@ == debug_str(s@),
        all_alnum(s@) ==> r@ == quoted(s@),
{
    format!("{s:?}")
}


/// Which canonical string encoding to write.
#[derive(Debug, Clone, Copy, PartialEq, Eq, Hash)]
pub enum NameStyle {
    /// An initialism is an uppercase segment: `value-in-USD`.
    Uppercase,
    /// An initialism is preceded by a doubled separator: `value-in--usd`.
    DoubledHyphen,
}

/// The encoding [`Name::to_canonical_string`] writes. A constant, so that two
/// producers cannot spell one name two ways.
pub open spec fn canonical_style() -> NameStyle {
    NameStyle::Uppercase
}

/// A name: a sequence of segments.
#[derive(Debug, Clone, PartialEq, Eq, Hash)]
pub struct Name {
    segments: Vec<Segment>,
}

pub open spec fn segment_views(v: Seq<Segment>) -> Seq<SegmentView> {
    v.map_values(|s: Segment| s@)
}

impl View for Name {
    type V = Seq<SegmentView>;

    closed spec fn view(&self) -> Seq<SegmentView> {
        segment_views(self.segments@)
    }
}

// ---------------------------------------------------------------------------
// Renderings, as spec functions over the segment sequence
// ---------------------------------------------------------------------------

pub open spec fn texts(n: Seq<SegmentView>) -> Seq<Seq<char>> {
    n.map_values(|s: SegmentView| s.text)
}

pub open spec fn upper_piece(s: SegmentView) -> Seq<char> {
    if s.initialism {
        upper_seq(s.text)
    } else {
        s.text
    }
}

/// `value-in-USD`
pub open spec fn canonical_uppercase(n: Seq<SegmentView>) -> Seq<char> {
    join(n.map_values(|s: SegmentView| upper_piece(s)), seq!['-'])
}

/// The separator written before segment `i` in the doubled-hyphen encoding.
pub open spec fn doubled_sep(i: int, s: SegmentView) -> Seq<char> {
    if s.initialism {
        seq!['-', '-']
    } else if i == 0 {
        Seq::<char>::empty()
    } else {
        seq!['-']
    }
}

/// The doubled-hyphen encoding of segments `i..`.
pub open spec fn doubled_from(n: Seq<SegmentView>, i: int) -> Seq<char>
    decreases n.len() - i,
{
    if i >= n.len() {
        Seq::<char>::empty()
    } else {
        doubled_sep(i, n[i]) + n[i].text + doubled_from(n, i + 1)
    }
}

/// `value-in--usd`
pub open spec fn canonical_doubled(n: Seq<SegmentView>) -> Seq<char> {
    doubled_from(n, 0)
}

pub open spec fn canonical_in(n: Seq<SegmentView>, style: NameStyle) -> Seq<char> {
    match style {
        NameStyle::Uppercase => canonical_uppercase(n),
        NameStyle::DoubledHyphen => canonical_doubled(n),
    }
}

pub open spec fn stem_piece(s: SegmentView) -> Seq<char> {
    if s.initialism {
        seq!['_'] + s.text
    } else {
        s.text
    }
}

pub open spec fn reserved_device(s: Seq<char>) -> bool {
    ||| s == "con"@ ||| s == "prn"@ ||| s == "aux"@ ||| s == "nul"@
    ||| s == "com0"@ ||| s == "com1"@ ||| s == "com2"@ ||| s == "com3"@ ||| s == "com4"@
    ||| s == "com5"@ ||| s == "com6"@ ||| s == "com7"@ ||| s == "com8"@ ||| s == "com9"@
    ||| s == "lpt0"@ ||| s == "lpt1"@ ||| s == "lpt2"@ ||| s == "lpt3"@ ||| s == "lpt4"@
    ||| s == "lpt5"@ ||| s == "lpt6"@ ||| s == "lpt7"@ ||| s == "lpt8"@ ||| s == "lpt9"@
}

/// The escaped segments joined with `-`, before the device-name escape.
pub open spec fn joined_stem(n: Seq<SegmentView>) -> Seq<char> {
    join(n.map_values(|s: SegmentView| stem_piece(s)), seq!['-'])
}

/// The filename stem a name projects onto: an initialism carries a `_` prefix, and a
/// stem that names a Windows device carries a `_` suffix.
pub open spec fn file_stem_of(n: Seq<SegmentView>) -> Seq<char> {
    let stem = joined_stem(n);
    if reserved_device(lower_seq(stem)) {
        stem.push('_')
    } else {
        stem
    }
}

pub open spec fn camel_piece(i: int, s: SegmentView) -> Seq<char> {
    if i == 0 {
        s.text
    } else if s.initialism {
        upper_seq(s.text)
    } else {
        titled(s.text)
    }
}

pub open spec fn pascal_piece(s: SegmentView) -> Seq<char> {
    if s.initialism {
        upper_seq(s.text)
    } else {
        titled(s.text)
    }
}

/// `valueInUSD`
pub open spec fn camel_case(n: Seq<SegmentView>) -> Seq<char> {
    join(n.map(|i: int, s: SegmentView| camel_piece(i, s)), Seq::<char>::empty())
}

/// `ValueInUSD`
pub open spec fn pascal_case(n: Seq<SegmentView>) -> Seq<char> {
    join(n.map_values(|s: SegmentView| pascal_piece(s)), Seq::<char>::empty())
}

/// `ValueInUsd`
pub open spec fn pascal_case_titled(n: Seq<SegmentView>) -> Seq<char> {
    join(n.map_values(|s: SegmentView| titled(s.text)), Seq::<char>::empty())
}

pub open spec fn snake_case(n: Seq<SegmentView>) -> Seq<char> {
    join(texts(n), seq!['_'])
}

pub open spec fn kebab_case(n: Seq<SegmentView>) -> Seq<char> {
    join(texts(n), seq!['-'])
}

pub open spec fn screaming_snake_case(n: Seq<SegmentView>) -> Seq<char> {
    join(n.map_values(|s: SegmentView| upper_seq(s.text)), seq!['_'])
}

/// The legacy words of one segment: a word as it is, an initialism letter by letter.
pub open spec fn segment_words(s: SegmentView) -> Seq<Seq<char>> {
    if s.initialism {
        s.text.map_values(|c: char| seq![c])
    } else {
        seq![s.text]
    }
}

pub open spec fn words_of(n: Seq<SegmentView>) -> Seq<Seq<char>>
    decreases n.len(),
{
    if n.len() == 0 {
        Seq::<Seq<char>>::empty()
    } else {
        words_of(n.drop_last()) + segment_words(n.last())
    }
}

pub open spec fn string_views(v: Seq<String>) -> Seq<Seq<char>> {
    v.map_values(|s: String| s@)
}

pub proof fn lemma_string_views_push(v: Seq<String>, x: String)
    ensures
        string_views(v.push(x)) == string_views(v).push(x@),
{
    assert(string_views(v.push(x)) =~= string_views(v).push(x@));
}

pub proof fn lemma_segment_views_push(v: Seq<Segment>, x: Segment)
    ensures
        segment_views(v.push(x)) == segment_views(v).push(x@),
{
    assert(segment_views(v.push(x)) =~= segment_views(v).push(x@));
}

pub fn matches_literal(s: &[char], lit: &str) -> (r: bool)
    ensures
        r == (s@ == lit@),
{
    let l = chars_of(lit);
    seq_eq(s, l.as_slice())
}

pub fn is_reserved_device(s: &[char]) -> (r: bool)
    ensures
        r == reserved_device(s@),
{
    matches_literal(s, "con") || matches_literal(s, "prn") || matches_literal(s, "aux")
        || matches_literal(s, "nul") || matches_literal(s, "com0") || matches_literal(s, "com1")
        || matches_literal(s, "com2") || matches_literal(s, "com3") || matches_literal(s, "com4")
        || matches_literal(s, "com5") || matches_literal(s, "com6") || matches_literal(s, "com7")
        || matches_literal(s, "com8") || matches_literal(s, "com9") || matches_literal(s, "lpt0")
        || matches_literal(s, "lpt1") || matches_literal(s, "lpt2") || matches_literal(s, "lpt3")
        || matches_literal(s, "lpt4") || matches_literal(s, "lpt5") || matches_literal(s, "lpt6")
        || matches_literal(s, "lpt7") || matches_literal(s, "lpt8") || matches_literal(s, "lpt9")
}

impl Name {
    pub(crate) fn from_segment_vec(segments: Vec<Segment>) -> (r: Name)
        ensures
            r@ == segment_views(segments@),
    {
        Name { segments }
    }

    /// The empty name.
    pub fn empty() -> (r: Name)
        ensures
            r@ == Seq::<SegmentView>::empty(),
    {
        let r = Name { segments: Vec::new() };
        assert(r@ =~= Seq::<SegmentView>::empty());
        r
    }

    pub fn segments(&self) -> (r: &[Segment])
        ensures
            segment_views(r@) == self@,
    {
        self.segments.as_slice()
    }

    pub fn is_empty(&self) -> (r: bool)
        ensures
            r == (self@.len() == 0),
    {
        self.segments.len() == 0
    }

    /// A name with the same segments.
    pub fn duplicate(&self) -> (r: Name)
        ensures
            r@ == self@,
    {
        let mut out: Vec<Segment> = Vec::new();
        let mut i: usize = 0;
        while i < self.segments.len()
            invariant
                i <= self.segments.len(),
                segment_views(out@) == segment_views(self.segments@).take(i as int),
            decreases self.segments.len() - i,
        {
            let piece = self.segments[i].duplicate();
            let ghost old = out@;
            out.push(piece);
            proof {
                lemma_segment_views_push(old, piece);
                lemma_take_succ(segment_views(self.segments@), i as int);
            }
            i = i + 1;
        }
        assert(segment_views(self.segments@).take(i as int) =~= segment_views(self.segments@));
        Name { segments: out }
    }

    /// Whether two names hold the same segments.
    pub fn same_as(&self, other: &Name) -> (r: bool)
        ensures
            r == (self@ == other@),
    {
        if self.segments.len() != other.segments.len() {
            proof {
                assert(self@.len() != other@.len());
            }
            return false;
        }
        let mut i: usize = 0;
        while i < self.segments.len()
            invariant
                i <= self.segments.len(),
                self.segments.len() == other.segments.len(),
                forall|j: int| 0 <= j < i ==> self@[j] == other@[j],
            decreases self.segments.len() - i,
        {
            let a = &self.segments[i];
            let b = &other.segments[i];
            let ta = chars_of(a.text());
            let tb = chars_of(b.text());
            if a.is_initialism() != b.is_initialism() || !seq_eq(ta.as_slice(), tb.as_slice()) {
                assert(self@[i as int] != other@[i as int]);
                return false;
            }
            i = i + 1;
        }
        assert(self@ =~= other@);
        true
    }

    /// The pieces `piece(segment)` of every segment, in order.
    fn texts_vec(&self) -> (r: Vec<Vec<char>>)
        ensures
            views(r@) == texts(self@),
    {
        let mut out: Vec<Vec<char>> = Vec::new();
        let mut i: usize = 0;
        while i < self.segments.len()
            invariant
                i <= self.segments.len(),
                views(out@) == texts(self@).take(i as int),
            decreases self.segments.len() - i,
        {
            let piece = chars_of(self.segments[i].text());
            let ghost old = out@;
            assert(piece@ == texts(self@)[i as int]);
            out.push(piece);
            proof {
                lemma_views_push(old, piece);
                lemma_take_succ(texts(self@), i as int);
            }
            i = i + 1;
        }
        assert(texts(self@).take(i as int) =~= texts(self@));
        out
    }

    fn upper_pieces(&self) -> (r: Vec<Vec<char>>)
        ensures
            views(r@) == self@.map_values(|s: SegmentView| upper_piece(s)),
    {
        let ghost target = self@.map_values(|s: SegmentView| upper_piece(s));
        let mut out: Vec<Vec<char>> = Vec::new();
        let mut i: usize = 0;
        while i < self.segments.len()
            invariant
                i <= self.segments.len(),
                target == self@.map_values(|s: SegmentView| upper_piece(s)),
                views(out@) == target.take(i as int),
            decreases self.segments.len() - i,
        {
            let seg = &self.segments[i];
            let t = chars_of(seg.text());
            let piece = if seg.is_initialism() { upper_chars(t.as_slice()) } else { t };
            let ghost old = out@;
            assert(piece@ == target[i as int]);
            out.push(piece);
            proof {
                lemma_views_push(old, piece);
                lemma_take_succ(target, i as int);
            }
            i = i + 1;
        }
        assert(target.take(i as int) =~= target);
        out
    }

    /// Render using the canonical style, [`NameStyle::Uppercase`].
    pub fn to_canonical_string(&self) -> (r: String)
        ensures
            r@ == canonical_in(self@, canonical_style()),
    {
        self.to_canonical_string_in(NameStyle::Uppercase)
    }

    /// The display spelling of a name: its canonical string.
    pub fn to_string(&self) -> (r: String)
        ensures
            r@ == canonical_in(self@, canonical_style()),
    {
        self.to_canonical_string()
    }

    pub fn canonical_chars(&self, style: NameStyle) -> (r: Vec<char>)
        ensures
            r@ == canonical_in(self@, style),
    {
        match style {
            NameStyle::Uppercase => {
                let pieces = self.upper_pieces();
                let sep = vec!['-'];
                let r = join_chars(&pieces, sep.as_slice());
                assert(sep@ =~= seq!['-']);
                r
            },
            NameStyle::DoubledHyphen => {
                let mut out: Vec<char> = Vec::new();
                let mut i: usize = 0;
                while i < self.segments.len()
                    invariant
                        i <= self.segments.len(),
                        out@ + doubled_from(self@, i as int) == doubled_from(self@, 0),
                    decreases self.segments.len() - i,
                {
                    let seg = &self.segments[i];
                    let ghost before = out@;
                    if seg.is_initialism() {
                        out.push('-');
                        out.push('-');
                    } else if i > 0 {
                        out.push('-');
                    }
                    assert(out@ == before + doubled_sep(i as int, self@[i as int]));
                    let t = chars_of(seg.text());
                    push_chars(&mut out, t.as_slice());
                    assert(doubled_from(self@, i as int) == doubled_sep(i as int, self@[i as int])
                        + self@[i as int].text + doubled_from(self@, i as int + 1));
                    assert(out@ + doubled_from(self@, i as int + 1) =~= before + doubled_from(
                        self@,
                        i as int,
                    ));
                    i = i + 1;
                }
                assert(out@ + doubled_from(self@, i as int) =~= out@);
                out
            },
        }
    }

    pub fn to_canonical_string_in(&self, style: NameStyle) -> (r: String)
        ensures
            r@ == canonical_in(self@, style),
    {
        let cs = self.canonical_chars(style);
        string_of(cs.as_slice())
    }

    pub fn file_stem_chars(&self) -> (r: Vec<char>)
        ensures
            r@ == file_stem_of(self@),
    {
        let ghost target = self@.map_values(|s: SegmentView| stem_piece(s));
        let mut pieces: Vec<Vec<char>> = Vec::new();
        let mut i: usize = 0;
        while i < self.segments.len()
            invariant
                i <= self.segments.len(),
                target == self@.map_values(|s: SegmentView| stem_piece(s)),
                views(pieces@) == target.take(i as int),
            decreases self.segments.len() - i,
        {
            let seg = &self.segments[i];
            let t = chars_of(seg.text());
            let piece = if seg.is_initialism() {
                let mut p: Vec<char> = Vec::new();
                p.push('_');
                push_chars(&mut p, t.as_slice());
                assert(p@ =~= seq!['_'] + t@);
                p
            } else {
                t
            };
            let ghost old = pieces@;
            assert(piece@ == target[i as int]);
            pieces.push(piece);
            proof {
                lemma_views_push(old, piece);
                lemma_take_succ(target, i as int);
            }
            i = i + 1;
        }
        assert(target.take(i as int) =~= target);
        let sep = vec!['-'];
        assert(sep@ =~= seq!['-']);
        let mut stem = join_chars(&pieces, sep.as_slice());
        let lowered = lower_chars(stem.as_slice());
        if is_reserved_device(lowered.as_slice()) {
            stem.push('_');
        }
        stem
    }

    /// The filename stem this name projects onto in a document tree.
    pub fn to_file_stem(&self) -> (r: String)
        ensures
            r@ == file_stem_of(self@),
    {
        let cs = self.file_stem_chars();
        string_of(cs.as_slice())
    }

    /// `valueInUSD`. A leading initialism is lowercased whole.
    pub fn to_camel_case(&self) -> (r: String)
        ensures
            r@ == camel_case(self@),
    {
        let ghost target = self@.map(|i: int, s: SegmentView| camel_piece(i, s));
        let mut pieces: Vec<Vec<char>> = Vec::new();
        let mut i: usize = 0;
        while i < self.segments.len()
            invariant
                i <= self.segments.len(),
                target == self@.map(|i: int, s: SegmentView| camel_piece(i, s)),
                views(pieces@) == target.take(i as int),
            decreases self.segments.len() - i,
        {
            let seg = &self.segments[i];
            let piece = if i == 0 {
                chars_of(seg.text())
            } else if seg.is_initialism() {
                let t = chars_of(seg.text());
                upper_chars(t.as_slice())
            } else {
                seg.titled()
            };
            let ghost old = pieces@;
            assert(piece@ == target[i as int]);
            pieces.push(piece);
            proof {
                lemma_views_push(old, piece);
                lemma_take_succ(target, i as int);
            }
            i = i + 1;
        }
        assert(target.take(i as int) =~= target);
        let sep: Vec<char> = Vec::new();
        assert(sep@ =~= Seq::<char>::empty());
        let r = join_chars(&pieces, sep.as_slice());
        string_of(r.as_slice())
    }

    /// `ValueInUSD`, the Go convention: an initialism is fully uppercase.
    pub fn to_pascal_case(&self) -> (r: String)
        ensures
            r@ == pascal_case(self@),
    {
        let ghost target = self@.map_values(|s: SegmentView| pascal_piece(s));
        let mut pieces: Vec<Vec<char>> = Vec::new();
        let mut i: usize = 0;
        while i < self.segments.len()
            invariant
                i <= self.segments.len(),
                target == self@.map_values(|s: SegmentView| pascal_piece(s)),
                views(pieces@) == target.take(i as int),
            decreases self.segments.len() - i,
        {
            let seg = &self.segments[i];
            let piece = if seg.is_initialism() {
                let t = chars_of(seg.text());
                upper_chars(t.as_slice())
            } else {
                seg.titled()
            };
            let ghost old = pieces@;
            assert(piece@ == target[i as int]);
            pieces.push(piece);
            proof {
                lemma_views_push(old, piece);
                lemma_take_succ(target, i as int);
            }
            i = i + 1;
        }
        assert(target.take(i as int) =~= target);
        let sep: Vec<char> = Vec::new();
        assert(sep@ =~= Seq::<char>::empty());
        let r = join_chars(&pieces, sep.as_slice());
        string_of(r.as_slice())
    }

    /// `ValueInUsd`, the Rust and .NET convention: an initialism is title cased.
    pub fn to_pascal_case_pascal_initialism(&self) -> (r: String)
        ensures
            r@ == pascal_case_titled(self@),
    {
        let ghost target = self@.map_values(|s: SegmentView| titled(s.text));
        let mut pieces: Vec<Vec<char>> = Vec::new();
        let mut i: usize = 0;
        while i < self.segments.len()
            invariant
                i <= self.segments.len(),
                target == self@.map_values(|s: SegmentView| titled(s.text)),
                views(pieces@) == target.take(i as int),
            decreases self.segments.len() - i,
        {
            let piece = self.segments[i].titled();
            let ghost old = pieces@;
            assert(piece@ == target[i as int]);
            pieces.push(piece);
            proof {
                lemma_views_push(old, piece);
                lemma_take_succ(target, i as int);
            }
            i = i + 1;
        }
        assert(target.take(i as int) =~= target);
        let sep: Vec<char> = Vec::new();
        assert(sep@ =~= Seq::<char>::empty());
        let r = join_chars(&pieces, sep.as_slice());
        string_of(r.as_slice())
    }

    /// `ValueInUSD`; the same as [`Name::to_pascal_case`].
    pub fn to_title_case(&self) -> (r: String)
        ensures
            r@ == pascal_case(self@),
    {
        self.to_pascal_case()
    }

    pub fn to_snake_case(&self) -> (r: String)
        ensures
            r@ == snake_case(self@),
    {
        let pieces = self.texts_vec();
        let sep = vec!['_'];
        assert(sep@ =~= seq!['_']);
        let r = join_chars(&pieces, sep.as_slice());
        string_of(r.as_slice())
    }

    pub fn to_kebab_case(&self) -> (r: String)
        ensures
            r@ == kebab_case(self@),
    {
        let pieces = self.texts_vec();
        let sep = vec!['-'];
        assert(sep@ =~= seq!['-']);
        let r = join_chars(&pieces, sep.as_slice());
        string_of(r.as_slice())
    }

    pub fn to_screaming_snake_case(&self) -> (r: String)
        ensures
            r@ == screaming_snake_case(self@),
    {
        let ghost target = self@.map_values(|s: SegmentView| upper_seq(s.text));
        let mut pieces: Vec<Vec<char>> = Vec::new();
        let mut i: usize = 0;
        while i < self.segments.len()
            invariant
                i <= self.segments.len(),
                target == self@.map_values(|s: SegmentView| upper_seq(s.text)),
                views(pieces@) == target.take(i as int),
            decreases self.segments.len() - i,
        {
            let t = chars_of(self.segments[i].text());
            let piece = upper_chars(t.as_slice());
            let ghost old = pieces@;
            assert(piece@ == target[i as int]);
            pieces.push(piece);
            proof {
                lemma_views_push(old, piece);
                lemma_take_succ(target, i as int);
            }
            i = i + 1;
        }
        assert(target.take(i as int) =~= target);
        let sep = vec!['_'];
        assert(sep@ =~= seq!['_']);
        let r = join_chars(&pieces, sep.as_slice());
        string_of(r.as_slice())
    }

    /// Whether no segment holds a capital letter.
    pub fn is_lowercase(&self) -> (r: bool)
        ensures
            r == (forall|i: int| 0 <= i < self@.len() ==> !has_upper(#[trigger] self@[i].text)),
    {
        let mut i: usize = 0;
        while i < self.segments.len()
            invariant
                i <= self.segments.len(),
                forall|j: int| 0 <= j < i ==> !has_upper(#[trigger] self@[j].text),
            decreases self.segments.len() - i,
        {
            let t = chars_of(self.segments[i].text());
            assert(t@ == self@[i as int].text);
            if has_upper_exec(t.as_slice()) {
                return false;
            }
            i = i + 1;
        }
        true
    }

    /// The legacy v1 through v3 word list: an initialism explodes into its letters.
    pub fn words(&self) -> (r: Vec<String>)
        ensures
            string_views(r@) == words_of(self@),
    {
        let mut out: Vec<String> = Vec::new();
        let mut i: usize = 0;
        while i < self.segments.len()
            invariant
                i <= self.segments.len(),
                string_views(out@) == words_of(self@.take(i as int)),
            decreases self.segments.len() - i,
        {
            let seg = &self.segments[i];
            assert(self@.take(i as int + 1).drop_last() =~= self@.take(i as int));
            assert(self@.take(i as int + 1).last() == self@[i as int]);
            let ghost before = out@;
            if seg.is_initialism() {
                let t = chars_of(seg.text());
                let mut k: usize = 0;
                while k < t.len()
                    invariant
                        k <= t.len(),
                        i < self@.len(),
                        t@ == self@[i as int].text,
                        string_views(out@) == string_views(before) + t@.take(k as int).map_values(|c: char| seq![c]),
                    decreases t.len() - k,
                {
                    let mut one = String::new();
                    push_char(&mut one, t[k]);
                    assert(one@ =~= seq![t@[k as int]]);
                    let ghost old = out@;
                    out.push(one);
                    proof {
                        lemma_string_views_push(old, one);
                        lemma_take_succ(t@, k as int);
                        assert(t@.take(k as int + 1).map_values(|c: char| seq![c]) =~= t@.take(k as int).map_values(|c: char| seq![c]).push(seq![t@[k as int]]));
                    }
                    k = k + 1;
                }
                assert(t@.take(k as int) =~= t@);
            } else {
                let one = seg.text().to_owned();
                out.push(one);
                proof { lemma_string_views_push(before, one); }
                assert(string_views(out@) =~= string_views(before) + seq![self@[i as int].text]);
            }
            i = i + 1;
        }
        assert(self@.take(i as int) =~= self@);
        out
    }
}


// ---------------------------------------------------------------------------
// Decoding the canonical encodings
// ---------------------------------------------------------------------------

pub open spec fn canonical_error(what: Seq<char>, source: Seq<char>) -> Seq<char> {
    what + " in canonical name: "@ + source
}

pub open spec fn mixed_encodings_message(source: Seq<char>) -> Seq<char> {
    "canonical name mixes both encodings, uppercase and doubled separator: "@ + source
}

/// `Ok(a + x)` for `Ok(x)`, the error unchanged.
pub open spec fn prepend(a: Seq<SegmentView>, r: Result<Seq<SegmentView>, Seq<char>>) -> Result<
    Seq<SegmentView>,
    Seq<char>,
> {
    match r {
        Ok(x) => Ok(a + x),
        Err(e) => Err(e),
    }
}

/// The segment an uppercase-encoded part decodes to.
pub open spec fn upper_part_segment(p: Seq<char>) -> SegmentView {
    if has_upper(p) {
        initialism(lower_seq(p))
    } else {
        word(p)
    }
}

pub open spec fn upper_part_error(p: Seq<char>, source: Seq<char>) -> Option<Seq<char>> {
    if p.len() == 0 {
        Some(canonical_error("empty segment"@, source))
    } else if !all_alnum(p) {
        Some(canonical_error("invalid character"@, source))
    } else if has_upper(p) && has_lower(p) {
        Some(canonical_error("mixed-case segment "@ + quoted(p), source))
    } else {
        None
    }
}

/// Decoding the uppercase-encoded parts `i..`: the first refused part decides the error.
pub open spec fn parse_upper_from(parts: Seq<Seq<char>>, source: Seq<char>, i: int) -> Result<
    Seq<SegmentView>,
    Seq<char>,
>
    decreases parts.len() - i,
{
    if i >= parts.len() {
        Ok(Seq::<SegmentView>::empty())
    } else {
        match upper_part_error(parts[i], source) {
            Some(e) => Err(e),
            None => prepend(seq![upper_part_segment(parts[i])], parse_upper_from(parts, source, i + 1)),
        }
    }
}

/// The first non-empty piece at or after `i`, or `p.len()`.
pub open spec fn next_nonempty(p: Seq<Seq<char>>, i: int) -> int
    decreases p.len() - i,
{
    if i >= p.len() {
        p.len() as int
    } else if p[i].len() > 0 {
        i
    } else {
        next_nonempty(p, i + 1)
    }
}

pub proof fn lemma_next_nonempty(p: Seq<Seq<char>>, i: int)
    requires
        0 <= i,
    ensures
        i <= next_nonempty(p, i) <= p.len() || (i > p.len() && next_nonempty(p, i) == p.len()),
        next_nonempty(p, i) < p.len() ==> p[next_nonempty(p, i)].len() > 0,
        forall|k: int| i <= k < next_nonempty(p, i) ==> (#[trigger] p[k]).len() == 0,
    decreases p.len() - i,
{
    if i < p.len() && p[i].len() == 0 {
        lemma_next_nonempty(p, i + 1);
    }
}

/// Decoding doubled-hyphen pieces: `p[0]` is the next segment's text, of class `init`.
/// Between two texts, one separator starts a word and two start an initialism.
pub open spec fn parse_tokens(p: Seq<Seq<char>>, init: bool, source: Seq<char>) -> Result<
    Seq<SegmentView>,
    Seq<char>,
>
    decreases p.len(),
{
    if p.len() == 0 {
        Ok(Seq::<SegmentView>::empty())
    } else {
        let t = p[0];
        if t.len() == 0 {
            Err(canonical_error("empty segment"@, source))
        } else if init && !has_lower(t) {
            Err(canonical_error(digit_only_message(t), source))
        } else if p.len() == 1 {
            Ok(seq![SegmentView { initialism: init, text: t }])
        } else {
            let next = next_nonempty(p, 1);
            let run = if next < p.len() {
                next
            } else {
                p.len() - 1
            };
            if run >= 3 {
                Err(canonical_error("run of "@ + decimal(run as nat) + " separators"@, source))
            } else if next == p.len() {
                Err(canonical_error("trailing separator"@, source))
            } else {
                proof {
                    lemma_next_nonempty(p, 1);
                }
                prepend(
                    seq![SegmentView { initialism: init, text: t }],
                    parse_tokens(p.skip(next), run == 2, source),
                )
            }
        }
    }
}

pub open spec fn doubled_alphabet(s: Seq<char>) -> bool {
    forall|i: int| 0 <= i < s.len() ==> (is_lower_alnum(#[trigger] s[i]) || s[i] == '-')
}

/// Decoding the doubled-hyphen encoding.
pub open spec fn parse_doubled(s: Seq<char>) -> Result<Seq<SegmentView>, Seq<char>> {
    if !doubled_alphabet(s) {
        Err(canonical_error("invalid character"@, s))
    } else {
        let p = split(s, '-');
        if p.len() >= 3 && p[0].len() == 0 && p[1].len() == 0 {
            parse_tokens(p.skip(2), true, s)
        } else if p[0].len() == 0 {
            Err(canonical_error("leading separator"@, s))
        } else {
            parse_tokens(p, false, s)
        }
    }
}

/// What [`Name::from_canonical_string`] answers for `s`.
pub open spec fn parse_canonical(s: Seq<char>) -> Result<Seq<SegmentView>, Seq<char>> {
    if s.len() == 0 {
        Ok(Seq::<SegmentView>::empty())
    } else if has_pair(s, '-') && has_upper(s) {
        Err(mixed_encodings_message(s))
    } else if has_pair(s, '-') {
        parse_doubled(s)
    } else {
        parse_upper_from(split(s, '-'), s, 0)
    }
}

pub open spec fn result_view(r: Result<Name, String>) -> Result<Seq<SegmentView>, Seq<char>> {
    match r {
        Ok(n) => Ok(n@),
        Err(e) => Err(e@),
    }
}

/// `what` + ` in canonical name: ` + `source`.
fn canonical_error_exec(what: String, source: &str) -> (r: String)
    ensures
        r@ == canonical_error(what@, source@),
{
    let mut out = what;
    out.append(" in canonical name: ");
    out.append(source);
    out
}

/// `"` + `t` + `"`
pub fn quote(t: &[char]) -> (r: String)
    ensures
        r@ == quoted(t@),
{
    let mut v: Vec<char> = Vec::new();
    v.push('"');
    push_chars(&mut v, t);
    v.push('"');
    assert(v@ =~= quoted(t@));
    string_of(v.as_slice())
}

pub fn digit_only_message_exec(t: &[char]) -> (r: String)
    ensures
        r@ == digit_only_message(t@),
{
    let mut out = String::from_str("initialism ");
    let q = quote(t);
    out.append(q.as_str());
    out.append(" has no letter, so it cannot be distinguished from a word");
    out
}

pub fn doubled_alphabet_exec(s: &[char]) -> (r: bool)
    ensures
        r == doubled_alphabet(s@),
{
    let mut i: usize = 0;
    while i < s.len()
        invariant
            i <= s.len(),
            forall|j: int| 0 <= j < i ==> (is_lower_alnum(#[trigger] s@[j]) || s@[j] == '-'),
        decreases s.len() - i,
    {
        if !(ascii_is_lower(s[i]) || ascii_is_digit(s[i]) || s[i] == '-') {
            return false;
        }
        i = i + 1;
    }
    true
}

pub proof fn lemma_next_nonempty_skip(p: Seq<Seq<char>>, j: int, i: int)
    requires
        0 <= j <= p.len(),
        0 <= i,
    ensures
        next_nonempty(p.skip(j), i) == next_nonempty(p, i + j) - j,
    decreases p.len() - j - i,
{
    let q = p.skip(j);
    if i < q.len() && q[i].len() == 0 {
        lemma_next_nonempty_skip(p, j, i + 1);
    }
}

fn parse_uppercase(source: &str, cs: &[char]) -> (r: Result<Name, String>)
    requires
        cs@ == source@,
    ensures
        result_view(r) == parse_upper_from(split(source@, '-'), source@, 0),
{
    let parts = split_chars(cs, '-');
    let ghost p = split(source@, '-');
    let ghost whole = parse_upper_from(p, source@, 0);
    let mut segments: Vec<Segment> = Vec::new();
    let mut i: usize = 0;
    while i < parts.len()
        invariant
            i <= parts.len(),
            p == split(source@, '-'),
            parts@.len() == p.len(),
            forall|k: int| 0 <= k < parts@.len() ==> (#[trigger] parts@[k])@ == p[k],
            whole == parse_upper_from(p, source@, 0),
            whole == prepend(segment_views(segments@), parse_upper_from(p, source@, i as int)),
        decreases parts.len() - i,
    {
        let part = &parts[i];
        assert(part@ == p[i as int]);
        if part.len() == 0 {
            let e = canonical_error_exec(String::from_str("empty segment"), source);
            assert(upper_part_error(p[i as int], source@) == Some(e@));
            assert(parse_upper_from(p, source@, i as int) == Err::<Seq<SegmentView>, Seq<char>>(e@));
            return Err(e);
        }
        if !all_alnum_exec(part.as_slice()) {
            let e = canonical_error_exec(String::from_str("invalid character"), source);
            assert(upper_part_error(p[i as int], source@) == Some(e@));
            assert(parse_upper_from(p, source@, i as int) == Err::<Seq<SegmentView>, Seq<char>>(e@));
            return Err(e);
        }
        let up = has_upper_exec(part.as_slice());
        let low = has_lower_exec(part.as_slice());
        if up && low {
            let mut what = String::from_str("mixed-case segment ");
            let q = quote(part.as_slice());
            what.append(q.as_str());
            return Err(canonical_error_exec(what, source));
        }
        let seg = if up {
            let lowered = lower_chars(part.as_slice());
            Segment::from_view_chars(true, lowered.as_slice())
        } else {
            Segment::from_view_chars(false, part.as_slice())
        };
        assert(seg@ == upper_part_segment(p[i as int]));
        let ghost before = segments@;
        segments.push(seg);
        proof {
            lemma_segment_views_push(before, seg);
            let rest = parse_upper_from(p, source@, i as int + 1);
            match rest {
                Ok(x) => {
                    assert(segment_views(before) + (seq![seg@] + x) =~= segment_views(before).push(
                        seg@,
                    ) + x);
                },
                Err(e) => {},
            }
        }
        i = i + 1;
    }
    assert(segment_views(segments@) + Seq::<SegmentView>::empty() =~= segment_views(segments@));
    Ok(Name::from_segment_vec(segments))
}

fn parse_doubled_hyphen(source: &str, cs: &[char]) -> (r: Result<Name, String>)
    requires
        cs@ == source@,
        source@.len() > 0,
    ensures
        result_view(r) == parse_doubled(source@),
{
    if !doubled_alphabet_exec(cs) {
        return Err(canonical_error_exec(String::from_str("invalid character"), source));
    }
    let parts = split_chars(cs, '-');
    let ghost p = split(source@, '-');
    proof {
        lemma_split_len(source@, '-');
    }
    let mut j: usize;
    let mut init: bool;
    if parts.len() >= 3 && parts[0].len() == 0 && parts[1].len() == 0 {
        j = 2;
        init = true;
    } else if parts[0].len() == 0 {
        return Err(canonical_error_exec(String::from_str("leading separator"), source));
    } else {
        j = 0;
        init = false;
        assert(p.skip(0) =~= p);
    }
    let ghost whole = parse_doubled(source@);
    let mut segments: Vec<Segment> = Vec::new();
    assert(segment_views(segments@) =~= Seq::<SegmentView>::empty());
    assert(whole == prepend(segment_views(segments@), parse_tokens(p.skip(j as int), init, source@)));
    while j < parts.len()
        invariant
            j <= parts.len(),
            p == split(source@, '-'),
            parts@.len() == p.len(),
            forall|k: int| 0 <= k < parts@.len() ==> (#[trigger] parts@[k])@ == p[k],
            whole == parse_doubled(source@),
            whole == prepend(segment_views(segments@), parse_tokens(p.skip(j as int), init, source@)),
        decreases parts.len() - j,
    {
        let ghost q = p.skip(j as int);
        let t = &parts[j];
        assert(t@ == q[0]);
        if t.len() == 0 {
            return Err(canonical_error_exec(String::from_str("empty segment"), source));
        }
        if init && !has_lower_exec(t.as_slice()) {
            let what = digit_only_message_exec(t.as_slice());
            return Err(canonical_error_exec(what, source));
        }
        let seg = Segment::from_view_chars(init, t.as_slice());
        let ghost before = segments@;
        segments.push(seg);
        proof {
            lemma_segment_views_push(before, seg);
        }
        if j + 1 == parts.len() {
            proof {
                assert(q.len() == 1);
                assert(segment_views(before) + seq![seg@] =~= segment_views(segments@));
            }
            return Ok(Name::from_segment_vec(segments));
        }
        let mut k = j + 1;
        while k < parts.len() && parts[k].len() == 0
            invariant
                j + 1 <= k <= parts.len(),
                parts@.len() == p.len(),
                forall|m: int| 0 <= m < parts@.len() ==> (#[trigger] parts@[m])@ == p[m],
                next_nonempty(p, j as int + 1) == next_nonempty(p, k as int),
            decreases parts.len() - k,
        {
            assert(parts@[k as int]@ == p[k as int]);
            k = k + 1;
        }
        proof {
            if k < parts.len() {
                assert(parts@[k as int]@ == p[k as int]);
            }
            lemma_next_nonempty_skip(p, j as int, 1);
            lemma_next_nonempty(p, j as int + 1);
        }
        let run: usize = if k < parts.len() { k - j } else { parts.len() - 1 - j };
        if run >= 3 {
            let mut what = String::from_str("run of ");
            let digits = decimal_of(run as u64);
            let ds = string_of(digits.as_slice());
            what.append(ds.as_str());
            what.append(" separators");
            return Err(canonical_error_exec(what, source));
        }
        if k == parts.len() {
            return Err(canonical_error_exec(String::from_str("trailing separator"), source));
        }
        proof {
            assert(q.skip(k - j) =~= p.skip(k as int));
            let rest = parse_tokens(p.skip(k as int), run == 2, source@);
            match rest {
                Ok(x) => {
                    assert(segment_views(before) + (seq![seg@] + x) =~= segment_views(before).push(
                        seg@,
                    ) + x);
                },
                Err(e) => {},
            }
        }
        init = run == 2;
        j = k;
    }
    proof {
        assert(p.skip(j as int).len() == 0);
        assert(segment_views(segments@) + Seq::<SegmentView>::empty() =~= segment_views(segments@));
    }
    Ok(Name::from_segment_vec(segments))
}

impl Name {
    /// Parse a canonical name in either encoding.
    pub fn from_canonical_string(source: &str) -> (r: Result<Name, String>)
        ensures
            result_view(r) == parse_canonical(source@),
    {
        let cs = chars_of(source);
        if cs.len() == 0 {
            return Ok(Name::empty());
        }
        let has_doubled = contains_pair(cs.as_slice(), '-');
        let has_up = has_upper_exec(cs.as_slice());
        if has_doubled && has_up {
            let mut m = String::from_str(
                "canonical name mixes both encodings, uppercase and doubled separator: ",
            );
            m.append(source);
            return Err(m);
        }
        if has_doubled {
            parse_doubled_hyphen(source, cs.as_slice())
        } else {
            parse_uppercase(source, cs.as_slice())
        }
    }
}


// ---------------------------------------------------------------------------
// The canonical encodings decode back to the name they encode
// ---------------------------------------------------------------------------

pub open spec fn has_initialism(n: Seq<SegmentView>) -> bool {
    exists|k: int| 0 <= k < n.len() && (#[trigger] n[k]).initialism
}

/// The pieces the doubled-hyphen encoding splits into at `-`: a text per segment,
/// preceded by one empty piece for an initialism (two for a leading one).
pub open spec fn tokens_from(n: Seq<SegmentView>, i: int) -> Seq<Seq<char>>
    decreases n.len() - i,
{
    if i >= n.len() {
        Seq::<Seq<char>>::empty()
    } else {
        let lead = if n[i].initialism {
            if i == 0 {
                seq![Seq::<char>::empty(), Seq::<char>::empty()]
            } else {
                seq![Seq::<char>::empty()]
            }
        } else {
            Seq::<Seq<char>>::empty()
        };
        lead + seq![n[i].text] + tokens_from(n, i + 1)
    }
}

proof fn lemma_valid_segment_chars(sv: SegmentView)
    requires
        valid_segment(sv),
    ensures
        !sv.text.contains('-'),
        !upper_piece(sv).contains('-'),
        !stem_piece(sv).contains('-'),
        upper_part_error(upper_piece(sv), Seq::<char>::empty()) is None,
        forall|src: Seq<char>| upper_part_error(upper_piece(sv), src) is None,
        upper_part_segment(upper_piece(sv)) == sv,
        upper_piece(sv).len() > 0,
        !has_upper(sv.text),
{
    let t = sv.text;
    assert(!t.contains('-')) by {
        if t.contains('-') {
            let k = choose|k: int| 0 <= k < t.len() && t[k] == '-';
            assert(is_lower_alnum(t[k]));
        }
    }
    assert(!has_upper(t)) by {
        if has_upper(t) {
            let k = choose|k: int| 0 <= k < t.len() && is_upper(#[trigger] t[k]);
            assert(is_lower_alnum(t[k]));
        }
    }
    if sv.initialism {
        let u = upper_seq(t);
        assert(u.len() == t.len());
        assert forall|k: int| 0 <= k < u.len() implies is_alnum(#[trigger] u[k]) && !is_lower(u[k])
            && u[k] != '-' by {
            assert(is_lower_alnum(t[k]));
            crate::text::lemma_upper_class(t[k]);
        }
        let k = choose|k: int| 0 <= k < t.len() && is_lower(#[trigger] t[k]);
        crate::text::lemma_upper_class(t[k]);
        assert(is_upper(u[k]));
        assert(has_upper(u));
        assert(!has_lower(u));
        assert(!u.contains('-')) by {
            if u.contains('-') {
                let j = choose|j: int| 0 <= j < u.len() && u[j] == '-';
                assert(u[j] != '-');
            }
        }
        assert(lower_seq(u) =~= t) by {
            assert forall|j: int| 0 <= j < t.len() implies lower_seq(u)[j] == t[j] by {
                assert(is_lower_alnum(t[j]));
                crate::text::lemma_upper_class(t[j]);
                crate::text::lemma_upper_class(u[j]);
            }
        }
        let st = seq!['_'] + t;
        assert(!st.contains('-')) by {
            if st.contains('-') {
                let j = choose|j: int| 0 <= j < st.len() && st[j] == '-';
                if j > 0 {
                    assert(st[j] == t[j - 1]);
                    assert(t.contains(t[j - 1]));
                }
            }
        }
    } else {
        assert forall|k: int| 0 <= k < t.len() implies is_alnum(#[trigger] t[k]) by {
            assert(is_lower_alnum(t[k]));
        }
    }
}

proof fn lemma_parse_upper_pieces(n: Seq<SegmentView>, src: Seq<char>, i: int)
    requires
        valid_name(n),
        0 <= i <= n.len(),
    ensures
        parse_upper_from(n.map_values(|s: SegmentView| upper_piece(s)), src, i) == Ok::<
            Seq<SegmentView>,
            Seq<char>,
        >(n.skip(i)),
    decreases n.len() - i,
{
    let pieces = n.map_values(|s: SegmentView| upper_piece(s));
    if i == n.len() {
        assert(n.skip(i) =~= Seq::<SegmentView>::empty());
    } else {
        lemma_parse_upper_pieces(n, src, i + 1);
        lemma_valid_segment_chars(n[i]);
        assert(pieces[i] == upper_piece(n[i]));
        assert(seq![n[i]] + n.skip(i + 1) =~= n.skip(i));
    }
}

/// Decoding the uppercase encoding of a valid, non-empty name gives the name.
proof fn lemma_uppercase_roundtrip(n: Seq<SegmentView>)
    requires
        valid_name(n),
        n.len() > 0,
    ensures
        parse_canonical(canonical_uppercase(n)) == Ok::<Seq<SegmentView>, Seq<char>>(n),
        !has_pair(canonical_uppercase(n), '-'),
{
    let pieces = n.map_values(|s: SegmentView| upper_piece(s));
    let s = canonical_uppercase(n);
    assert forall|i: int| 0 <= i < pieces.len() implies (#[trigger] pieces[i]).len() > 0 && !pieces[i].contains('-') by {
        lemma_valid_segment_chars(n[i]);
    }
    crate::text::lemma_join_no_pair(pieces, '-');
    crate::text::lemma_split_join(pieces, '-');
    lemma_parse_upper_pieces(n, s, 0);
    assert(n.skip(0) =~= n);
}

proof fn lemma_join_text_tokens(n: Seq<SegmentView>, i: int)
    requires
        0 <= i < n.len(),
    ensures
        join(seq![n[i].text] + tokens_from(n, i + 1), seq!['-']) == n[i].text + doubled_from(
            n,
            i + 1,
        ),
    decreases n.len() - i,
{
    let t = n[i].text;
    let rest = tokens_from(n, i + 1);
    crate::text::lemma_join_cons(t, rest, seq!['-']);
    if i + 1 == n.len() {
        assert(rest.len() == 0);
        assert(t + doubled_from(n, i + 1) =~= t);
    } else {
        lemma_join_text_tokens(n, i + 1);
        let t2 = n[i + 1].text;
        let tail = seq![t2] + tokens_from(n, i + 2);
        if n[i + 1].initialism {
            assert(rest =~= seq![Seq::<char>::empty()] + tail);
            crate::text::lemma_join_cons(Seq::<char>::empty(), tail, seq!['-']);
            assert(join(rest, seq!['-']) == Seq::<char>::empty() + seq!['-'] + join(tail, seq!['-']));
            assert(t + seq!['-'] + join(rest, seq!['-']) =~= t + doubled_from(n, i + 1));
        } else {
            assert(rest =~= tail);
            assert(t + seq!['-'] + join(rest, seq!['-']) =~= t + doubled_from(n, i + 1));
        }
    }
}

#[verifier::spinoff_prover]
#[verifier::rlimit(40)]
proof fn lemma_doubled_is_joined_tokens(n: Seq<SegmentView>)
    requires
        n.len() > 0,
    ensures
        canonical_doubled(n) == join(tokens_from(n, 0), seq!['-']),
        n[0].initialism ==> tokens_from(n, 0) == seq![Seq::<char>::empty(), Seq::<char>::empty()]
            + (seq![n[0].text] + tokens_from(n, 1)),
        !n[0].initialism ==> tokens_from(n, 0) == seq![n[0].text] + tokens_from(n, 1),
{
    lemma_join_text_tokens(n, 0);
    let tail = seq![n[0].text] + tokens_from(n, 1);
    if n[0].initialism {
        assert(tokens_from(n, 0) =~= seq![Seq::<char>::empty()] + (seq![Seq::<char>::empty()]
            + tail));
        crate::text::lemma_join_cons(Seq::<char>::empty(), seq![Seq::<char>::empty()] + tail, seq!['-']);
        crate::text::lemma_join_cons(Seq::<char>::empty(), tail, seq!['-']);
        assert(join(tokens_from(n, 0), seq!['-']) =~= canonical_doubled(n));
        assert(tokens_from(n, 0) =~= seq![Seq::<char>::empty(), Seq::<char>::empty()] + tail);
    } else {
        assert(tokens_from(n, 0) =~= tail);
        assert(canonical_doubled(n) =~= n[0].text + doubled_from(n, 1));
    }
}

proof fn lemma_tokens_plain(n: Seq<SegmentView>, i: int)
    requires
        valid_name(n),
        0 <= i,
    ensures
        forall|k: int| 0 <= k < tokens_from(n, i).len() ==> !(#[trigger] tokens_from(n, i)[k]).contains('-'),
    decreases n.len() - i,
{
    if i < n.len() {
        lemma_tokens_plain(n, i + 1);
        lemma_valid_segment_chars(n[i]);
        let lead = if n[i].initialism {
            if i == 0 {
                seq![Seq::<char>::empty(), Seq::<char>::empty()]
            } else {
                seq![Seq::<char>::empty()]
            }
        } else {
            Seq::<Seq<char>>::empty()
        };
        let all = lead + seq![n[i].text] + tokens_from(n, i + 1);
        assert(tokens_from(n, i) == all);
        assert forall|k: int| 0 <= k < all.len() implies !(#[trigger] all[k]).contains('-') by {
            if k < lead.len() {
                assert(all[k] == lead[k]);
                assert(lead[k] =~= Seq::<char>::empty());
            } else if k == lead.len() {
                assert(all[k] == n[i].text);
            } else {
                assert(all[k] == tokens_from(n, i + 1)[k - lead.len() - 1]);
            }
        }
    }
}

proof fn lemma_parse_tokens_roundtrip(n: Seq<SegmentView>, i: int, src: Seq<char>)
    requires
        valid_name(n),
        0 <= i < n.len(),
    ensures
        parse_tokens(seq![n[i].text] + tokens_from(n, i + 1), n[i].initialism, src) == Ok::<
            Seq<SegmentView>,
            Seq<char>,
        >(n.skip(i)),
    decreases n.len() - i,
{
    let p = seq![n[i].text] + tokens_from(n, i + 1);
    let sv = n[i];
    assert(valid_segment(sv));
    assert(p[0] == sv.text);
    assert(SegmentView { initialism: sv.initialism, text: sv.text } == sv);
    if i + 1 == n.len() {
        assert(p =~= seq![sv.text]);
        assert(n.skip(i) =~= seq![sv]);
    } else {
        lemma_parse_tokens_roundtrip(n, i + 1, src);
        let tail = seq![n[i + 1].text] + tokens_from(n, i + 2);
        assert(valid_segment(n[i + 1]));
        if n[i + 1].initialism {
            assert(p =~= seq![sv.text, Seq::<char>::empty()] + tail);
            assert(p[1].len() == 0);
            assert(p[2] == n[i + 1].text);
            assert(next_nonempty(p, 3) == next_nonempty(p, 3));
            assert(next_nonempty(p, 2) == 2);
            assert(next_nonempty(p, 1) == 2);
            assert(p.skip(2) =~= tail);
        } else {
            assert(p =~= seq![sv.text] + tail);
            assert(p[1] == n[i + 1].text);
            assert(next_nonempty(p, 1) == 1);
            assert(p.skip(1) =~= tail);
        }
        assert(seq![sv] + n.skip(i + 1) =~= n.skip(i));
    }
}

proof fn lemma_doubled_alphabet(n: Seq<SegmentView>, i: int)
    requires
        valid_name(n),
        0 <= i,
    ensures
        doubled_alphabet(doubled_from(n, i)),
    decreases n.len() - i,
{
    if i < n.len() {
        lemma_doubled_alphabet(n, i + 1);
        let d = doubled_from(n, i);
        let a = doubled_sep(i, n[i]);
        let t = n[i].text;
        let r = doubled_from(n, i + 1);
        assert(d == a + t + r);
        assert(valid_segment(n[i]));
        assert forall|k: int| 0 <= k < d.len() implies (is_lower_alnum(#[trigger] d[k]) || d[k] == '-') by {
            if k < a.len() {
                assert(d[k] == a[k]);
            } else if k < a.len() + t.len() {
                assert(d[k] == t[k - a.len()]);
            } else {
                assert(d[k] == r[k - a.len() - t.len()]);
            }
        }
    }
}

/// `doubled_from(n, 0)` ends with `doubled_from(n, k)`.
proof fn lemma_doubled_suffix(n: Seq<SegmentView>, k: int)
    requires
        0 <= k <= n.len(),
    ensures
        doubled_from(n, 0).len() >= doubled_from(n, k).len(),
        doubled_from(n, 0).subrange(
            doubled_from(n, 0).len() - doubled_from(n, k).len(),
            doubled_from(n, 0).len() as int,
        ) == doubled_from(n, k),
    decreases k,
{
    if k == 0 {
        assert(doubled_from(n, 0).subrange(0, doubled_from(n, 0).len() as int) =~= doubled_from(n, 0));
    } else {
        lemma_doubled_suffix(n, k - 1);
        let a = doubled_from(n, 0);
        let b = doubled_from(n, k - 1);
        let c = doubled_from(n, k);
        assert(b == doubled_sep(k - 1, n[k - 1]) + n[k - 1].text + c);
        assert(a.subrange(a.len() - c.len(), a.len() as int) =~= b.subrange(b.len() - c.len(), b.len() as int));
        assert(b.subrange(b.len() - c.len(), b.len() as int) =~= c);
    }
}

proof fn lemma_doubled_has_pair(n: Seq<SegmentView>, k: int)
    requires
        0 <= k < n.len(),
        n[k].initialism,
    ensures
        has_pair(canonical_doubled(n), '-'),
{
    lemma_doubled_suffix(n, k);
    let a = doubled_from(n, 0);
    let c = doubled_from(n, k);
    let off = a.len() - c.len();
    assert(c[0] == '-' && c[1] == '-');
    assert(a[off] == a.subrange(off, a.len() as int)[0]);
    assert(a[off + 1] == a.subrange(off, a.len() as int)[1]);
}

/// Decoding the doubled-hyphen encoding of a valid, non-empty name gives the name.
proof fn lemma_doubled_roundtrip(n: Seq<SegmentView>)
    requires
        valid_name(n),
        n.len() > 0,
    ensures
        parse_canonical(canonical_doubled(n)) == Ok::<Seq<SegmentView>, Seq<char>>(n),
{
    let s = canonical_doubled(n);
    let toks = tokens_from(n, 0);
    lemma_doubled_is_joined_tokens(n);
    lemma_tokens_plain(n, 0);
    if has_initialism(n) {
        let k = choose|k: int| 0 <= k < n.len() && (#[trigger] n[k]).initialism;
        lemma_doubled_has_pair(n, k);
        lemma_doubled_alphabet(n, 0);
        assert(!has_upper(s)) by {
            if has_upper(s) {
                let j = choose|j: int| 0 <= j < s.len() && is_upper(#[trigger] s[j]);
                assert(is_lower_alnum(s[j]) || s[j] == '-');
            }
        }
        assert(toks.len() >= 1);
        crate::text::lemma_split_join(toks, '-');
        assert(split(s, '-') == toks);
        lemma_parse_tokens_roundtrip(n, 0, s);
        assert(n.skip(0) =~= n);
        if n[0].initialism {
            assert(toks.len() >= 3);
            assert(toks[0] =~= Seq::<char>::empty());
            assert(toks[1] =~= Seq::<char>::empty());
            assert(toks.skip(2) =~= seq![n[0].text] + tokens_from(n, 1));
        } else {
            assert(valid_segment(n[0]));
            assert(toks[0] == n[0].text);
        }
        assert(s.len() > 0);
    } else {
        lemma_tokens_no_initialism(n, 0);
        assert(toks =~= n.map_values(|sv: SegmentView| upper_piece(sv)));
        lemma_uppercase_roundtrip(n);
    }
}

proof fn lemma_tokens_no_initialism(n: Seq<SegmentView>, i: int)
    requires
        !has_initialism(n),
        0 <= i <= n.len(),
    ensures
        tokens_from(n, i) == n.map_values(|sv: SegmentView| upper_piece(sv)).skip(i),
    decreases n.len() - i,
{
    let pieces = n.map_values(|sv: SegmentView| upper_piece(sv));
    if i == n.len() {
        assert(pieces.skip(i) =~= Seq::<Seq<char>>::empty());
    } else {
        lemma_tokens_no_initialism(n, i + 1);
        assert(!n[i].initialism);
        assert(seq![pieces[i]] + pieces.skip(i + 1) =~= pieces.skip(i));
        assert(tokens_from(n, i) =~= Seq::<Seq<char>>::empty() + seq![n[i].text] + tokens_from(n, i + 1));
    }
}

/// Both canonical encodings decode back to the name they encode: for every valid
/// name and either style, `from_canonical_string(to_canonical_string_in(n, style))`
/// is `Ok(n)`.
pub proof fn lemma_canonical_roundtrip(n: Seq<SegmentView>, style: NameStyle)
    requires
        valid_name(n),
    ensures
        parse_canonical(canonical_in(n, style)) == Ok::<Seq<SegmentView>, Seq<char>>(n),
{
    if n.len() == 0 {
        assert(canonical_uppercase(n) =~= Seq::<char>::empty());
        assert(canonical_doubled(n) =~= Seq::<char>::empty());
        assert(n =~= Seq::<SegmentView>::empty());
    } else {
        match style {
            NameStyle::Uppercase => lemma_uppercase_roundtrip(n),
            NameStyle::DoubledHyphen => lemma_doubled_roundtrip(n),
        }
    }
}


// ---------------------------------------------------------------------------
// Decoding a file stem
// ---------------------------------------------------------------------------

pub open spec fn stem_error(what: Seq<char>, stem: Seq<char>) -> Seq<char> {
    what + " in file stem: "@ + stem
}

/// The segment a file-stem part names: a `_` prefix marks an initialism.
pub open spec fn stem_part_segment(part: Seq<char>) -> SegmentView {
    if part.len() > 0 && part[0] == '_' {
        initialism(part.drop_first())
    } else {
        word(part)
    }
}

pub open spec fn parse_stem_from(parts: Seq<Seq<char>>, stem: Seq<char>, i: int) -> Result<
    Seq<SegmentView>,
    Seq<char>,
>
    decreases parts.len() - i,
{
    if i >= parts.len() {
        Ok(Seq::<SegmentView>::empty())
    } else {
        let seg = stem_part_segment(parts[i]);
        if seg.text.len() == 0 {
            Err(stem_error("empty segment"@, stem))
        } else if !all_lower_alnum(seg.text) {
            Err(stem_error("invalid character"@, stem))
        } else if seg.initialism && !has_lower(seg.text) {
            Err(stem_error(digit_only_message(seg.text), stem))
        } else {
            prepend(seq![seg], parse_stem_from(parts, stem, i + 1))
        }
    }
}

/// `stem` without one trailing `_`.
pub open spec fn strip_device_escape(stem: Seq<char>) -> Seq<char> {
    if stem.len() > 0 && stem.last() == '_' {
        stem.drop_last()
    } else {
        stem
    }
}

/// What [`Name::from_file_stem`] answers for `stem`.
pub open spec fn parse_file_stem(stem: Seq<char>) -> Result<Seq<SegmentView>, Seq<char>> {
    if stem.len() == 0 {
        Ok(Seq::<SegmentView>::empty())
    } else {
        let st = strip_device_escape(stem);
        parse_stem_from(split(st, '-'), st, 0)
    }
}

fn stem_error_exec(what: String, stem: &[char]) -> (r: String)
    ensures
        r@ == stem_error(what@, stem@),
{
    let mut out = what;
    out.append(" in file stem: ");
    let st = string_of(stem);
    out.append(st.as_str());
    out
}

/// The first segment `from_segments` refuses, if any.
pub open spec fn first_invalid(n: Seq<SegmentView>, i: int) -> Option<(int, SegmentErrorKind)>
    decreases n.len() - i,
{
    if i >= n.len() {
        None
    } else {
        match segment_check(n[i]) {
            Some(k) => Some((i, k)),
            None => first_invalid(n, i + 1),
        }
    }
}

// ---------------------------------------------------------------------------
// Collapsing legacy words
// ---------------------------------------------------------------------------

/// What `str::to_lowercase` returns for a string.
pub uninterp spec fn unicode_lowercase(s: Seq<char>) -> Seq<char>;

/// Whether every character of `s` is ASCII.
pub open spec fn is_ascii_text(s: Seq<char>) -> bool {
    forall|i: int| 0 <= i < s.len() ==> ((#[trigger] s[i]) as u32) < 128
}

/// Whether every word is ASCII text.
pub open spec fn ascii_words(ws: Seq<Seq<char>>) -> bool {
    forall|i: int| 0 <= i < ws.len() ==> is_ascii_text(#[trigger] ws[i])
}

/// The words with `A`-`Z` mapped to `a`-`z`.
pub open spec fn ascii_lowered(ws: Seq<Seq<char>>) -> Seq<Seq<char>> {
    ws.map_values(|w: Seq<char>| lower_seq(w))
}

/// `str::to_lowercase`: the Unicode lowercase mapping of `s`. Its result is the
/// named `unicode_lowercase` of the text. On ASCII text the mapping takes `A`-`Z` to
/// `a`-`z` and keeps every other character; the Unicode tables for the other characters
/// are not restated.
#[verifier::external_body]
pub(crate) fn to_lowercase(s: &str) -> (r: String)
    ensures
        r@ == unicode_lowercase(s@),
        is_ascii_text(s@) ==> r@ == lower_seq(s@),
{
    s.to_lowercase()
}

/// A word of exactly one ASCII lowercase letter.
pub open spec fn single_letter(w: Seq<char>) -> bool {
    w.len() == 1 && is_lower(w[0])
}

/// The segments `segs` with the pending run of single letters appended: a run of one
/// stays a word, a longer run becomes one initialism.
pub open spec fn flush_run(segs: Seq<SegmentView>, run: Seq<Seq<char>>) -> Seq<SegmentView> {
    if run.len() == 0 {
        segs
    } else if run.len() == 1 {
        segs.push(word(run[0]))
    } else {
        segs.push(initialism(join(run, Seq::<char>::empty())))
    }
}

/// Segments so far and the pending run of single letters after reading `ws`.
pub open spec fn fold_words(ws: Seq<Seq<char>>) -> (Seq<SegmentView>, Seq<Seq<char>>)
    decreases ws.len(),
{
    if ws.len() == 0 {
        (Seq::<SegmentView>::empty(), Seq::<Seq<char>>::empty())
    } else {
        let (segs, run) = fold_words(ws.drop_last());
        let w = ws.last();
        if single_letter(w) {
            (segs, run.push(w))
        } else {
            (flush_run(segs, run).push(word(w)), Seq::<Seq<char>>::empty())
        }
    }
}

/// The name legacy (already lowercased) words collapse to.
pub open spec fn collapse_words(ws: Seq<Seq<char>>) -> Seq<SegmentView> {
    flush_run(fold_words(ws).0, fold_words(ws).1)
}

pub open spec fn lowered_words(ws: Seq<Seq<char>>) -> Seq<Seq<char>> {
    ws.map_values(|w: Seq<char>| unicode_lowercase(w))
}

// ---------------------------------------------------------------------------
// Permissive parsing
// ---------------------------------------------------------------------------

/// The separators the permissive parser splits on.
pub open spec fn name_separators() -> Seq<char> {
    seq!['_', '-', '/', '.', ':', ' ']
}

/// The first index at or after `i` that holds no capital letter.
pub open spec fn upper_run_end(cs: Seq<char>, i: int) -> int
    decreases cs.len() - i,
{
    if i < cs.len() && is_upper(cs[i]) {
        upper_run_end(cs, i + 1)
    } else {
        i
    }
}

pub proof fn lemma_upper_run_end(cs: Seq<char>, i: int)
    requires
        0 <= i <= cs.len(),
    ensures
        i <= upper_run_end(cs, i) <= cs.len(),
        i < cs.len() && is_upper(cs[i]) ==> upper_run_end(cs, i) > i,
        forall|k: int| i <= k < upper_run_end(cs, i) ==> is_upper(#[trigger] cs[k]),
    decreases cs.len() - i,
{
    if i < cs.len() && is_upper(cs[i]) {
        lemma_upper_run_end(cs, i + 1);
    }
}

pub open spec fn flush_buffer(segs: Seq<SegmentView>, buf: Seq<char>) -> Seq<SegmentView> {
    if buf.len() > 0 {
        segs.push(word(buf))
    } else {
        segs
    }
}

/// Splitting one `camelCase` or `PascalCase` chunk from `index`, with the segments and
/// the word buffer collected so far. A run of two or more capitals is an initialism,
/// ending one letter early when a lowercase letter follows; one capital starts a word.
pub open spec fn camel_split_from(
    cs: Seq<char>,
    index: int,
    segs: Seq<SegmentView>,
    buf: Seq<char>,
) -> Seq<SegmentView>
    decreases cs.len() - index,
{
    if index < 0 || index >= cs.len() {
        flush_buffer(segs, buf)
    } else if is_upper(cs[index]) {
        let start = index;
        let e0 = upper_run_end(cs, index);
        let end = if e0 - start >= 2 && e0 < cs.len() && is_lower(cs[e0]) {
            e0 - 1
        } else {
            e0
        };
        proof {
            lemma_upper_run_end(cs, index);
        }
        if end - start == 1 {
            camel_split_from(cs, end, flush_buffer(segs, buf), seq![to_lower(cs[start])])
        } else {
            camel_split_from(
                cs,
                end,
                flush_buffer(segs, buf).push(initialism(lower_seq(cs.subrange(start, end)))),
                Seq::<char>::empty(),
            )
        }
    } else {
        camel_split_from(cs, index + 1, segs, buf.push(to_lower(cs[index])))
    }
}

pub open spec fn camel_split(chunk: Seq<char>) -> Seq<SegmentView> {
    camel_split_from(chunk, 0, Seq::<SegmentView>::empty(), Seq::<char>::empty())
}

/// Letters that are not capitals only join the word being collected, lowercased.
proof fn lemma_camel_no_capitals(cs: Seq<char>, i: int, j: int, segs: Seq<SegmentView>, buf: Seq<char>)
    requires
        0 <= i <= j <= cs.len(),
        forall|k: int| i <= k < j ==> !is_upper(#[trigger] cs[k]),
    ensures
        camel_split_from(cs, i, segs, buf) == camel_split_from(cs, j, segs, buf + lower_seq(cs.subrange(i, j))),
    decreases j - i,
{
    if i < j {
        lemma_camel_no_capitals(cs, i + 1, j, segs, buf.push(to_lower(cs[i])));
        assert(buf.push(to_lower(cs[i])) + lower_seq(cs.subrange(i + 1, j)) =~= buf + lower_seq(cs.subrange(i, j)));
    } else {
        assert(buf + lower_seq(cs.subrange(i, j)) =~= buf);
    }
}

/// Where a run of capitals from `i` ends, when the capitals run up to `end` and a letter
/// that is not a capital, or the end of the text, comes next.
proof fn lemma_upper_run_to(cs: Seq<char>, i: int, end: int)
    requires
        0 <= i <= end <= cs.len(),
        forall|k: int| i <= k < end ==> is_upper(#[trigger] cs[k]),
        end < cs.len() ==> !is_upper(cs[end]),
    ensures
        upper_run_end(cs, i) == end,
    decreases end - i,
{
    if i < end {
        lemma_upper_run_to(cs, i + 1, end);
    }
}

/// Splitting lowercase letters `p`, one capital `c` and lowercase letters `l`: `p` is one
/// word and the capital begins the next, which the letters `l` end.
pub proof fn lemma_camel_capital_starts_a_word(p: Seq<char>, c: char, l: Seq<char>)
    requires
        forall|k: int| 0 <= k < p.len() ==> is_lower(#[trigger] p[k]),
        is_upper(c),
        forall|k: int| 0 <= k < l.len() ==> is_lower(#[trigger] l[k]),
    ensures
        camel_split(p + seq![c] + l) == (if p.len() > 0 {
            seq![word(p)]
        } else {
            Seq::<SegmentView>::empty()
        }) + seq![word(seq![to_lower(c)] + l)],
{
    let cs = p + seq![c] + l;
    let a = p.len() as int;
    let b = a + 1;
    let n = cs.len() as int;
    assert forall|k: int| 0 <= k < a implies !is_upper(#[trigger] cs[k]) by {
        assert(cs[k] == p[k]);
    }
    assert forall|k: int| b <= k < n implies !is_upper(#[trigger] cs[k]) by {
        assert(cs[k] == l[k - b]);
    }
    assert(cs[a] == c);
    assert(lower_seq(cs.subrange(0, a)) =~= p) by {
        assert forall|k: int| 0 <= k < a implies lower_seq(cs.subrange(0, a))[k] == p[k] by {
            assert(cs[k] == p[k]);
        }
    }
    assert(lower_seq(cs.subrange(b, n)) =~= l) by {
        assert forall|k: int| 0 <= k < n - b implies lower_seq(cs.subrange(b, n))[k] == l[k] by {
            assert(cs[b + k] == l[k]);
        }
    }
    let e = Seq::<SegmentView>::empty();
    let lead = flush_buffer(e, p);
    assert(Seq::<char>::empty() + lower_seq(cs.subrange(0, a)) =~= p);
    lemma_camel_no_capitals(cs, 0, a, e, Seq::<char>::empty());
    lemma_upper_run_to(cs, a, b);
    let last = seq![to_lower(c)] + l;
    assert(camel_split_from(cs, a, e, p) == camel_split_from(cs, b, lead, seq![to_lower(cs[a])]));
    lemma_camel_no_capitals(cs, b, n, lead, seq![to_lower(cs[a])]);
    assert(seq![to_lower(cs[a])] + lower_seq(cs.subrange(b, n)) =~= last);
    assert(camel_split_from(cs, n, lead, last) == lead.push(word(last)));
    assert(lead.push(word(last)) =~= lead + seq![word(last)]);
}

/// Splitting lowercase letters `p`, a run `u` of two or more capitals and lowercase
/// letters `l`: `p` is one word, the run's last capital begins the word that `l` ends, and
/// the capitals before it are one initialism, or one word when there is only one of them.
/// So `parseHTMLDocument` splits into `parse`, initialism `html` and `document`.
pub proof fn lemma_camel_initialism_stops_before_a_word(p: Seq<char>, u: Seq<char>, l: Seq<char>)
    requires
        forall|k: int| 0 <= k < p.len() ==> is_lower(#[trigger] p[k]),
        u.len() >= 2,
        forall|k: int| 0 <= k < u.len() ==> is_upper(#[trigger] u[k]),
        l.len() >= 1,
        forall|k: int| 0 <= k < l.len() ==> is_lower(#[trigger] l[k]),
    ensures
        camel_split(p + u + l) == (if p.len() > 0 {
            seq![word(p)]
        } else {
            Seq::<SegmentView>::empty()
        }) + (if u.len() == 2 {
            seq![word(seq![to_lower(u[0])])]
        } else {
            seq![initialism(lower_seq(u.drop_last()))]
        }) + seq![word(seq![to_lower(u.last())] + l)],
{
    let cs = p + u + l;
    let a = p.len() as int;
    let b = a + u.len();
    let n = cs.len() as int;
    assert forall|k: int| 0 <= k < a implies !is_upper(#[trigger] cs[k]) by {
        assert(cs[k] == p[k]);
    }
    assert forall|k: int| a <= k < b implies is_upper(#[trigger] cs[k]) by {
        assert(cs[k] == u[k - a]);
    }
    assert forall|k: int| b <= k < n implies !is_upper(#[trigger] cs[k]) && is_lower(cs[k]) by {
        assert(cs[k] == l[k - b]);
    }
    assert(lower_seq(cs.subrange(0, a)) =~= p) by {
        assert forall|k: int| 0 <= k < a implies lower_seq(cs.subrange(0, a))[k] == p[k] by {
            assert(cs[k] == p[k]);
        }
    }
    assert(lower_seq(cs.subrange(b, n)) =~= l) by {
        assert forall|k: int| 0 <= k < n - b implies lower_seq(cs.subrange(b, n))[k] == l[k] by {
            assert(cs[b + k] == l[k]);
        }
    }
    let e = Seq::<SegmentView>::empty();
    let lead = flush_buffer(e, p);
    assert(lead == (if p.len() > 0 {
        seq![word(p)]
    } else {
        Seq::<SegmentView>::empty()
    }));
    assert(Seq::<char>::empty() + lower_seq(cs.subrange(0, a)) =~= p);
    lemma_camel_no_capitals(cs, 0, a, e, Seq::<char>::empty());
    assert(camel_split(cs) == camel_split_from(cs, a, e, p));
    lemma_upper_run_to(cs, a, b);
    lemma_upper_run_to(cs, b - 1, b);
    assert(cs[b] == l[0]);
    assert(is_lower(cs[b]));
    assert(cs[b - 1] == u.last());
    let last = seq![to_lower(u.last())] + l;
    if u.len() == 2 {
        assert(cs[a] == u[0]);
        let s1 = flush_buffer(lead, seq![to_lower(u[0])]);
        assert(camel_split_from(cs, a, e, p) == camel_split_from(cs, a + 1, lead, seq![to_lower(cs[a])]));
        assert(camel_split_from(cs, a + 1, lead, seq![to_lower(cs[a])]) == camel_split_from(cs, b, s1, seq![to_lower(cs[b - 1])]));
        lemma_camel_no_capitals(cs, b, n, s1, seq![to_lower(cs[b - 1])]);
        assert(seq![to_lower(cs[b - 1])] + lower_seq(cs.subrange(b, n)) =~= last);
        assert(camel_split_from(cs, n, s1, last) == s1.push(word(last)));
        assert(s1 == lead + seq![word(seq![to_lower(u[0])])]);
        assert(s1.push(word(last)) =~= lead + seq![word(seq![to_lower(u[0])])] + seq![word(last)]);
    } else {
        assert(cs.subrange(a, b - 1) =~= u.drop_last()) by {
            assert forall|k: int| 0 <= k < u.len() - 1 implies cs.subrange(a, b - 1)[k] == u.drop_last()[k] by {
                assert(cs[a + k] == u[k]);
            }
        }
        let segs = lead.push(initialism(lower_seq(u.drop_last())));
        assert(camel_split_from(cs, a, e, p) == camel_split_from(cs, b - 1, segs, Seq::<char>::empty()));
        assert(flush_buffer(segs, Seq::<char>::empty()) == segs);
        assert(camel_split_from(cs, b - 1, segs, Seq::<char>::empty()) == camel_split_from(cs, b, segs, seq![to_lower(cs[b - 1])]));
        lemma_camel_no_capitals(cs, b, n, segs, seq![to_lower(cs[b - 1])]);
        assert(seq![to_lower(cs[b - 1])] + lower_seq(cs.subrange(b, n)) =~= last);
        assert(camel_split_from(cs, n, segs, last) == segs.push(word(last)));
        assert(segs.push(word(last)) =~= lead + seq![initialism(lower_seq(u.drop_last()))] + seq![word(last)]);
    }
}

/// The segments of chunks `i..`, skipping empty chunks.
pub open spec fn chunks_segments(chunks: Seq<Seq<char>>, i: int) -> Seq<SegmentView>
    decreases chunks.len() - i,
{
    if i >= chunks.len() {
        Seq::<SegmentView>::empty()
    } else if chunks[i].len() == 0 {
        chunks_segments(chunks, i + 1)
    } else {
        camel_split(chunks[i]) + chunks_segments(chunks, i + 1)
    }
}

/// What [`Name::from`] answers for `s`: a canonical name if `s` is one, else the
/// segments of its `_ - / . : space`-separated chunks, each split at case changes.
pub open spec fn permissive_name(s: Seq<char>) -> Seq<SegmentView> {
    if s.len() == 0 {
        Seq::<SegmentView>::empty()
    } else {
        match parse_canonical(s) {
            Ok(n) => n,
            Err(_) => chunks_segments(split_any(s, name_separators()), 0),
        }
    }
}

fn split_camel_case(cs: &[char]) -> (r: Vec<Segment>)
    ensures
        segment_views(r@) == camel_split(cs@),
{
    let mut segments: Vec<Segment> = Vec::new();
    let mut buffer: Vec<char> = Vec::new();
    let mut index: usize = 0;
    let ghost total = camel_split(cs@);
    assert(segment_views(segments@) =~= Seq::<SegmentView>::empty());
    while index < cs.len()
        invariant
            index <= cs.len(),
            total == camel_split(cs@),
            total == camel_split_from(cs@, index as int, segment_views(segments@), buffer@),
        decreases cs.len() - index,
    {
        if ascii_is_upper(cs[index]) {
            let start = index;
            let mut e = index;
            while e < cs.len() && ascii_is_upper(cs[e])
                invariant
                    start <= e <= cs.len(),
                    upper_run_end(cs@, start as int) == upper_run_end(cs@, e as int),
                decreases cs.len() - e,
            {
                e = e + 1;
            }
            proof {
                lemma_upper_run_end(cs@, start as int);
            }
            let mut end = e;
            if e - start >= 2 && e < cs.len() && ascii_is_lower(cs[e]) {
                end = e - 1;
            }
            let ghost before_raw = segments@;
            let ghost before = segment_views(segments@);
            if buffer.len() > 0 {
                let seg = Segment::from_view_chars(false, buffer.as_slice());
                segments.push(seg);
                proof {
                    lemma_segment_views_push(before_raw, seg);
                }
            }
            assert(segment_views(segments@) == flush_buffer(before, buffer@));
            if end - start == 1 {
                buffer = Vec::new();
                buffer.push(ascii_lower(cs[start]));
                assert(buffer@ =~= seq![to_lower(cs@[start as int])]);
            } else {
                let run = subrange(cs, start, end);
                let lowered = lower_chars(run.as_slice());
                let seg = Segment::from_view_chars(true, lowered.as_slice());
                let ghost mid = segments@;
                segments.push(seg);
                proof {
                    lemma_segment_views_push(mid, seg);
                }
                buffer = Vec::new();
                assert(buffer@ =~= Seq::<char>::empty());
            }
            index = end;
        } else {
            buffer.push(ascii_lower(cs[index]));
            index = index + 1;
        }
    }
    if buffer.len() > 0 {
        let ghost before_raw = segments@;
            let ghost before = segment_views(segments@);
        let seg = Segment::from_view_chars(false, buffer.as_slice());
        segments.push(seg);
        proof {
            lemma_segment_views_push(before_raw, seg);
        }
    }
    segments
}

impl Name {
    /// Recover a name from a filename stem produced by [`Name::to_file_stem`].
    pub fn from_file_stem(stem: &str) -> (r: Result<Name, String>)
        ensures
            result_view(r) == parse_file_stem(stem@),
    {
        let raw = chars_of(stem);
        if raw.len() == 0 {
            return Ok(Name::empty());
        }
        let st = if raw[raw.len() - 1] == '_' {
            subrange(raw.as_slice(), 0, raw.len() - 1)
        } else {
            raw
        };
        assert(st@ == strip_device_escape(stem@));
        let parts = split_chars(st.as_slice(), '-');
        let ghost p = split(st@, '-');
        let ghost whole = parse_file_stem(stem@);
        let mut segments: Vec<Segment> = Vec::new();
        assert(segment_views(segments@) =~= Seq::<SegmentView>::empty());
        let mut i: usize = 0;
        while i < parts.len()
            invariant
                i <= parts.len(),
                p == split(st@, '-'),
                st@ == strip_device_escape(stem@),
                stem@.len() > 0,
                parts@.len() == p.len(),
                forall|k: int| 0 <= k < parts@.len() ==> (#[trigger] parts@[k])@ == p[k],
                whole == parse_file_stem(stem@),
                whole == prepend(segment_views(segments@), parse_stem_from(p, st@, i as int)),
            decreases parts.len() - i,
        {
            let part = &parts[i];
            assert(part@ == p[i as int]);
            let init = part.len() > 0 && part[0] == '_';
            let text = if init {
                subrange(part.as_slice(), 1, part.len())
            } else {
                subrange(part.as_slice(), 0, part.len())
            };
            assert(part@.subrange(0, part@.len() as int) =~= part@);
            assert(part@.len() > 0 ==> part@.subrange(1, part@.len() as int) =~= part@.drop_first());
            assert(SegmentView { initialism: init, text: text@ } == stem_part_segment(p[i as int]));
            if text.len() == 0 {
                return Err(stem_error_exec(String::from_str("empty segment"), st.as_slice()));
            }
            if !all_lower_alnum_exec(text.as_slice()) {
                return Err(stem_error_exec(String::from_str("invalid character"), st.as_slice()));
            }
            if init && !has_lower_exec(text.as_slice()) {
                let what = digit_only_message_exec(text.as_slice());
                return Err(stem_error_exec(what, st.as_slice()));
            }
            let seg = Segment::from_view_chars(init, text.as_slice());
            let ghost before = segments@;
            segments.push(seg);
            proof {
                lemma_segment_views_push(before, seg);
                let rest = parse_stem_from(p, st@, i as int + 1);
                match rest {
                    Ok(x) => {
                        assert(segment_views(before) + (seq![seg@] + x) =~= segment_views(
                            before,
                        ).push(seg@) + x);
                    },
                    Err(e) => {},
                }
            }
            i = i + 1;
        }
        assert(segment_views(segments@) + Seq::<SegmentView>::empty() =~= segment_views(
            segments@,
        ));
        Ok(Name::from_segment_vec(segments))
    }

    /// Build a name from segments, checking each one.
    pub fn from_segments(segments: Vec<Segment>) -> (r: Result<Name, SegmentError>)
        ensures
            r is Ok <==> first_invalid(segment_views(segments@), 0) is None,
            r matches Ok(n) ==> n@ == segment_views(segments@),
            r matches Err(e) ==> first_invalid(segment_views(segments@), 0) matches Some((i, k))
                && k == e.kind() && (k != SegmentErrorKind::Empty ==> e.text_view() == segment_views(
                segments@,
            )[i].text),
    {
        let ghost n = segment_views(segments@);
        let mut i: usize = 0;
        while i < segments.len()
            invariant
                i <= segments.len(),
                n == segment_views(segments@),
                first_invalid(n, 0) == first_invalid(n, i as int),
            decreases segments.len() - i,
        {
            match segments[i].validate() {
                Ok(()) => {},
                Err(e) => {
                    return Err(e);
                },
            }
            i = i + 1;
        }
        Ok(Name { segments })
    }

    fn collapse_lowered(words: &Vec<String>) -> (r: Name)
        ensures
            r@ == collapse_words(string_views(words@)),
    {
        let ghost ws = string_views(words@);
        let mut segments: Vec<Segment> = Vec::new();
        let mut run: Vec<String> = Vec::new();
        let mut i: usize = 0;
        assert(segment_views(segments@) =~= Seq::<SegmentView>::empty());
        assert(string_views(run@) =~= Seq::<Seq<char>>::empty());
        assert(ws.take(0) =~= Seq::<Seq<char>>::empty());
        while i < words.len()
            invariant
                i <= words.len(),
                ws == string_views(words@),
                fold_words(ws.take(i as int)) == (segment_views(segments@), string_views(run@)),
            decreases words.len() - i,
        {
            let w = &words[i];
            let cs = chars_of(w.as_str());
            assert(ws.take(i as int + 1).drop_last() =~= ws.take(i as int));
            assert(ws.take(i as int + 1).last() == cs@);
            let single = cs.len() == 1 && ascii_is_lower(cs[0]);
            if single {
                let ghost before = run@;
                let copy = w.clone();
                run.push(copy);
                proof {
                    lemma_string_views_push(before, copy);
                }
            } else {
                Self::flush(&mut segments, &mut run);
                let seg = Segment::from_view_chars(false, cs.as_slice());
                let ghost before = segments@;
                segments.push(seg);
                proof {
                    lemma_segment_views_push(before, seg);
                }
                assert(string_views(run@) =~= Seq::<Seq<char>>::empty());
            }
            i = i + 1;
        }
        assert(ws.take(i as int) =~= ws);
        Self::flush(&mut segments, &mut run);
        Name { segments }
    }

    fn flush(segments: &mut Vec<Segment>, run: &mut Vec<String>)
        ensures
            segment_views(final(segments)@) == flush_run(segment_views(old(segments)@), string_views(old(run)@)),
            final(run)@.len() == 0,
    {
        let ghost before = segments@;
        if run.len() == 1 {
            let cs = chars_of(run[0].as_str());
            let seg = Segment::from_view_chars(false, cs.as_slice());
            segments.push(seg);
            proof {
                lemma_segment_views_push(before, seg);
            }
        } else if run.len() > 1 {
            let mut parts: Vec<Vec<char>> = Vec::new();
            let mut k: usize = 0;
            while k < run.len()
                invariant
                    k <= run.len(),
                    views(parts@) == string_views(run@).take(k as int),
                decreases run.len() - k,
            {
                let piece = chars_of(run[k].as_str());
                let ghost old_parts = parts@;
                parts.push(piece);
                proof {
                    lemma_views_push(old_parts, piece);
                    lemma_take_succ(string_views(run@), k as int);
                }
                k = k + 1;
            }
            assert(string_views(run@).take(k as int) =~= string_views(run@));
            let sep: Vec<char> = Vec::new();
            assert(sep@ =~= Seq::<char>::empty());
            let joined = join_chars(&parts, sep.as_slice());
            let seg = Segment::from_view_chars(true, joined.as_slice());
            segments.push(seg);
            proof {
                lemma_segment_views_push(before, seg);
            }
        }
        *run = Vec::new();
    }

    /// Build a name from legacy v1 through v3 words, after lowercasing each: a maximal
    /// run of two or more single-letter words becomes one initialism, a run of one stays
    /// a word.
    pub fn from_words(words: Vec<String>) -> (r: Name)
        ensures
            r@ == collapse_words(lowered_words(string_views(words@))),
            ascii_words(string_views(words@)) ==> r@ == collapse_words(ascii_lowered(string_views(words@))),
    {
        let ghost sv = string_views(words@);
        let mut lowered: Vec<String> = Vec::new();
        let mut i: usize = 0;
        while i < words.len()
            invariant
                i <= words.len(),
                sv == string_views(words@),
                string_views(lowered@) == lowered_words(sv).take(i as int),
                forall|k: int| 0 <= k < i && is_ascii_text(sv[k]) ==> #[trigger] string_views(lowered@)[k] == lower_seq(sv[k]),
            decreases words.len() - i,
        {
            let l = to_lowercase(words[i].as_str());
            assert(sv[i as int] == words@[i as int]@);
            let ghost before = lowered@;
            lowered.push(l);
            proof {
                lemma_string_views_push(before, l);
                lemma_take_succ(lowered_words(sv), i as int);
                assert forall|k: int| 0 <= k < i + 1 && is_ascii_text(sv[k]) implies #[trigger] string_views(lowered@)[k] == lower_seq(sv[k]) by {
                    if k < i {
                        assert(string_views(lowered@)[k] == string_views(before)[k]);
                    }
                }
            }
            i = i + 1;
        }
        assert(lowered_words(sv).take(i as int) =~= lowered_words(sv));
        proof {
            if ascii_words(sv) {
                assert forall|k: int| 0 <= k < sv.len() implies lowered_words(sv)[k] == #[trigger] ascii_lowered(sv)[k] by {
                    assert(is_ascii_text(sv[k]));
                    assert(string_views(lowered@)[k] == lower_seq(sv[k]));
                }
                assert(lowered_words(sv) =~= ascii_lowered(sv));
            }
        }
        Self::collapse_lowered(&lowered)
    }

    /// Build a name from legacy words; see [`Name::from_words`].
    pub fn new(words: &[&str]) -> (r: Name)
        ensures
            r@ == collapse_words(lowered_words(words@.map_values(|w: &str| w@))),
            ascii_words(words@.map_values(|w: &str| w@)) ==> r@ == collapse_words(
                ascii_lowered(words@.map_values(|w: &str| w@)),
            ),
    {
        let mut owned: Vec<String> = Vec::new();
        let mut i: usize = 0;
        while i < words.len()
            invariant
                i <= words.len(),
                string_views(owned@) == words@.map_values(|w: &str| w@).take(i as int),
            decreases words.len() - i,
        {
            let w = words[i].to_owned();
            let ghost before = owned@;
            owned.push(w);
            proof {
                lemma_string_views_push(before, w);
                lemma_take_succ(words@.map_values(|w: &str| w@), i as int);
            }
            i = i + 1;
        }
        assert(words@.map_values(|w: &str| w@).take(i as int) =~= words@.map_values(|w: &str| w@));
        Self::from_words(owned)
    }

    /// Parse permissively: a canonical encoding first, then `snake_case`,
    /// `kebab-case`, `camelCase` and `PascalCase`.
    pub fn from(name: &str) -> (r: Name)
        ensures
            r@ == permissive_name(name@),
    {
        let cs = chars_of(name);
        if cs.len() == 0 {
            return Name::empty();
        }
        match Self::from_canonical_string(name) {
            Ok(parsed) => {
                return parsed;
            },
            Err(_) => {},
        }
        let seps = vec!['_', '-', '/', '.', ':', ' '];
        assert(seps@ =~= name_separators());
        let chunks = split_chars_any(cs.as_slice(), seps.as_slice());
        let ghost chunk_views = split_any(name@, name_separators());
        let mut segments: Vec<Segment> = Vec::new();
        let mut i: usize = 0;
        assert(segment_views(segments@) =~= Seq::<SegmentView>::empty());
        while i < chunks.len()
            invariant
                i <= chunks.len(),
                chunk_views == split_any(name@, name_separators()),
                chunks@.len() == chunk_views.len(),
                forall|k: int| 0 <= k < chunks@.len() ==> (#[trigger] chunks@[k])@ == chunk_views[k],
                segment_views(segments@) + chunks_segments(chunk_views, i as int) == chunks_segments(
                    chunk_views,
                    0,
                ),
            decreases chunks.len() - i,
        {
            let chunk = &chunks[i];
            assert(chunk@ == chunk_views[i as int]);
            if chunk.len() > 0 {
                let mut found = split_camel_case(chunk.as_slice());
                let ghost before = segment_views(segments@);
                let mut k: usize = 0;
                let ghost found_views = segment_views(found@);
                while k < found.len()
                    invariant
                        k <= found.len(),
                        found_views == segment_views(found@),
                        segment_views(segments@) == before + found_views.take(k as int),
                    decreases found.len() - k,
                {
                    let seg = found[k].duplicate();
                    let ghost b2 = segments@;
                    segments.push(seg);
                    proof {
                        lemma_segment_views_push(b2, seg);
                        lemma_take_succ(found_views, k as int);
                    }
                    k = k + 1;
                }
                assert(found_views.take(k as int) =~= found_views);
                assert(before + found_views + chunks_segments(chunk_views, i as int + 1) =~= before
                    + chunks_segments(chunk_views, i as int));
            }
            i = i + 1;
        }
        assert(segment_views(segments@) + Seq::<SegmentView>::empty() =~= segment_views(segments@));
        Name { segments }
    }
}


// ---------------------------------------------------------------------------
// File stems and legacy words round-trip
// ---------------------------------------------------------------------------

proof fn lemma_reserved_not_empty()
    ensures
        !reserved_device(Seq::<char>::empty()),
        !reserved_device(seq!['_']),
{
    reveal_strlit("con");
    assert("con"@.len() == 3);
    reveal_strlit("prn");
    assert("prn"@.len() == 3);
    reveal_strlit("aux");
    assert("aux"@.len() == 3);
    reveal_strlit("nul");
    assert("nul"@.len() == 3);
    reveal_strlit("com0");
    assert("com0"@.len() == 4);
    reveal_strlit("com1");
    assert("com1"@.len() == 4);
    reveal_strlit("com2");
    assert("com2"@.len() == 4);
    reveal_strlit("com3");
    assert("com3"@.len() == 4);
    reveal_strlit("com4");
    assert("com4"@.len() == 4);
    reveal_strlit("com5");
    assert("com5"@.len() == 4);
    reveal_strlit("com6");
    assert("com6"@.len() == 4);
    reveal_strlit("com7");
    assert("com7"@.len() == 4);
    reveal_strlit("com8");
    assert("com8"@.len() == 4);
    reveal_strlit("com9");
    assert("com9"@.len() == 4);
    reveal_strlit("lpt0");
    assert("lpt0"@.len() == 4);
    reveal_strlit("lpt1");
    assert("lpt1"@.len() == 4);
    reveal_strlit("lpt2");
    assert("lpt2"@.len() == 4);
    reveal_strlit("lpt3");
    assert("lpt3"@.len() == 4);
    reveal_strlit("lpt4");
    assert("lpt4"@.len() == 4);
    reveal_strlit("lpt5");
    assert("lpt5"@.len() == 4);
    reveal_strlit("lpt6");
    assert("lpt6"@.len() == 4);
    reveal_strlit("lpt7");
    assert("lpt7"@.len() == 4);
    reveal_strlit("lpt8");
    assert("lpt8"@.len() == 4);
    reveal_strlit("lpt9");
    assert("lpt9"@.len() == 4);
}

proof fn lemma_parse_stem_pieces(n: Seq<SegmentView>, st: Seq<char>, i: int)
    requires
        valid_name(n),
        0 <= i <= n.len(),
    ensures
        parse_stem_from(n.map_values(|s: SegmentView| stem_piece(s)), st, i) == Ok::<
            Seq<SegmentView>,
            Seq<char>,
        >(n.skip(i)),
    decreases n.len() - i,
{
    let pieces = n.map_values(|s: SegmentView| stem_piece(s));
    if i == n.len() {
        assert(n.skip(i) =~= Seq::<SegmentView>::empty());
    } else {
        lemma_parse_stem_pieces(n, st, i + 1);
        let sv = n[i];
        assert(valid_segment(sv));
        assert(pieces[i] == stem_piece(sv));
        if sv.initialism {
            assert((seq!['_'] + sv.text).drop_first() =~= sv.text);
        } else {
            assert(is_lower_alnum(sv.text[0]));
        }
        assert(stem_part_segment(stem_piece(sv)) == sv);
        assert(seq![sv] + n.skip(i + 1) =~= n.skip(i));
    }
}

/// A file stem decodes back to the name it was made from: for every valid name,
/// `from_file_stem(to_file_stem(n))` is `Ok(n)`.
pub proof fn lemma_file_stem_roundtrip(n: Seq<SegmentView>)
    requires
        valid_name(n),
    ensures
        parse_file_stem(file_stem_of(n)) == Ok::<Seq<SegmentView>, Seq<char>>(n),
{
    let pieces = n.map_values(|s: SegmentView| stem_piece(s));
    let joined = joined_stem(n);
    lemma_reserved_not_empty();
    if n.len() == 0 {
        assert(joined =~= Seq::<char>::empty());
        assert(lower_seq(joined) =~= Seq::<char>::empty());
        assert(n =~= Seq::<SegmentView>::empty());
    } else {
        assert forall|i: int| 0 <= i < pieces.len() implies (#[trigger] pieces[i]).len() > 0 && !pieces[i].contains('-') by {
            lemma_valid_segment_chars(n[i]);
        }
        crate::text::lemma_join_no_pair(pieces, '-');
        crate::text::lemma_split_join(pieces, '-');
        let lastp = pieces.last();
        assert(lastp == stem_piece(n[n.len() - 1]));
        let t = n[n.len() - 1].text;
        assert(valid_segment(n[n.len() - 1]));
        assert(lastp.last() == t.last());
        assert(is_lower_alnum(t[t.len() - 1]));
        assert(joined.last() != '_');
        let stem = file_stem_of(n);
        assert(strip_device_escape(stem) == joined) by {
            if reserved_device(lower_seq(joined)) {
                assert(stem == joined.push('_'));
                assert(joined.push('_').drop_last() =~= joined);
            }
        }
        assert(stem.len() > 0);
        lemma_parse_stem_pieces(n, joined, 0);
        assert(n.skip(0) =~= n);
    }
}

proof fn lemma_explode_concat(run: Seq<Seq<char>>)
    requires
        forall|i: int| 0 <= i < run.len() ==> (#[trigger] run[i]).len() == 1,
    ensures
        join(run, Seq::<char>::empty()).map_values(|c: char| seq![c]) == run,
    decreases run.len(),
{
    let f = |c: char| seq![c];
    if run.len() == 0 {
        assert(join(run, Seq::<char>::empty()).map_values(f) =~= run);
    } else if run.len() == 1 {
        assert(run[0] =~= seq![run[0][0]]);
        assert(join(run, Seq::<char>::empty()).map_values(f) =~= run);
    } else {
        let init = run.drop_last();
        assert forall|i: int| 0 <= i < init.len() implies (#[trigger] init[i]).len() == 1 by {
            assert(init[i] == run[i]);
        }
        lemma_explode_concat(init);
        let a = join(init, Seq::<char>::empty());
        let l = run.last();
        assert(l == run[run.len() - 1]);
        assert(l =~= seq![l[0]]);
        assert(join(run, Seq::<char>::empty()) =~= a + l);
        assert((a + l).map_values(f) =~= a.map_values(f) + l.map_values(f));
        assert(l.map_values(f) =~= seq![l]);
        assert(init.push(l) =~= run);
    }
}

proof fn lemma_words_flush(segs: Seq<SegmentView>, run: Seq<Seq<char>>)
    requires
        forall|i: int| 0 <= i < run.len() ==> single_letter(#[trigger] run[i]),
    ensures
        words_of(flush_run(segs, run)) == words_of(segs) + run,
{
    if run.len() == 0 {
        assert(words_of(segs) + run =~= words_of(segs));
    } else if run.len() == 1 {
        assert(flush_run(segs, run).drop_last() =~= segs);
        assert(words_of(segs) + run =~= words_of(segs) + seq![run[0]]);
    } else {
        assert forall|i: int| 0 <= i < run.len() implies (#[trigger] run[i]).len() == 1 by {
            assert(single_letter(run[i]));
        }
        lemma_explode_concat(run);
        assert(flush_run(segs, run).drop_last() =~= segs);
    }
}

proof fn lemma_fold_words(ws: Seq<Seq<char>>)
    ensures
        words_of(fold_words(ws).0) + fold_words(ws).1 == ws,
        forall|i: int| 0 <= i < fold_words(ws).1.len() ==> single_letter(#[trigger] fold_words(ws).1[i]),
    decreases ws.len(),
{
    if ws.len() > 0 {
        lemma_fold_words(ws.drop_last());
        let (segs, run) = fold_words(ws.drop_last());
        let w = ws.last();
        if single_letter(w) {
            assert(words_of(segs) + run.push(w) =~= (words_of(segs) + run).push(w));
            assert(ws.drop_last().push(w) =~= ws);
        } else {
            lemma_words_flush(segs, run);
            let f = flush_run(segs, run);
            assert(f.push(word(w)).drop_last() =~= f);
            assert(words_of(f.push(word(w))) == words_of(f) + seq![w]);
            assert(words_of(segs) + run + seq![w] + Seq::<Seq<char>>::empty() =~= ws);
        }
    } else {
        assert(words_of(Seq::<SegmentView>::empty()) + Seq::<Seq<char>>::empty() =~= ws);
    }
}

/// ASCII letters stay ASCII under the lowercase mapping, and mapping twice changes nothing.
proof fn lemma_lower_seq_ascii(w: Seq<char>)
    requires
        is_ascii_text(w),
    ensures
        is_ascii_text(lower_seq(w)),
        lower_seq(lower_seq(w)) == lower_seq(w),
        !has_upper(lower_seq(w)),
{
    let l = lower_seq(w);
    assert forall|j: int| 0 <= j < l.len() implies ((#[trigger] l[j]) as u32) < 128 && !is_upper(l[j]) && to_lower(l[j]) == l[j] by {
        assert((w[j] as u32) < 128);
        if is_upper(w[j]) {
            assert((((w[j] as u32) + 32) as char) as u32 == (w[j] as u32) + 32);
        }
    }
    assert(lower_seq(l) =~= l);
}

/// A name built from ASCII words reads back to itself: its words are ASCII again, and a
/// name built from them is the same name.
pub proof fn lemma_ascii_words_roundtrip(ws: Seq<Seq<char>>)
    requires
        ascii_words(ws),
    ensures
        ascii_words(words_of(collapse_words(ascii_lowered(ws)))),
        collapse_words(ascii_lowered(words_of(collapse_words(ascii_lowered(ws))))) == collapse_words(
            ascii_lowered(ws),
        ),
{
    let l = ascii_lowered(ws);
    lemma_fold_words(l);
    lemma_words_flush(fold_words(l).0, fold_words(l).1);
    assert(words_of(collapse_words(l)) == l);
    assert forall|i: int| 0 <= i < l.len() implies is_ascii_text(#[trigger] l[i]) && lower_seq(l[i]) == l[i] by {
        assert(is_ascii_text(ws[i]));
        lemma_lower_seq_ascii(ws[i]);
    }
    assert(ascii_lowered(l) =~= l);
}

/// Every word of segment `i` is one of the name's words.
proof fn lemma_segment_words_in(n: Seq<SegmentView>, i: int, j: int)
    requires
        0 <= i < n.len(),
        0 <= j < segment_words(n[i]).len(),
    ensures
        words_of(n).contains(segment_words(n[i])[j]),
    decreases n.len(),
{
    let init = n.drop_last();
    if i == n.len() - 1 {
        let k = words_of(init).len() + j;
        assert(words_of(n)[k] == segment_words(n[i])[j]);
    } else {
        assert(init[i] == n[i]);
        lemma_segment_words_in(init, i, j);
        let k = choose|k: int| 0 <= k < words_of(init).len() && words_of(init)[k] == segment_words(n[i])[j];
        assert(words_of(n)[k] == words_of(init)[k]);
    }
}

/// A name built from ASCII words is lowercase: no segment's text holds an uppercase letter.
pub proof fn lemma_ascii_words_lowercase(ws: Seq<Seq<char>>)
    requires
        ascii_words(ws),
    ensures
        forall|i: int|
            0 <= i < collapse_words(ascii_lowered(ws)).len() ==> !has_upper(
                #[trigger] collapse_words(ascii_lowered(ws))[i].text,
            ),
{
    let l = ascii_lowered(ws);
    let n = collapse_words(l);
    lemma_fold_words(l);
    lemma_words_flush(fold_words(l).0, fold_words(l).1);
    assert(words_of(n) == l);
    assert forall|k: int| 0 <= k < l.len() implies !has_upper(#[trigger] l[k]) by {
        assert(is_ascii_text(ws[k]));
        lemma_lower_seq_ascii(ws[k]);
    }
    assert forall|i: int| 0 <= i < n.len() implies !has_upper(#[trigger] n[i].text) by {
        let s = n[i];
        if s.initialism {
            assert forall|j: int| 0 <= j < s.text.len() implies !is_upper(#[trigger] s.text[j]) by {
                assert(segment_words(s)[j] == seq![s.text[j]]);
                lemma_segment_words_in(n, i, j);
                let k = choose|k: int| 0 <= k < l.len() && l[k] == seq![s.text[j]];
                assert(!has_upper(l[k]));
                assert(l[k][0] == s.text[j]);
                assert(!is_upper(l[k][0]));
            }
        } else {
            assert(segment_words(s)[0] == s.text);
            lemma_segment_words_in(n, i, 0);
            let k = choose|k: int| 0 <= k < l.len() && l[k] == s.text;
            assert(!has_upper(l[k]));
        }
    }
}

/// The characters of a valid name's canonical string are letters, digits and `-`.
pub proof fn lemma_canonical_charset(n: Seq<SegmentView>, c: char)
    requires
        valid_name(n),
        !is_alnum(c),
        c != '-',
    ensures
        !canonical_uppercase(n).contains(c),
        n.len() > 0 ==> canonical_uppercase(n).len() > 0,
{
    let pieces = n.map_values(|s: SegmentView| upper_piece(s));
    assert forall|i: int| 0 <= i < pieces.len() implies !(#[trigger] pieces[i]).contains(c) && pieces[i].len() > 0
        && !pieces[i].contains('-') by {
        let sv = n[i];
        lemma_valid_segment_chars(sv);
        let u = upper_piece(sv);
        if u.contains(c) {
            let k = choose|k: int| 0 <= k < u.len() && u[k] == c;
            assert(is_lower_alnum(sv.text[k]));
            crate::text::lemma_upper_class(sv.text[k]);
        }
    }
    crate::text::lemma_join_excludes(pieces, seq!['-'], c);
    crate::text::lemma_join_no_pair(pieces, '-');
}

} // verus!
