//! The YAML profile reader.
//!
//! A YAML parser's events are read into the JSON value tree the JSON reader builds,
//! refusing what the profile forbids with the diagnostic codes and JSON-pointer cursors a
//! document reader reports. A number keeps its lexeme.

use crate::ir::diagnostic::{Diagnostic, DiagnosticCode, DiagnosticStage, DiagnosticView, Mark};
use crate::ir::yaml::scalar::{plain_resolution, resolve_plain, Resolution, Resolved};
use granit_parser::{Event, Options, Parser, ScalarStyle};
use crate::json::{
    item_views, json_view, lemma_first_member, lemma_item_views, lemma_item_views_push, lemma_member_views,
    lemma_member_views_push, member_named, member_views, JsonValue, JsonView,
};
use crate::text::{
    chars_of, decimal, decimal_of, is_white_space, push_chars, push_str_chars, split, split_chars, str_eq, string_of,
    subrange, white_space,
};
use vstd::prelude::*;

verus! {

/// The nesting bound the reader enforces.
pub const MAX_DEPTH: usize = 1000;

/// One event of a YAML parser, as far as the profile reads it.
#[derive(Debug, Clone, PartialEq, Eq)]
pub enum YamlEvent {
    /// The start of a document, and whether a `%YAML` directive declared its version.
    DocumentStart { has_version: bool },
    Alias,
    /// A scalar: its text after escape processing, whether it is written plain (unquoted and
    /// not a block scalar), its anchor id (0 for none), and whether it carries a tag.
    Scalar { text: String, plain: bool, anchor: usize, tagged: bool },
    SequenceStart { anchor: usize, tagged: bool },
    SequenceEnd,
    MappingStart { anchor: usize, tagged: bool },
    MappingEnd,
    /// Any other event: stream and document boundaries, comments and presentation metadata,
    /// none of which the profile reads.
    Other,
}

/// A diagnostic raised while reading the text.
pub open spec fn syntax_error(code: DiagnosticCode, cursor: Seq<char>, message: Seq<char>, at: Option<Mark>) -> DiagnosticView {
    DiagnosticView {
        code,
        stage: DiagnosticStage::Syntax,
        cursor,
        message,
        line: match at {
            Some(m) => Some(m.line),
            None => None,
        },
        column: match at {
            Some(m) => Some(m.column),
            None => None,
        },
    }
}

/// The position of a parser marker: its line, and its zero-based column made one-based, both
/// taken to 32 bits.
pub open spec fn mark_spec(line: usize, col: usize) -> Mark {
    Mark {
        line: line as u32,
        column: if (col as u32) < u32::MAX {
            ((col as u32) + 1) as u32
        } else {
            0
        },
    }
}

/// The position of a parser marker, as [`mark_spec`] states it.
pub fn mark_of(line: usize, col: usize) -> (r: Mark)
    ensures
        r == mark_spec(line, col),
{
    #[verifier::truncate]
    let l = line as u32;
    #[verifier::truncate]
    let c = col as u32;
    Mark { line: l, column: c.wrapping_add(1) }
}

// ---------------------------------------------------------------------------
// Directives
// ---------------------------------------------------------------------------

/// `s` without its leading white space.
pub open spec fn trim_start(s: Seq<char>) -> Seq<char>
    decreases s.len(),
{
    if s.len() > 0 && is_white_space(s[0]) {
        trim_start(s.drop_first())
    } else {
        s
    }
}

/// What a line of the stream's opening says of directives: a line whose first character is
/// `%` is a directive; a document marker or any content that is not a comment ends the
/// opening; a blank or comment line says nothing.
pub open spec fn line_decision(line: Seq<char>) -> Option<bool> {
    if line.len() > 0 && line[0] == '%' {
        Some(true)
    } else {
        let t = trim_start(line);
        if (t.len() >= 3 && t.take(3) == seq!['-', '-', '-']) || (t.len() > 0 && t[0] != '#') {
            Some(false)
        } else {
            None
        }
    }
}

/// Whether the lines from `i` on open with a directive.
pub open spec fn directive_from(lines: Seq<Seq<char>>, i: int) -> bool
    decreases lines.len() - i,
{
    if i < 0 || i >= lines.len() {
        false
    } else {
        match line_decision(lines[i]) {
            Some(b) => b,
            None => directive_from(lines, i + 1),
        }
    }
}

/// `text` without one leading byte order mark.
pub open spec fn without_bom(text: Seq<char>) -> Seq<char> {
    if text.len() > 0 && text[0] == '\u{feff}' {
        text.skip(1)
    } else {
        text
    }
}

/// Whether the stream opens with a `%YAML` or `%TAG` directive, which the profile refuses
/// outright.
pub open spec fn has_directive(text: Seq<char>) -> bool {
    directive_from(split(without_bom(text), '\n'), 0)
}

fn trim_start_of(s: &Vec<char>) -> (r: Vec<char>)
    ensures
        r@ == trim_start(s@),
{
    let mut i: usize = 0;
    assert(s@.skip(0) =~= s@);
    while i < s.len() && white_space(s[i])
        invariant
            i <= s@.len(),
            trim_start(s@) == trim_start(s@.skip(i as int)),
        decreases s.len() - i,
    {
        assert(s@.skip(i as int).drop_first() =~= s@.skip(i as int + 1));
        i = i + 1;
    }
    let r = subrange(s.as_slice(), i, s.len());
    assert(r@ =~= s@.skip(i as int));
    r
}

fn line_decision_of(line: &Vec<char>) -> (r: Option<bool>)
    ensures
        r == line_decision(line@),
{
    if line.len() > 0 && line[0] == '%' {
        return Some(true);
    }
    let t = trim_start_of(line);
    let marker = t.len() >= 3 && t[0] == '-' && t[1] == '-' && t[2] == '-';
    assert(marker == (t@.len() >= 3 && t@.take(3) == seq!['-', '-', '-'])) by {
        if t@.len() >= 3 {
            if marker {
                assert(t@.take(3) =~= seq!['-', '-', '-']);
            }
            if t@.take(3) == seq!['-', '-', '-'] {
                assert(t@.take(3)[0] == '-' && t@.take(3)[1] == '-' && t@.take(3)[2] == '-');
            }
        }
    }
    if marker || (t.len() > 0 && t[0] != '#') {
        Some(false)
    } else {
        None
    }
}

/// Refuse a stream that opens with a `%YAML` or `%TAG` directive.
pub fn check_directives(text: &str) -> (r: Result<(), Diagnostic>)
    ensures
        match r {
            Ok(_) => !has_directive(text@),
            Err(d) => has_directive(text@) && d@ == syntax_error(
                DiagnosticCode::UnsupportedYamlFeature,
                ""@,
                "%YAML and %TAG directives are not part of the profile"@,
                None,
            ),
        },
{
    let cs = chars_of(text);
    let body = if cs.len() > 0 && cs[0] == '\u{feff}' {
        subrange(cs.as_slice(), 1, cs.len())
    } else {
        subrange(cs.as_slice(), 0, cs.len())
    };
    assert(body@ =~= without_bom(text@));
    let lines = split_chars(body.as_slice(), '\n');
    let ghost ls = split(body@, '\n');
    let mut i: usize = 0;
    while i < lines.len()
        invariant
            i <= lines@.len(),
            lines@.len() == ls.len(),
            forall|q: int| 0 <= q < lines@.len() ==> (#[trigger] lines@[q])@ == ls[q],
            ls == split(without_bom(text@), '\n'),
            directive_from(ls, 0) == directive_from(ls, i as int),
        decreases lines.len() - i,
    {
        assert(lines@[i as int]@ == ls[i as int]);
        match line_decision_of(&lines[i]) {
            Some(b) => {
                if b {
                    return Err(
                        Diagnostic::syntax(
                            DiagnosticCode::UnsupportedYamlFeature,
                            "",
                            String::from_str("%YAML and %TAG directives are not part of the profile"),
                            None,
                        ),
                    );
                }
                return Ok(());
            },
            None => {},
        }
        i = i + 1;
    }
    Ok(())
}

// ---------------------------------------------------------------------------
// The value tree
// ---------------------------------------------------------------------------

/// A sequence or mapping being read.
#[derive(Debug)]
enum Frame {
    Sequence(Vec<JsonValue>),
    /// A mapping's members so far, in document order, and the key waiting for its value.
    Mapping { members: Vec<(String, JsonValue)>, pending_key: Option<String> },
}

/// A frame as plain values.
pub enum FrameView {
    Sequence(Seq<JsonView>),
    Mapping { members: Seq<(Seq<char>, JsonView)>, pending_key: Option<Seq<char>> },
}

spec fn frame_view(f: Frame) -> FrameView {
    match f {
        Frame::Sequence(items) => FrameView::Sequence(item_views(items@)),
        Frame::Mapping { members, pending_key } => FrameView::Mapping {
            members: member_views(members@),
            pending_key: match pending_key {
                Some(k) => Some(k@),
                None => None,
            },
        },
    }
}

/// The state of a read: the open sequences and mappings, innermost last; the finished
/// root value; and how many documents have started.
#[derive(Debug)]
pub struct Reader {
    stack: Vec<Frame>,
    root: Option<JsonValue>,
    documents: usize,
}

/// A read's state as plain values.
pub struct ReaderView {
    pub stack: Seq<FrameView>,
    pub root: Option<JsonView>,
    pub documents: nat,
}

impl View for Reader {
    type V = ReaderView;

    closed spec fn view(&self) -> ReaderView {
        ReaderView {
            stack: self.stack@.map_values(|f: Frame| frame_view(f)),
            root: match self.root {
                Some(v) => Some(v@),
                None => None,
            },
            documents: self.documents as nat,
        }
    }
}

/// The part of the cursor a frame contributes: a sequence the index of its next item, a
/// mapping the key waiting for its value.
pub open spec fn frame_cursor(f: FrameView) -> Seq<char> {
    match f {
        FrameView::Sequence(items) => seq!['/'] + decimal(items.len()),
        FrameView::Mapping { pending_key, .. } => match pending_key {
            Some(k) => seq!['/'] + k,
            None => Seq::<char>::empty(),
        },
    }
}

/// The JSON pointer of the node about to be placed, with raw member names.
pub open spec fn stack_cursor(s: Seq<FrameView>) -> Seq<char>
    decreases s.len(),
{
    if s.len() == 0 {
        Seq::<char>::empty()
    } else {
        stack_cursor(s.drop_last()) + frame_cursor(s.last())
    }
}

/// Whether the next node lands in a mapping's key position.
pub open spec fn in_key_position(s: Seq<FrameView>) -> bool {
    s.len() > 0 && s.last() matches FrameView::Mapping { pending_key: None, .. }
}

/// How a value's kind is named in a diagnostic.
pub open spec fn kind_name(v: JsonView) -> Seq<char> {
    match v {
        JsonView::Null => "null"@,
        JsonView::Bool(_) => "a boolean"@,
        JsonView::Number(_) => "a number"@,
        JsonView::Str(_) => "a string"@,
        JsonView::Array(_) => "a sequence"@,
        JsonView::Object(_) => "a mapping"@,
    }
}

/// Whether a member named `k` is among `ms`.
pub open spec fn has_key(ms: Seq<(Seq<char>, JsonView)>, k: Seq<char>) -> bool {
    exists|i: int| 0 <= i < ms.len() && (#[trigger] ms[i]).0 == k
}

/// The read `r` with the innermost frame replaced by `f`.
pub open spec fn with_top(r: ReaderView, f: FrameView) -> ReaderView {
    ReaderView { stack: r.stack.drop_last().push(f), root: r.root, documents: r.documents }
}

/// Placing a finished value: it becomes the root, the next item of a sequence, the value
/// of a mapping's waiting key (a key it already has is refused), or a mapping's next key
/// (which must be a string).
pub open spec fn place_spec(r: ReaderView, v: JsonView, at: Mark) -> Result<ReaderView, DiagnosticView> {
    if r.stack.len() == 0 {
        Ok(ReaderView { stack: r.stack, root: Some(v), documents: r.documents })
    } else {
        match r.stack.last() {
            FrameView::Sequence(items) => Ok(with_top(r, FrameView::Sequence(items.push(v)))),
            FrameView::Mapping { members, pending_key } => match pending_key {
                Some(k) => if has_key(members, k) {
                    Err(
                        syntax_error(
                            DiagnosticCode::DuplicateMember,
                            stack_cursor(r.stack),
                            "member \""@ + k + "\" appears twice"@,
                            Some(at),
                        ),
                    )
                } else {
                    Ok(with_top(r, FrameView::Mapping { members: members.push((k, v)), pending_key: None }))
                },
                None => match v {
                    JsonView::Str(k) => Ok(with_top(r, FrameView::Mapping { members, pending_key: Some(k) })),
                    _ => Err(
                        syntax_error(
                            DiagnosticCode::InvalidType,
                            stack_cursor(r.stack),
                            "mapping keys must be strings, got "@ + kind_name(v),
                            Some(at),
                        ),
                    ),
                },
            },
        }
    }
}

/// Every value placed under a mapping's waiting key becomes a member of the mapping,
/// whatever the value, null included: the mapping keeps its earlier members in order and
/// gains one more, the member for `k`, holding `v`.
pub proof fn lemma_place_keeps_every_member(
    r: ReaderView,
    v: JsonView,
    at: Mark,
    members: Seq<(Seq<char>, JsonView)>,
    k: Seq<char>,
)
    requires
        r.stack.len() > 0,
        r.stack.last() == (FrameView::Mapping { members, pending_key: Some(k) }),
        !has_key(members, k),
    ensures
        place_spec(r, v, at) is Ok,
        place_spec(r, v, at)->Ok_0.stack.len() == r.stack.len(),
        place_spec(r, v, at)->Ok_0.root == r.root,
        place_spec(r, v, at)->Ok_0.stack.last() matches FrameView::Mapping { members: ms, pending_key: None }
            && ms.len() == members.len() + 1 && ms.take(members.len() as int) == members
            && member_named(ms, k) == Some(v),
{
    let ms = members.push((k, v));
    let r2 = place_spec(r, v, at)->Ok_0;
    assert(r2.stack.last() == (FrameView::Mapping { members: ms, pending_key: None }));
    assert(ms.take(members.len() as int) =~= members);
    lemma_first_member(ms, k);
    lemma_first_member(members, k);
    match crate::json::first_member(ms, k) {
        Some(i) => {
            if i < members.len() {
                assert(members[i] == ms[i]);
                assert(has_key(members, k));
            }
        },
        None => {
            assert(ms[members.len() as int].0 == k);
        },
    }
}

/// Every value placed in a sequence becomes its next item: the earlier items stay, in
/// order, and the placed value comes last.
pub proof fn lemma_place_appends_item(r: ReaderView, v: JsonView, at: Mark, items: Seq<JsonView>)
    requires
        r.stack.len() > 0,
        r.stack.last() == FrameView::Sequence(items),
    ensures
        place_spec(r, v, at) is Ok,
        place_spec(r, v, at)->Ok_0.stack.len() == r.stack.len(),
        place_spec(r, v, at)->Ok_0.stack.last() matches FrameView::Sequence(xs) && xs.len() == items.len() + 1
            && xs.take(items.len() as int) == items && xs.last() == v,
{
    assert(items.push(v).take(items.len() as int) =~= items);
}

/// A mapping key must be a string: placing anything else where a key is awaited is refused,
/// and placing a string makes it the awaited key's member name.
pub proof fn lemma_mapping_keys_are_strings(r: ReaderView, v: JsonView, at: Mark, members: Seq<(Seq<char>, JsonView)>)
    requires
        r.stack.len() > 0,
        r.stack.last() == (FrameView::Mapping { members, pending_key: None }),
    ensures
        (place_spec(r, v, at) is Ok) == (v is Str),
        v matches JsonView::Str(k) ==> place_spec(r, v, at)->Ok_0.stack.last() == (FrameView::Mapping {
            members,
            pending_key: Some(k),
        }),
{
}

/// What a scalar in a value position reads as: a plain scalar by the profile's resolution,
/// any other as its text; or the message a refused plain scalar carries.
pub open spec fn scalar_value(text: Seq<char>, plain: bool) -> Result<JsonView, Seq<char>> {
    if !plain {
        Ok(JsonView::Str(text))
    } else {
        match plain_resolution(text) {
            Resolution::Null => Ok(JsonView::Null),
            Resolution::Bool(b) => Ok(JsonView::Bool(b)),
            Resolution::Number(l) => Ok(JsonView::Number(l)),
            Resolution::Str(t) => Ok(JsonView::Str(t)),
            Resolution::Refused(m) => Err(m),
        }
    }
}

/// Reading a scalar: anchors, tags and merge keys are refused; a key must read as a
/// string.
pub open spec fn scalar_step(r: ReaderView, text: Seq<char>, plain: bool, anchored: bool, tagged: bool, at: Mark) -> Result<
    ReaderView,
    DiagnosticView,
> {
    let cursor = stack_cursor(r.stack);
    if anchored {
        Err(
            syntax_error(
                DiagnosticCode::UnsupportedYamlFeature,
                cursor,
                "anchors and aliases are not part of the profile"@,
                Some(at),
            ),
        )
    } else if tagged {
        Err(syntax_error(DiagnosticCode::UnsupportedYamlFeature, cursor, "tags are not part of the profile"@, Some(at)))
    } else if in_key_position(r.stack) {
        if plain {
            if text == "<<"@ {
                Err(
                    syntax_error(
                        DiagnosticCode::UnsupportedYamlFeature,
                        cursor + "/<<"@,
                        "merge keys are not part of the profile"@,
                        Some(at),
                    ),
                )
            } else {
                match plain_resolution(text) {
                    Resolution::Str(k) => place_spec(r, JsonView::Str(k), at),
                    Resolution::Refused(m) => Err(syntax_error(DiagnosticCode::InvalidLiteral, cursor, m, Some(at))),
                    _ => Err(
                        syntax_error(DiagnosticCode::InvalidType, cursor, "mapping keys must be strings"@, Some(at)),
                    ),
                }
            }
        } else {
            place_spec(r, JsonView::Str(text), at)
        }
    } else {
        match scalar_value(text, plain) {
            Ok(v) => place_spec(r, v, at),
            Err(m) => Err(syntax_error(DiagnosticCode::InvalidLiteral, cursor, m, Some(at))),
        }
    }
}

/// Opening a sequence or mapping: anchors and tags are refused, as is a collection in a key
/// position or nested deeper than the bound.
pub open spec fn open_step(r: ReaderView, sequence: bool, anchored: bool, tagged: bool, at: Mark) -> Result<
    ReaderView,
    DiagnosticView,
> {
    let cursor = stack_cursor(r.stack);
    if anchored || tagged {
        Err(
            syntax_error(
                DiagnosticCode::UnsupportedYamlFeature,
                cursor,
                "anchors and tags are not part of the profile"@,
                Some(at),
            ),
        )
    } else if in_key_position(r.stack) {
        Err(syntax_error(DiagnosticCode::InvalidType, cursor, "mapping keys must be strings"@, Some(at)))
    } else if r.stack.len() >= MAX_DEPTH {
        Err(syntax_error(DiagnosticCode::NestingTooDeep, cursor, "nesting deeper than 1000 levels"@, Some(at)))
    } else {
        let f = if sequence {
            FrameView::Sequence(Seq::<JsonView>::empty())
        } else {
            FrameView::Mapping { members: Seq::<(Seq<char>, JsonView)>::empty(), pending_key: None }
        };
        Ok(ReaderView { stack: r.stack.push(f), root: r.root, documents: r.documents })
    }
}

/// Closing the innermost sequence or mapping places what it holds.
pub open spec fn close_step(r: ReaderView, at: Mark) -> Result<ReaderView, DiagnosticView> {
    let v = match r.stack.last() {
        FrameView::Sequence(items) => JsonView::Array(items),
        FrameView::Mapping { members, .. } => JsonView::Object(members),
    };
    place_spec(ReaderView { stack: r.stack.drop_last(), root: r.root, documents: r.documents }, v, at)
}

/// What reading one event makes of the read `r`, or the diagnostic it is refused with.
pub open spec fn step_spec(r: ReaderView, e: YamlEvent, at: Mark) -> Result<ReaderView, DiagnosticView> {
    match e {
        YamlEvent::DocumentStart { has_version } => if has_version {
            Err(
                syntax_error(
                    DiagnosticCode::UnsupportedYamlFeature,
                    ""@,
                    "%YAML directives are not part of the profile"@,
                    Some(at),
                ),
            )
        } else if r.documents + 1 > 1 {
            Err(syntax_error(DiagnosticCode::InvalidYaml, ""@, "expected exactly one document"@, Some(at)))
        } else {
            Ok(ReaderView { stack: r.stack, root: r.root, documents: r.documents + 1 })
        },
        YamlEvent::Alias => Err(
            syntax_error(
                DiagnosticCode::UnsupportedYamlFeature,
                stack_cursor(r.stack),
                "anchors and aliases are not part of the profile"@,
                Some(at),
            ),
        ),
        YamlEvent::Scalar { text, plain, anchor, tagged } => scalar_step(r, text@, plain, anchor != 0, tagged, at),
        YamlEvent::SequenceStart { anchor, tagged } => open_step(r, true, anchor != 0, tagged, at),
        YamlEvent::MappingStart { anchor, tagged } => open_step(r, false, anchor != 0, tagged, at),
        YamlEvent::SequenceEnd => close_step(r, at),
        YamlEvent::MappingEnd => close_step(r, at),
        _ => Ok(r),
    }
}

/// What a finished read gives: the root value of its one document.
pub open spec fn finish_spec(r: ReaderView) -> Result<JsonView, DiagnosticView> {
    match r.root {
        Some(v) => if r.documents == 1 {
            Ok(v)
        } else {
            Err(syntax_error(DiagnosticCode::InvalidYaml, ""@, "expected exactly one document"@, None))
        },
        None => Err(syntax_error(DiagnosticCode::InvalidYaml, ""@, "expected exactly one document"@, None)),
    }
}

fn kind_name_of(v: &JsonValue) -> (r: &'static str)
    ensures
        r@ == kind_name(v@),
{
    match v {
        JsonValue::Null => "null",
        JsonValue::Bool(_) => "a boolean",
        JsonValue::Number(_) => "a number",
        JsonValue::Str(_) => "a string",
        JsonValue::Array(_) => "a sequence",
        JsonValue::Object(_) => "a mapping",
    }
}

fn has_member(members: &Vec<(String, JsonValue)>, k: &str) -> (r: bool)
    ensures
        r == has_key(member_views(members@), k@),
{
    proof {
        lemma_member_views(members@);
    }
    let mut i: usize = 0;
    while i < members.len()
        invariant
            i <= members@.len(),
            member_views(members@).len() == members@.len(),
            forall|q: int| 0 <= q < members@.len() ==> #[trigger] member_views(members@)[q] == (members@[q].0@, json_view(members@[q].1)),
            forall|q: int| 0 <= q < i ==> (#[trigger] member_views(members@)[q]).0 != k@,
        decreases members.len() - i,
    {
        if str_eq(members[i].0.as_str(), k) {
            assert(member_views(members@)[i as int].0 == k@);
            return true;
        }
        i = i + 1;
    }
    false
}

/// `"member \"k\" appears twice"`
fn duplicate_message(k: &str) -> (r: String)
    ensures
        r@ == "member \""@ + k@ + "\" appears twice"@,
{
    let mut out: Vec<char> = Vec::new();
    push_str_chars(&mut out, "member \"");
    push_str_chars(&mut out, k);
    push_str_chars(&mut out, "\" appears twice");
    string_of(out.as_slice())
}

/// `a` followed by `b`.
fn concat(a: &str, b: &str) -> (r: String)
    ensures
        r@ == a@ + b@,
{
    let mut out: Vec<char> = Vec::new();
    push_str_chars(&mut out, a);
    push_str_chars(&mut out, b);
    assert(out@ =~= a@ + b@);
    string_of(out.as_slice())
}

impl Reader {
    /// A read that has seen nothing.
    pub fn new() -> (r: Reader)
        ensures
            r@.stack.len() == 0,
            r@.root is None,
            r@.documents == 0,
    {
        Reader { stack: Vec::new(), root: None, documents: 0 }
    }

    /// How many sequences and mappings are open.
    pub fn depth(&self) -> (r: usize)
        ensures
            r == self@.stack.len(),
    {
        self.stack.len()
    }

    /// The JSON pointer of the node about to be placed, with raw member names.
    pub fn cursor(&self) -> (r: String)
        ensures
            r@ == stack_cursor(self@.stack),
    {
        let ghost s = self@.stack;
        let mut out: Vec<char> = Vec::new();
        let mut i: usize = 0;
        assert(s.take(0) =~= Seq::<FrameView>::empty());
        while i < self.stack.len()
            invariant
                i <= self.stack@.len(),
                s == self@.stack,
                s.len() == self.stack@.len(),
                out@ == stack_cursor(s.take(i as int)),
            decreases self.stack.len() - i,
        {
            assert(s.take(i as int + 1).drop_last() =~= s.take(i as int));
            assert(s[i as int] == frame_view(self.stack@[i as int]));
            match &self.stack[i] {
                Frame::Sequence(items) => {
                    proof {
                        lemma_item_views(items@);
                    }
                    out.push('/');
                    let d = decimal_of(items.len() as u64);
                    push_chars(&mut out, d.as_slice());
                },
                Frame::Mapping { pending_key: Some(k), .. } => {
                    out.push('/');
                    push_str_chars(&mut out, k.as_str());
                },
                Frame::Mapping { pending_key: None, .. } => {},
            }
            i = i + 1;
        }
        assert(s.take(s.len() as int) =~= s);
        string_of(out.as_slice())
    }

    /// Whether the next node lands in a mapping's key position.
    pub fn in_key_position(&self) -> (r: bool)
        ensures
            r == in_key_position(self@.stack),
    {
        let n = self.stack.len();
        if n == 0 {
            return false;
        }
        assert(self@.stack.last() == frame_view(self.stack@[n - 1]));
        match &self.stack[n - 1] {
            Frame::Mapping { pending_key: None, .. } => true,
            _ => false,
        }
    }

    /// The diagnostic for a text the parser could not read: its description, where it
    /// stopped, and the cursor of the node being read.
    pub fn parse_error(&self, info: String, at: Mark) -> (d: Diagnostic)
        ensures
            d@ == syntax_error(DiagnosticCode::InvalidYaml, stack_cursor(self@.stack), info@, Some(at)),
    {
        let c = self.cursor();
        Diagnostic::syntax(DiagnosticCode::InvalidYaml, c.as_str(), info, Some(at))
    }

    fn place(self, v: JsonValue, at: Mark) -> (r: Result<Reader, Diagnostic>)
        ensures
            match r {
                Ok(n) => place_spec(self@, v@, at) == Ok::<ReaderView, DiagnosticView>(n@),
                Err(d) => place_spec(self@, v@, at) == Err::<ReaderView, DiagnosticView>(d@),
            },
    {
        let ghost r0 = self@;
        let n = self.stack.len();
        if n == 0 {
            let out = Reader { stack: self.stack, root: Some(v), documents: self.documents };
            assert(out@.stack =~= r0.stack);
            return Ok(out);
        }
        assert(r0.stack.last() == frame_view(self.stack@[n - 1]));
        match &self.stack[n - 1] {
            Frame::Mapping { members, pending_key: Some(k) } => {
                if has_member(members, k.as_str()) {
                    let c = self.cursor();
                    let m = duplicate_message(k.as_str());
                    return Err(Diagnostic::syntax(DiagnosticCode::DuplicateMember, c.as_str(), m, Some(at)));
                }
            },
            Frame::Mapping { pending_key: None, .. } => {
                match &v {
                    JsonValue::Str(_) => {},
                    _ => {
                        let c = self.cursor();
                        let m = concat("mapping keys must be strings, got ", kind_name_of(&v));
                        return Err(Diagnostic::syntax(DiagnosticCode::InvalidType, c.as_str(), m, Some(at)));
                    },
                }
            },
            _ => {},
        }
        let mut stack = self.stack;
        let top = stack.pop().unwrap();
        assert(stack@ =~= self.stack@.drop_last());
        let f = match top {
            Frame::Sequence(mut items) => {
                proof {
                    lemma_item_views_push(items@, v);
                }
                items.push(v);
                Frame::Sequence(items)
            },
            Frame::Mapping { mut members, pending_key } => match pending_key {
                Some(k) => {
                    proof {
                        lemma_member_views_push(members@, k, v);
                    }
                    members.push((k, v));
                    Frame::Mapping { members, pending_key: None }
                },
                None => match v {
                    JsonValue::Str(k) => Frame::Mapping { members, pending_key: Some(k) },
                    _ => Frame::Mapping { members, pending_key: None },
                },
            },
        };
        stack.push(f);
        let out = Reader { stack, root: self.root, documents: self.documents };
        assert(out@.stack =~= r0.stack.drop_last().push(frame_view(f)));
        Ok(out)
    }

    fn refuse(&self, code: DiagnosticCode, message: &str, at: Mark) -> (d: Diagnostic)
        ensures
            d@ == syntax_error(code, stack_cursor(self@.stack), message@, Some(at)),
    {
        let c = self.cursor();
        Diagnostic::syntax(code, c.as_str(), String::from_str(message), Some(at))
    }

    fn scalar(self, text: &String, plain: bool, anchored: bool, tagged: bool, at: Mark) -> (r: Result<Reader, Diagnostic>)
        ensures
            match r {
                Ok(n) => scalar_step(self@, text@, plain, anchored, tagged, at) == Ok::<ReaderView, DiagnosticView>(n@),
                Err(d) => scalar_step(self@, text@, plain, anchored, tagged, at) == Err::<ReaderView, DiagnosticView>(d@),
            },
    {
        if anchored {
            return Err(self.refuse(DiagnosticCode::UnsupportedYamlFeature, "anchors and aliases are not part of the profile", at));
        }
        if tagged {
            return Err(self.refuse(DiagnosticCode::UnsupportedYamlFeature, "tags are not part of the profile", at));
        }
        if self.in_key_position() {
            if plain {
                if str_eq(text.as_str(), "<<") {
                    let c = self.cursor();
                    let c2 = concat(c.as_str(), "/<<");
                    return Err(
                        Diagnostic::syntax(
                            DiagnosticCode::UnsupportedYamlFeature,
                            c2.as_str(),
                            String::from_str("merge keys are not part of the profile"),
                            Some(at),
                        ),
                    );
                }
                match resolve_plain(text.as_str()) {
                    Ok(Resolved::Str(k)) => self.place(JsonValue::Str(k), at),
                    Err(m) => Err(self.refuse(DiagnosticCode::InvalidLiteral, m, at)),
                    Ok(_) => Err(self.refuse(DiagnosticCode::InvalidType, "mapping keys must be strings", at)),
                }
            } else {
                self.place(JsonValue::Str(text.clone()), at)
            }
        } else if plain {
            match resolve_plain(text.as_str()) {
                Ok(Resolved::Null) => self.place(JsonValue::Null, at),
                Ok(Resolved::Bool(b)) => self.place(JsonValue::Bool(b), at),
                Ok(Resolved::Number(l)) => self.place(JsonValue::Number(l), at),
                Ok(Resolved::Str(t)) => self.place(JsonValue::Str(t), at),
                Err(m) => Err(self.refuse(DiagnosticCode::InvalidLiteral, m, at)),
            }
        } else {
            self.place(JsonValue::Str(text.clone()), at)
        }
    }

    fn open(self, sequence: bool, anchored: bool, tagged: bool, at: Mark) -> (r: Result<Reader, Diagnostic>)
        ensures
            match r {
                Ok(n) => open_step(self@, sequence, anchored, tagged, at) == Ok::<ReaderView, DiagnosticView>(n@),
                Err(d) => open_step(self@, sequence, anchored, tagged, at) == Err::<ReaderView, DiagnosticView>(d@),
            },
    {
        if anchored || tagged {
            return Err(self.refuse(DiagnosticCode::UnsupportedYamlFeature, "anchors and tags are not part of the profile", at));
        }
        if self.in_key_position() {
            return Err(self.refuse(DiagnosticCode::InvalidType, "mapping keys must be strings", at));
        }
        if self.stack.len() >= MAX_DEPTH {
            return Err(self.refuse(DiagnosticCode::NestingTooDeep, "nesting deeper than 1000 levels", at));
        }
        let ghost r0 = self@;
        let f = if sequence {
            Frame::Sequence(Vec::new())
        } else {
            Frame::Mapping { members: Vec::new(), pending_key: None }
        };
        proof {
            assert(item_views(Seq::<JsonValue>::empty()) =~= Seq::<JsonView>::empty());
            assert(member_views(Seq::<(String, JsonValue)>::empty()) =~= Seq::<(Seq<char>, JsonView)>::empty());
        }
        let mut stack = self.stack;
        stack.push(f);
        let out = Reader { stack, root: self.root, documents: self.documents };
        assert(out@.stack =~= r0.stack.push(frame_view(f)));
        Ok(out)
    }

    fn close(self, at: Mark) -> (r: Result<Reader, Diagnostic>)
        requires
            self@.stack.len() > 0,
        ensures
            match r {
                Ok(n) => close_step(self@, at) == Ok::<ReaderView, DiagnosticView>(n@),
                Err(d) => close_step(self@, at) == Err::<ReaderView, DiagnosticView>(d@),
            },
    {
        let ghost r0 = self@;
        let mut stack = self.stack;
        let top = stack.pop().unwrap();
        assert(r0.stack.last() == frame_view(top));
        let v = match top {
            Frame::Sequence(items) => JsonValue::Array(items),
            Frame::Mapping { members, .. } => JsonValue::Object(members),
        };
        let rest = Reader { stack, root: self.root, documents: self.documents };
        assert(rest@.stack =~= r0.stack.drop_last());
        rest.place(v, at)
    }

    /// Reads one event, at the position `at`.
    pub fn step(self, e: &YamlEvent, at: Mark) -> (r: Result<Reader, Diagnostic>)
        requires
            (*e is SequenceEnd || *e is MappingEnd) ==> self@.stack.len() > 0,
        ensures
            match r {
                Ok(n) => step_spec(self@, *e, at) == Ok::<ReaderView, DiagnosticView>(n@),
                Err(d) => step_spec(self@, *e, at) == Err::<ReaderView, DiagnosticView>(d@),
            },
    {
        match e {
            YamlEvent::DocumentStart { has_version } => {
                if *has_version {
                    return Err(
                        Diagnostic::syntax(
                            DiagnosticCode::UnsupportedYamlFeature,
                            "",
                            String::from_str("%YAML directives are not part of the profile"),
                            Some(at),
                        ),
                    );
                }
                if self.documents >= 1 {
                    return Err(
                        Diagnostic::syntax(
                            DiagnosticCode::InvalidYaml,
                            "",
                            String::from_str("expected exactly one document"),
                            Some(at),
                        ),
                    );
                }
                let ghost r0 = self@;
                let out = Reader { stack: self.stack, root: self.root, documents: self.documents + 1 };
                assert(out@.stack =~= r0.stack);
                Ok(out)
            },
            YamlEvent::Alias => Err(
                self.refuse(DiagnosticCode::UnsupportedYamlFeature, "anchors and aliases are not part of the profile", at),
            ),
            YamlEvent::Scalar { text, plain, anchor, tagged } => self.scalar(text, *plain, *anchor != 0, *tagged, at),
            YamlEvent::SequenceStart { anchor, tagged } => self.open(true, *anchor != 0, *tagged, at),
            YamlEvent::MappingStart { anchor, tagged } => self.open(false, *anchor != 0, *tagged, at),
            YamlEvent::SequenceEnd => self.close(at),
            YamlEvent::MappingEnd => self.close(at),
            _ => Ok(self),
        }
    }

    /// The root value of the one document read.
    pub fn finish(self) -> (r: Result<JsonValue, Diagnostic>)
        ensures
            match r {
                Ok(v) => finish_spec(self@) == Ok::<JsonView, DiagnosticView>(v@),
                Err(d) => finish_spec(self@) == Err::<JsonView, DiagnosticView>(d@),
            },
    {
        match self.root {
            Some(v) => {
                if self.documents == 1 {
                    return Ok(v);
                }
            },
            None => {},
        }
        Err(
            Diagnostic::syntax(
                DiagnosticCode::InvalidYaml,
                "",
                String::from_str("expected exactly one document"),
                None,
            ),
        )
    }
}

// ---------------------------------------------------------------------------
// The whole read
// ---------------------------------------------------------------------------

/// A read that has seen nothing.
pub open spec fn initial_view() -> ReaderView {
    ReaderView { stack: Seq::<FrameView>::empty(), root: None, documents: 0 }
}

/// Reading `events` in turn from `r`, each at the line and zero-based column where it
/// starts; the first refusal ends the read.
pub open spec fn run_events(r: ReaderView, events: Seq<(YamlEvent, usize, usize)>) -> Result<ReaderView, DiagnosticView>
    decreases events.len(),
{
    if events.len() == 0 {
        Ok(r)
    } else {
        match step_spec(r, events[0].0, mark_spec(events[0].1, events[0].2)) {
            Ok(n) => run_events(n, events.drop_first()),
            Err(d) => Err(d),
        }
    }
}

/// A parser failure as plain values.
pub open spec fn failure_view(f: Option<(String, usize, usize)>) -> Option<(Seq<char>, usize, usize)> {
    match f {
        Some((m, l, c)) => Some((m@, l, c)),
        None => None,
    }
}

/// What reading the events a parser gave before it stopped, and the failure it stopped on if
/// any, yields: the events' first refusal; else the parser's failure, at the cursor of the
/// node being read; else the root value of the one document.
pub open spec fn read_events_spec(events: Seq<(YamlEvent, usize, usize)>, failure: Option<(Seq<char>, usize, usize)>) -> Result<
    JsonView,
    DiagnosticView,
> {
    match run_events(initial_view(), events) {
        Err(d) => Err(d),
        Ok(r) => match failure {
            Some((m, l, c)) => Err(
                syntax_error(DiagnosticCode::InvalidYaml, stack_cursor(r.stack), m, Some(mark_spec(l, c))),
            ),
            None => finish_spec(r),
        },
    }
}

/// Whether an event closes a sequence or a mapping.
pub open spec fn is_close(e: YamlEvent) -> bool {
    e is SequenceEnd || e is MappingEnd
}

/// How an event changes the number of open collections.
pub open spec fn depth_delta(e: YamlEvent) -> int {
    if e is SequenceStart || e is MappingStart {
        1
    } else if is_close(e) {
        -1
    } else {
        0
    }
}

/// The number of collections `events` leave open.
pub open spec fn net_depth(events: Seq<(YamlEvent, usize, usize)>) -> int
    decreases events.len(),
{
    if events.len() == 0 {
        0
    } else {
        net_depth(events.drop_last()) + depth_delta(events.last().0)
    }
}

/// Whether every close event closes a collection that is open.
pub open spec fn balanced(events: Seq<(YamlEvent, usize, usize)>) -> bool {
    forall|i: int| 0 <= i < events.len() && is_close(#[trigger] events[i].0) ==> net_depth(events.take(i)) > 0
}

proof fn lemma_place_depth(r: ReaderView, v: JsonView, at: Mark)
    ensures
        place_spec(r, v, at) is Ok ==> place_spec(r, v, at)->Ok_0.stack.len() == r.stack.len(),
{
}

proof fn lemma_step_depth(r: ReaderView, e: YamlEvent, at: Mark)
    requires
        is_close(e) ==> r.stack.len() > 0,
    ensures
        step_spec(r, e, at) is Ok ==> step_spec(r, e, at)->Ok_0.stack.len() == r.stack.len() + depth_delta(e),
{
    match e {
        YamlEvent::Scalar { text, plain, anchor, tagged } => {
            let cursor = stack_cursor(r.stack);
            lemma_place_depth(r, JsonView::Str(text@), at);
            match plain_resolution(text@) {
                Resolution::Str(k) => lemma_place_depth(r, JsonView::Str(k), at),
                _ => {},
            }
            match scalar_value(text@, plain) {
                Ok(v) => lemma_place_depth(r, v, at),
                _ => {},
            }
        },
        YamlEvent::SequenceEnd | YamlEvent::MappingEnd => {
            let v = match r.stack.last() {
                FrameView::Sequence(items) => JsonView::Array(items),
                FrameView::Mapping { members, .. } => JsonView::Object(members),
            };
            lemma_place_depth(ReaderView { stack: r.stack.drop_last(), root: r.root, documents: r.documents }, v, at);
        },
        _ => {},
    }
}

/// Whether every close event among `events` closes an open collection.
pub fn events_balanced(events: &Vec<(YamlEvent, usize, usize)>) -> (b: bool)
    ensures
        b == balanced(events@),
{
    let mut depth: usize = 0;
    let mut i: usize = 0;
    assert(events@.take(0) =~= Seq::<(YamlEvent, usize, usize)>::empty());
    while i < events.len()
        invariant
            i <= events@.len(),
            depth <= i,
            depth == net_depth(events@.take(i as int)),
            forall|j: int| 0 <= j < i && is_close(#[trigger] events@[j].0) ==> net_depth(events@.take(j)) > 0,
        decreases events.len() - i,
    {
        assert(events@.take(i as int + 1).drop_last() =~= events@.take(i as int));
        match &events[i].0 {
            YamlEvent::SequenceStart { .. } => {
                depth = depth + 1;
            },
            YamlEvent::MappingStart { .. } => {
                depth = depth + 1;
            },
            YamlEvent::SequenceEnd => {
                if depth == 0 {
                    return false;
                }
                depth = depth - 1;
            },
            YamlEvent::MappingEnd => {
                if depth == 0 {
                    return false;
                }
                depth = depth - 1;
            },
            _ => {},
        }
        i = i + 1;
    }
    true
}

/// Reads the events a parser gave before it stopped, and the failure it stopped on if any,
/// into the value tree.
pub fn read_events(events: &Vec<(YamlEvent, usize, usize)>, failure: Option<(String, usize, usize)>) -> (r: Result<
    JsonValue,
    Diagnostic,
>)
    requires
        balanced(events@),
    ensures
        match r {
            Ok(v) => read_events_spec(events@, failure_view(failure)) == Ok::<JsonView, DiagnosticView>(v@),
            Err(d) => read_events_spec(events@, failure_view(failure)) == Err::<JsonView, DiagnosticView>(d@),
        },
{
    let mut reader = Reader::new();
    assert(reader@ == initial_view()) by {
        assert(reader@.stack =~= Seq::<FrameView>::empty());
    }
    let mut i: usize = 0;
    assert(events@.skip(0) =~= events@);
    assert(events@.take(0) =~= Seq::<(YamlEvent, usize, usize)>::empty());
    while i < events.len()
        invariant
            i <= events@.len(),
            balanced(events@),
            reader@.stack.len() == net_depth(events@.take(i as int)),
            run_events(initial_view(), events@) == run_events(reader@, events@.skip(i as int)),
        decreases events.len() - i,
    {
        let ghost before = reader@;
        let ghost ev = events@[i as int];
        assert(events@.take(i as int + 1).drop_last() =~= events@.take(i as int));
        assert(events@.skip(i as int).drop_first() =~= events@.skip(i as int + 1));
        assert(events@.skip(i as int)[0] == ev);
        let at = mark_of(events[i].1, events[i].2);
        proof {
            lemma_step_depth(before, ev.0, at);
        }
        reader = match reader.step(&events[i].0, at) {
            Ok(n) => n,
            Err(d) => {
                return Err(d);
            },
        };
        i = i + 1;
    }
    assert(events@.skip(i as int) =~= Seq::<(YamlEvent, usize, usize)>::empty());
    match failure {
        Some((m, l, c)) => Err(reader.parse_error(m, mark_of(l, c))),
        None => reader.finish(),
    }
}

/// What `granit_parser` reads from `text` with comments not emitted and both nesting limits set
/// to `limit`: the events
/// it gives, each with the line and zero-based column where it starts, up to the failure it
/// stops on, if any, by its description and position.
pub uninterp spec fn yaml_event_stream(text: Seq<char>, limit: usize) -> (
    Seq<(YamlEvent, usize, usize)>,
    Option<(Seq<char>, usize, usize)>,
);

#[verifier::external_type_specification]
#[verifier::external_body]
pub struct ExParserEvent<'a>(Event<'a>);

/// One `granit_parser::Event` as the profile reads it: a scalar keeps its text, whether its
/// style is plain, its anchor id and whether it carries a tag; a collection start its anchor
/// id and whether it carries a tag; a document start whether it declared a version; the
/// events the profile does not read become `Other`. Part of [`yaml_events`], which states
/// what the events come to.
#[verifier::external_body]
fn yaml_event_of(e: Event<'_>) -> YamlEvent {
    match e {
        Event::DocumentStart(_, v) => YamlEvent::DocumentStart { has_version: v.is_some() },
        Event::Alias(_) => YamlEvent::Alias,
        Event::Scalar(t, s, a, g) => YamlEvent::Scalar { text: t.into_owned(), plain: s == ScalarStyle::Plain, anchor: a, tagged: g.is_some() },
        Event::SequenceStart(_, a, g) => YamlEvent::SequenceStart { anchor: a, tagged: g.is_some() },
        Event::MappingStart(_, a, g) => YamlEvent::MappingStart { anchor: a, tagged: g.is_some() },
        Event::SequenceEnd => YamlEvent::SequenceEnd,
        Event::MappingEnd => YamlEvent::MappingEnd,
        _ => YamlEvent::Other,
    }
}

/// `granit_parser::Parser::new_from_str_with_options`, iterated with comments not emitted and
/// both nesting limits set to `limit`: the events up to the first failure, each as `yaml_event_of` reads it with the
/// line and zero-based column where it starts, and that failure's description and position,
/// as [`yaml_event_stream`] names them.
#[verifier::external_body]
fn yaml_events(text: &str, limit: usize) -> (r: (Vec<(YamlEvent, usize, usize)>, Option<(String, usize, usize)>))
    ensures
        (r.0@, failure_view(r.1)) == yaml_event_stream(text@, limit),
{
    let mut o = Options::default();
    o.emit_comments = false;
    o.flow_nesting_limit = limit;
    o.block_nesting_limit = limit;
    let mut events = Vec::new();
    for item in Parser::new_from_str_with_options(text, o) {
        match item {
            Ok((e, s)) => events.push((yaml_event_of(e), s.start.line(), s.start.col())),
            Err(e) => return (events, Some((e.info(), e.marker().line(), e.marker().col()))),
        }
    }
    (events, None)
}

/// The diagnostic for a parser whose events do not balance.
pub open spec fn unbalanced_error() -> DiagnosticView {
    syntax_error(DiagnosticCode::InvalidYaml, ""@, "the parser's events do not balance"@, None)
}

/// What reading `text` yields: a stream that opens with a directive is refused; else the
/// parser's events are read, with both its nesting limits set above the reader's own bound.
pub open spec fn read_spec(text: Seq<char>) -> Result<JsonView, DiagnosticView> {
    if has_directive(text) {
        Err(
            syntax_error(
                DiagnosticCode::UnsupportedYamlFeature,
                ""@,
                "%YAML and %TAG directives are not part of the profile"@,
                None,
            ),
        )
    } else {
        let (events, failure) = yaml_event_stream(text, (MAX_DEPTH + 8) as usize);
        if balanced(events) {
            read_events_spec(events, failure)
        } else {
            Err(unbalanced_error())
        }
    }
}

proof fn lemma_step_syntax(r: ReaderView, e: YamlEvent, at: Mark)
    ensures
        step_spec(r, e, at) matches Err(d) ==> d.stage == DiagnosticStage::Syntax,
{
    match e {
        YamlEvent::SequenceEnd | YamlEvent::MappingEnd => {
            let v = match r.stack.last() {
                FrameView::Sequence(items) => JsonView::Array(items),
                FrameView::Mapping { members, .. } => JsonView::Object(members),
            };
        },
        _ => {},
    }
}

proof fn lemma_run_syntax(r: ReaderView, events: Seq<(YamlEvent, usize, usize)>)
    ensures
        run_events(r, events) matches Err(d) ==> d.stage == DiagnosticStage::Syntax,
    decreases events.len(),
{
    if events.len() > 0 {
        lemma_step_syntax(r, events[0].0, mark_spec(events[0].1, events[0].2));
        match step_spec(r, events[0].0, mark_spec(events[0].1, events[0].2)) {
            Ok(n) => lemma_run_syntax(n, events.drop_first()),
            Err(_) => {},
        }
    }
}

/// Every refusal of the reader is raised in the syntax stage.
pub proof fn lemma_read_refusals_are_syntax(text: Seq<char>)
    ensures
        read_spec(text) matches Err(d) ==> d.stage == DiagnosticStage::Syntax,
{
    let (events, failure) = yaml_event_stream(text, (MAX_DEPTH + 8) as usize);
    lemma_run_syntax(initial_view(), events);
}

/// Reads one profile-conforming YAML document into the JSON value tree.
pub fn read(text: &str) -> (r: Result<JsonValue, Diagnostic>)
    ensures
        match r {
            Ok(v) => read_spec(text@) == Ok::<JsonView, DiagnosticView>(v@),
            Err(d) => read_spec(text@) == Err::<JsonView, DiagnosticView>(d@),
        },
{
    match check_directives(text) {
        Err(d) => {
            return Err(d);
        },
        Ok(_) => {},
    }
    let (events, failure) = yaml_events(text, MAX_DEPTH + 8);
    if !events_balanced(&events) {
        return Err(
            Diagnostic::syntax(
                DiagnosticCode::InvalidYaml,
                "",
                String::from_str("the parser's events do not balance"),
                None,
            ),
        );
    }
    read_events(&events, failure)
}

} // verus!
