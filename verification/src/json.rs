//! A JSON value as the library reads it.

use vstd::prelude::*;
use vstd::utf8::encode_utf8;
use crate::text::str_eq;

verus! {

/// A JSON value: a number by its JSON spelling, an object's members in the order the map it
/// came from walks them.
#[derive(Debug, PartialEq, Eq)]
pub enum JsonValue {
    Null,
    Bool(bool),
    Number(String),
    Str(String),
    Array(Vec<JsonValue>),
    Object(Vec<(String, JsonValue)>),
}

/// A JSON value as plain values.
pub enum JsonView {
    Null,
    Bool(bool),
    Number(Seq<char>),
    Str(Seq<char>),
    Array(Seq<JsonView>),
    Object(Seq<(Seq<char>, JsonView)>),
}

pub open spec fn json_view(v: JsonValue) -> JsonView
    decreases v,
{
    match v {
        JsonValue::Null => JsonView::Null,
        JsonValue::Bool(b) => JsonView::Bool(b),
        JsonValue::Number(n) => JsonView::Number(n@),
        JsonValue::Str(s) => JsonView::Str(s@),
        JsonValue::Array(items) => JsonView::Array(item_views(items@)),
        JsonValue::Object(ms) => JsonView::Object(member_views(ms@)),
    }
}

pub open spec fn item_views(items: Seq<JsonValue>) -> Seq<JsonView>
    decreases items,
{
    if items.len() == 0 {
        Seq::<JsonView>::empty()
    } else {
        item_views(items.drop_last()).push(json_view(items.last()))
    }
}

pub open spec fn member_views(ms: Seq<(String, JsonValue)>) -> Seq<(Seq<char>, JsonView)>
    decreases ms,
{
    if ms.len() == 0 {
        Seq::<(Seq<char>, JsonView)>::empty()
    } else {
        member_views(ms.drop_last()).push((ms.last().0@, json_view(ms.last().1)))
    }
}

impl View for JsonValue {
    type V = JsonView;

    open spec fn view(&self) -> JsonView {
        json_view(*self)
    }
}

pub proof fn lemma_item_views(items: Seq<JsonValue>)
    ensures
        item_views(items).len() == items.len(),
        forall|i: int| 0 <= i < items.len() ==> #[trigger] item_views(items)[i] == json_view(items[i]),
    decreases items.len(),
{
    if items.len() > 0 {
        lemma_item_views(items.drop_last());
        assert forall|i: int| 0 <= i < items.len() implies #[trigger] item_views(items)[i] == json_view(items[i]) by {
            if i < items.len() - 1 {
                assert(items.drop_last()[i] == items[i]);
            }
        }
    }
}

pub proof fn lemma_member_views(ms: Seq<(String, JsonValue)>)
    ensures
        member_views(ms).len() == ms.len(),
        forall|i: int| 0 <= i < ms.len() ==> #[trigger] member_views(ms)[i] == (ms[i].0@, json_view(ms[i].1)),
    decreases ms.len(),
{
    if ms.len() > 0 {
        lemma_member_views(ms.drop_last());
        assert forall|i: int| 0 <= i < ms.len() implies #[trigger] member_views(ms)[i] == (ms[i].0@, json_view(ms[i].1)) by {
            if i < ms.len() - 1 {
                assert(ms.drop_last()[i] == ms[i]);
            }
        }
    }
}

// ---------------------------------------------------------------------------
// Text
// ---------------------------------------------------------------------------

/// The lowercase hexadecimal digit for `d`, below 16.
pub open spec fn hex_lower(d: u32) -> char {
    if d < 10 {
        ((d + 48) as u32) as char
    } else {
        ((d + 87) as u32) as char
    }
}

/// How `serde_json` writes one character inside a string literal: `"` and `\` behind a
/// backslash; backspace, tab, line feed, form feed and carriage return as `\b`, `\t`,
/// `\n`, `\f` and `\r`; the other control characters below U+0020 as `\u00` and two
/// lowercase hexadecimal digits; every other character as it is.
pub open spec fn escaped_char(c: char) -> Seq<char> {
    let n = c as u32;
    if c == '"' {
        seq!['\\', '"']
    } else if c == '\\' {
        seq!['\\', '\\']
    } else if n == 8 {
        seq!['\\', 'b']
    } else if n == 9 {
        seq!['\\', 't']
    } else if n == 10 {
        seq!['\\', 'n']
    } else if n == 12 {
        seq!['\\', 'f']
    } else if n == 13 {
        seq!['\\', 'r']
    } else if n < 32 {
        seq!['\\', 'u', '0', '0', hex_lower(n / 16), hex_lower(n % 16)]
    } else {
        seq![c]
    }
}

/// The characters of `s`, each written as [`escaped_char`] writes it.
pub open spec fn escaped_text(s: Seq<char>) -> Seq<char>
    decreases s.len(),
{
    if s.len() == 0 {
        Seq::<char>::empty()
    } else {
        escaped_text(s.drop_last()) + escaped_char(s.last())
    }
}

/// What `serde_json` writes for a string: its characters escaped, between double quotes.
pub open spec fn json_string_literal(s: Seq<char>) -> Seq<char> {
    seq!['"'] + escaped_text(s) + seq!['"']
}

/// `serde_json::to_string` on a string: the JSON string literal that spells it, escaped as
/// [`escaped_char`] states; serializing a string cannot fail.
#[verifier::external_body]
pub(crate) fn json_quote(s: &str) -> (r: String)
    ensures
        r@ == json_string_literal(s@),
{
    serde_json::to_string(s).unwrap_or_default()
}

fn push_str_bytes(out: &mut Vec<u8>, s: &str)
    ensures
        final(out)@ == old(out)@ + encode_utf8(s@),
{
    let bytes = s.as_bytes();
    let ghost start = out@;
    let mut i: usize = 0;
    while i < bytes.len()
        invariant
            i <= bytes@.len(),
            bytes@ == encode_utf8(s@),
            out@ == start + bytes@.take(i as int),
        decreases bytes.len() - i,
    {
        out.push(bytes[i]);
        assert(out@ =~= start + bytes@.take(i as int + 1));
        i = i + 1;
    }
    assert(bytes@.take(i as int) =~= bytes@);
}

// ---------------------------------------------------------------------------
// Canonical bytes
// ---------------------------------------------------------------------------

pub open spec fn byte(c: char) -> Seq<u8> {
    encode_utf8(seq![c])
}

/// The position member `j` takes among the member indices `order`, which are in key order:
/// after every key it does not sort before.
pub open spec fn insert_by_key(keys: Seq<Seq<char>>, order: Seq<int>, j: int) -> Seq<int>
    decreases order.len(),
{
    if order.len() == 0 {
        seq![j]
    } else if crate::metadata::context::key_lt(keys[j], keys[order[0]]) {
        seq![j] + order
    } else {
        seq![order[0]] + insert_by_key(keys, order.drop_first(), j)
    }
}

/// The indices of the first `n` keys in key order.
pub open spec fn key_order(keys: Seq<Seq<char>>, n: int) -> Seq<int>
    decreases n,
{
    if n <= 0 {
        Seq::<int>::empty()
    } else {
        insert_by_key(keys, key_order(keys, n - 1), n - 1)
    }
}

pub open spec fn member_keys(ms: Seq<(Seq<char>, JsonView)>) -> Seq<Seq<char>> {
    ms.map_values(|m: (Seq<char>, JsonView)| m.0)
}

/// The canonical bytes of a value: `null`, `true` and `false`; a number as spelled; a string
/// as its JSON literal; arrays in order and objects in key order, with no white space.
pub open spec fn canonical_json(v: JsonView) -> Seq<u8>
    decreases v, 0int,
{
    match v {
        JsonView::Null => encode_utf8("null"@),
        JsonView::Bool(b) => if b {
            encode_utf8("true"@)
        } else {
            encode_utf8("false"@)
        },
        JsonView::Number(n) => encode_utf8(n),
        JsonView::Str(s) => encode_utf8(json_string_literal(s)),
        JsonView::Array(items) => byte('[') + canonical_items(items, items.len() as int) + byte(']'),
        JsonView::Object(ms) => byte('{') + canonical_members(
            ms,
            key_order(member_keys(ms), ms.len() as int),
            ms.len() as int,
        ) + byte('}'),
    }
}

/// The first `n` items, comma-separated.
pub open spec fn canonical_items(items: Seq<JsonView>, n: int) -> Seq<u8>
    decreases items, n,
{
    if n <= 0 || n > items.len() {
        Seq::<u8>::empty()
    } else {
        canonical_items(items, n - 1) + (if n > 1 {
            byte(',')
        } else {
            Seq::<u8>::empty()
        }) + canonical_json(items[n - 1])
    }
}

/// The members at the first `n` positions of `order`, each as its key's literal, `:` and its
/// value, comma-separated.
pub open spec fn canonical_members(ms: Seq<(Seq<char>, JsonView)>, order: Seq<int>, n: int) -> Seq<u8>
    decreases ms, n,
{
    if n <= 0 || n > order.len() {
        Seq::<u8>::empty()
    } else {
        let j = order[n - 1];
        canonical_members(ms, order, n - 1) + (if n > 1 {
            byte(',')
        } else {
            Seq::<u8>::empty()
        }) + if 0 <= j < ms.len() {
            encode_utf8(json_string_literal(ms[j].0)) + byte(':') + canonical_json(ms[j].1)
        } else {
            Seq::<u8>::empty()
        }
    }
}

proof fn lemma_insert_at(keys: Seq<Seq<char>>, order: Seq<int>, j: int, i: int)
    requires
        0 <= i <= order.len(),
        forall|q: int| 0 <= q < i ==> !crate::metadata::context::key_lt(keys[j], #[trigger] keys[order[q]]),
        i < order.len() ==> crate::metadata::context::key_lt(keys[j], keys[order[i]]),
    ensures
        insert_by_key(keys, order, j) == order.take(i) + seq![j] + order.skip(i),
    decreases i,
{
    if i == 0 {
        assert(order.take(0) + seq![j] + order.skip(0) =~= seq![j] + order);
    } else {
        let rest = order.drop_first();
        assert forall|q: int| 0 <= q < i - 1 implies !crate::metadata::context::key_lt(keys[j], #[trigger] keys[rest[q]]) by {
            assert(rest[q] == order[q + 1]);
        }
        if i < order.len() {
            assert(rest[i - 1] == order[i]);
        }
        lemma_insert_at(keys, rest, j, i - 1);
        assert(!crate::metadata::context::key_lt(keys[j], keys[order[0]]));
        assert(seq![order[0]] + (rest.take(i - 1) + seq![j] + rest.skip(i - 1)) =~= order.take(i)
            + seq![j] + order.skip(i));
    }
}

pub open spec fn int_views(v: Seq<usize>) -> Seq<int> {
    v.map_values(|x: usize| x as int)
}

/// The member indices of `ms` in key order.
fn key_order_of(ms: &Vec<(String, JsonValue)>) -> (r: Vec<usize>)
    ensures
        int_views(r@) == key_order(member_keys(member_views(ms@)), ms@.len() as int),
        forall|q: int| 0 <= q < r@.len() ==> (#[trigger] r@[q]) < ms@.len(),
        r@.len() == ms@.len(),
{
    let ghost keys = member_keys(member_views(ms@));
    proof {
        lemma_member_views(ms@);
    }
    let mut order: Vec<usize> = Vec::new();
    let mut j: usize = 0;
    while j < ms.len()
        invariant
            j <= ms.len(),
            keys == member_keys(member_views(ms@)),
            member_views(ms@).len() == ms@.len(),
            forall|k: int| 0 <= k < ms@.len() ==> #[trigger] keys[k] == ms@[k].0@,
            int_views(order@) == key_order(keys, j as int),
            order@.len() == j,
            forall|q: int| 0 <= q < order@.len() ==> (#[trigger] order@[q]) < j,
        decreases ms.len() - j,
    {
        let mut p: usize = 0;
        while p < order.len() && !crate::metadata::context::key_less(
            ms[j].0.as_str(),
            ms[order[p]].0.as_str(),
        )
            invariant
                p <= order@.len(),
                j < ms@.len(),
                keys == member_keys(member_views(ms@)),
                forall|k: int| 0 <= k < ms@.len() ==> #[trigger] keys[k] == ms@[k].0@,
                forall|q: int| 0 <= q < order@.len() ==> (#[trigger] order@[q]) < j,
                forall|q: int| 0 <= q < p ==> !crate::metadata::context::key_lt(keys[j as int], #[trigger] keys[int_views(order@)[q]]),
            decreases order.len() - p,
        {
            assert(int_views(order@)[p as int] == order@[p as int] as int);
            p = p + 1;
        }
        proof {
            if p < order@.len() {
                assert(int_views(order@)[p as int] == order@[p as int] as int);
            }
            lemma_insert_at(keys, int_views(order@), j as int, p as int);
        }
        let ghost before = order@;
        order.insert(p, j);
        assert(int_views(order@) =~= int_views(before).take(p as int) + seq![j as int] + int_views(before).skip(p as int));
        j = j + 1;
    }
    order
}

proof fn lemma_punctuation()
    ensures
        encode_utf8("["@) == byte('['),
        encode_utf8("]"@) == byte(']'),
        encode_utf8("{"@) == byte('{'),
        encode_utf8("}"@) == byte('}'),
        encode_utf8(","@) == byte(','),
        encode_utf8(":"@) == byte(':'),
{
    reveal_strlit("[");
    reveal_strlit("]");
    reveal_strlit("{");
    reveal_strlit("}");
    reveal_strlit(",");
    reveal_strlit(":");
    assert("["@ =~= seq!['[']);
    assert("]"@ =~= seq![']']);
    assert("{"@ =~= seq!['{']);
    assert("}"@ =~= seq!['}']);
    assert(","@ =~= seq![',']);
    assert(":"@ =~= seq![':']);
}

/// Appends the canonical bytes of `v`.
pub fn write_canonical_json(v: &JsonValue, out: &mut Vec<u8>)
    ensures
        final(out)@ == old(out)@ + canonical_json(v@),
    decreases v,
{
    let ghost start = out@;
    proof {
        lemma_punctuation();
    }
    match v {
        JsonValue::Null => push_str_bytes(out, "null"),
        JsonValue::Bool(b) => {
            if *b {
                push_str_bytes(out, "true");
            } else {
                push_str_bytes(out, "false");
            }
        },
        JsonValue::Number(n) => push_str_bytes(out, n.as_str()),
        JsonValue::Str(s) => {
            let quoted = json_quote(s.as_str());
            push_str_bytes(out, quoted.as_str());
        },
        JsonValue::Array(items) => {
            let ghost iv = item_views(items@);
            proof {
                lemma_item_views(items@);
            }
            push_str_bytes(out, "[");
            assert(out@ =~= start + byte('[') + canonical_items(iv, 0));
            let mut i: usize = 0;
            while i < items.len()
                invariant
                    i <= items@.len(),
                    *v == JsonValue::Array(*items),
                    iv == item_views(items@),
                    iv.len() == items@.len(),
                    forall|k: int| 0 <= k < items@.len() ==> #[trigger] iv[k] == json_view(items@[k]),
                    out@ == start + byte('[') + canonical_items(iv, i as int),
                decreases items.len() - i,
            {
                if i > 0 {
                    push_str_bytes(out, ",");
                }
                proof {
                    lemma_punctuation();
                    assert(*v == JsonValue::Array(*items));
                    assert(decreases_to!(*v => (*v)->Array_0));
                    assert(decreases_to!(*items => items@));
                    assert(decreases_to!(items@ => items@[i as int]));
                }
                write_canonical_json(&items[i], out);
                assert(canonical_items(iv, i as int + 1) == canonical_items(iv, i as int) + (if i
                    + 1 > 1 {
                    byte(',')
                } else {
                    Seq::<u8>::empty()
                }) + canonical_json(iv[i as int]));
                assert(out@ =~= start + byte('[') + canonical_items(iv, i as int + 1));
                i = i + 1;
            }
            push_str_bytes(out, "]");
            assert(out@ =~= start + canonical_json(v@));
        },
        JsonValue::Object(ms) => {
            let ghost mv = member_views(ms@);
            proof {
                lemma_member_views(ms@);
            }
            let order = key_order_of(ms);
            let ghost ord = int_views(order@);
            push_str_bytes(out, "{");
            assert(out@ =~= start + byte('{') + canonical_members(mv, ord, 0));
            let mut k: usize = 0;
            while k < order.len()
                invariant
                    k <= order@.len(),
                    *v == JsonValue::Object(*ms),
                    order@.len() == ms@.len(),
                    mv == member_views(ms@),
                    mv.len() == ms@.len(),
                    forall|q: int| 0 <= q < ms@.len() ==> #[trigger] mv[q] == (ms@[q].0@, json_view(ms@[q].1)),
                    ord == int_views(order@),
                    ord == key_order(member_keys(mv), ms@.len() as int),
                    forall|q: int| 0 <= q < order@.len() ==> (#[trigger] order@[q]) < ms@.len(),
                    out@ == start + byte('{') + canonical_members(mv, ord, k as int),
                decreases order.len() - k,
            {
                if k > 0 {
                    push_str_bytes(out, ",");
                }
                let j = order[k];
                assert(ord[k as int] == j as int);
                let quoted = json_quote(ms[j].0.as_str());
                push_str_bytes(out, quoted.as_str());
                push_str_bytes(out, ":");
                proof {
                    lemma_punctuation();
                    assert(*v == JsonValue::Object(*ms));
                    assert(decreases_to!(*v => (*v)->Object_0));
                    assert(decreases_to!(*ms => ms@));
                    assert(decreases_to!(ms@ => ms@[j as int]));
                    assert(decreases_to!(ms@[j as int] => ms@[j as int].1));
                }
                write_canonical_json(&ms[j].1, out);
                assert(canonical_members(mv, ord, k as int + 1) == canonical_members(mv, ord, k as int)
                    + (if k + 1 > 1 {
                    byte(',')
                } else {
                    Seq::<u8>::empty()
                }) + (encode_utf8(json_string_literal(mv[j as int].0)) + byte(':') + canonical_json(
                    mv[j as int].1,
                )));
                assert(out@ =~= start + byte('{') + canonical_members(mv, ord, k as int + 1));
                k = k + 1;
            }
            push_str_bytes(out, "}");
            assert(out@ =~= start + canonical_json(v@));
        },
    }
}

// ---------------------------------------------------------------------------
// Copies and semantic stripping
// ---------------------------------------------------------------------------

pub proof fn lemma_item_views_push(items: Seq<JsonValue>, x: JsonValue)
    ensures
        item_views(items.push(x)) == item_views(items).push(json_view(x)),
{
    assert(items.push(x).drop_last() =~= items);
}

pub proof fn lemma_member_views_push(ms: Seq<(String, JsonValue)>, k: String, x: JsonValue)
    ensures
        member_views(ms.push((k, x))) == member_views(ms).push((k@, json_view(x))),
{
    assert(ms.push((k, x)).drop_last() =~= ms);
}

impl JsonValue {
    /// A value equal to this one.
    pub fn duplicate(&self) -> (r: JsonValue)
        ensures
            r@ == self@,
        decreases self,
    {
        match self {
            JsonValue::Null => JsonValue::Null,
            JsonValue::Bool(b) => JsonValue::Bool(*b),
            JsonValue::Number(n) => JsonValue::Number(n.clone()),
            JsonValue::Str(t) => JsonValue::Str(t.clone()),
            JsonValue::Array(items) => {
                let mut out: Vec<JsonValue> = Vec::new();
                let mut i: usize = 0;
                proof {
                    lemma_item_views(items@);
                }
                assert(item_views(out@) =~= item_views(items@).take(0));
                while i < items.len()
                    invariant
                        i <= items@.len(),
                        *self == JsonValue::Array(*items),
                        item_views(items@).len() == items@.len(),
                        forall|k: int| 0 <= k < items@.len() ==> #[trigger] item_views(items@)[k] == json_view(items@[k]),
                        item_views(out@) == item_views(items@).take(i as int),
                    decreases items.len() - i,
                {
                    proof {
                        assert(self->Array_0 == *items);
                        assert(decreases_to!(*self => (*self)->Array_0));
                        assert(decreases_to!(*items => items@));
                        assert(decreases_to!(items@ => items@[i as int]));
                    }
                    let x = items[i].duplicate();
                    proof {
                        lemma_item_views_push(out@, x);
                    }
                    out.push(x);
                    assert(item_views(items@).take(i as int + 1) =~= item_views(items@).take(i as int).push(item_views(items@)[i as int]));
                    i = i + 1;
                }
                assert(item_views(items@).take(i as int) =~= item_views(items@));
                JsonValue::Array(out)
            },
            JsonValue::Object(ms) => {
                let mut out: Vec<(String, JsonValue)> = Vec::new();
                let mut i: usize = 0;
                proof {
                    lemma_member_views(ms@);
                }
                assert(member_views(out@) =~= member_views(ms@).take(0));
                while i < ms.len()
                    invariant
                        i <= ms@.len(),
                        *self == JsonValue::Object(*ms),
                        member_views(ms@).len() == ms@.len(),
                        forall|k: int| 0 <= k < ms@.len() ==> #[trigger] member_views(ms@)[k] == (ms@[k].0@, json_view(ms@[k].1)),
                        member_views(out@) == member_views(ms@).take(i as int),
                    decreases ms.len() - i,
                {
                    proof {
                        assert(self->Object_0 == *ms);
                        assert(decreases_to!(*self => (*self)->Object_0));
                        assert(decreases_to!(*ms => ms@));
                        assert(decreases_to!(ms@ => ms@[i as int]));
                        assert(decreases_to!(ms@[i as int] => ms@[i as int].1));
                    }
                    let x = ms[i].1.duplicate();
                    let k = ms[i].0.clone();
                    proof {
                        lemma_member_views_push(out@, k, x);
                    }
                    out.push((k, x));
                    assert(member_views(ms@).take(i as int + 1) =~= member_views(ms@).take(i as int).push(member_views(ms@)[i as int]));
                    i = i + 1;
                }
                assert(member_views(ms@).take(i as int) =~= member_views(ms@));
                JsonValue::Object(out)
            },
        }
    }
}

/// The index of the first member named `k`.
pub open spec fn first_member(ms: Seq<(Seq<char>, JsonView)>, k: Seq<char>) -> Option<int>
    decreases ms.len(),
{
    if ms.len() == 0 {
        None
    } else if ms.last().0 == k && first_member(ms.drop_last(), k) is None {
        Some(ms.len() - 1)
    } else {
        first_member(ms.drop_last(), k)
    }
}

/// `ms` without the members named `k`.
pub open spec fn without_member(ms: Seq<(Seq<char>, JsonView)>, k: Seq<char>) -> Seq<(Seq<char>, JsonView)> {
    ms.filter(|m: (Seq<char>, JsonView)| m.0 != k)
}

/// An object's members with the nonsemantic attributes removed: a member `attributes` that
/// holds an object loses its `source` and `extensions`, and goes when nothing else is left.
pub open spec fn drop_nonsemantic(ms: Seq<(Seq<char>, JsonView)>) -> Seq<(Seq<char>, JsonView)> {
    match first_member(ms, "attributes"@) {
        Some(i) => match ms[i].1 {
            JsonView::Object(a) => {
                let kept = without_member(without_member(a, "source"@), "extensions"@);
                if kept.len() == 0 {
                    ms.remove(i)
                } else {
                    ms.update(i, (ms[i].0, JsonView::Object(kept)))
                }
            },
            _ => ms,
        },
        None => ms,
    }
}

/// A value with its source coordinates and tool extensions stripped, at every depth: they
/// locate or annotate a node without changing what it is. A document literal's members are
/// data and are left alone.
pub open spec fn strip_view(v: JsonView) -> JsonView
    decreases v, 0int,
{
    match v {
        JsonView::Array(items) => JsonView::Array(strip_items(items, items.len() as int)),
        JsonView::Object(ms) => if first_member(ms, "DocumentLiteral"@) is Some {
            v
        } else {
            JsonView::Object(drop_nonsemantic(strip_members(ms, ms.len() as int)))
        },
        _ => v,
    }
}

pub open spec fn strip_items(items: Seq<JsonView>, n: int) -> Seq<JsonView>
    decreases items, n,
{
    if n <= 0 || n > items.len() {
        Seq::<JsonView>::empty()
    } else {
        strip_items(items, n - 1).push(strip_view(items[n - 1]))
    }
}

pub open spec fn strip_members(ms: Seq<(Seq<char>, JsonView)>, n: int) -> Seq<(Seq<char>, JsonView)>
    decreases ms, n,
{
    if n <= 0 || n > ms.len() {
        Seq::<(Seq<char>, JsonView)>::empty()
    } else {
        strip_members(ms, n - 1).push((ms[n - 1].0, strip_view(ms[n - 1].1)))
    }
}

pub proof fn lemma_first_member(ms: Seq<(Seq<char>, JsonView)>, k: Seq<char>)
    ensures
        match first_member(ms, k) {
            Some(i) => 0 <= i < ms.len() && ms[i].0 == k && forall|j: int| 0 <= j < i ==> (#[trigger] ms[j]).0 != k,
            None => forall|j: int| 0 <= j < ms.len() ==> (#[trigger] ms[j]).0 != k,
        },
    decreases ms.len(),
{
    if ms.len() > 0 {
        let init = ms.drop_last();
        lemma_first_member(init, k);
        match first_member(init, k) {
            Some(i) => {
                assert forall|j: int| 0 <= j < i implies (#[trigger] ms[j]).0 != k by {
                    assert(init[j] == ms[j]);
                }
                assert(init[i] == ms[i]);
            },
            None => {
                assert forall|j: int| 0 <= j < ms.len() - 1 implies (#[trigger] ms[j]).0 != k by {
                    assert(init[j] == ms[j]);
                }
            },
        }
    }
}

pub fn first_member_index(ms: &Vec<(String, JsonValue)>, k: &str) -> (r: Option<usize>)
    ensures
        match r {
            Some(i) => first_member(member_views(ms@), k@) == Some(i as int),
            None => first_member(member_views(ms@), k@) is None,
        },
{
    let ghost mv = member_views(ms@);
    proof {
        lemma_member_views(ms@);
        lemma_first_member(mv, k@);
    }
    let mut i: usize = 0;
    while i < ms.len()
        invariant
            i <= ms@.len(),
            mv == member_views(ms@),
            mv.len() == ms@.len(),
            forall|q: int| 0 <= q < ms@.len() ==> #[trigger] mv[q] == (ms@[q].0@, json_view(ms@[q].1)),
            forall|j: int| 0 <= j < i ==> (#[trigger] mv[j]).0 != k@,
            match first_member(mv, k@) {
                Some(f) => 0 <= f < mv.len() && mv[f].0 == k@ && forall|j: int| 0 <= j < f ==> (#[trigger] mv[j]).0 != k@,
                None => forall|j: int| 0 <= j < mv.len() ==> (#[trigger] mv[j]).0 != k@,
            },
        decreases ms.len() - i,
    {
        if str_eq(ms[i].0.as_str(), k) {
            assert(mv[i as int].0 == k@);
            return Some(i);
        }
        i = i + 1;
    }
    None
}

proof fn lemma_member_views_remove(ms: Seq<(String, JsonValue)>, i: int)
    requires
        0 <= i < ms.len(),
    ensures
        member_views(ms.remove(i)) == member_views(ms).remove(i),
{
    lemma_member_views(ms);
    lemma_member_views(ms.remove(i));
    assert(member_views(ms.remove(i)) =~= member_views(ms).remove(i));
}

pub proof fn lemma_member_views_update(ms: Seq<(String, JsonValue)>, i: int, m: (String, JsonValue))
    requires
        0 <= i < ms.len(),
    ensures
        member_views(ms.update(i, m)) == member_views(ms).update(i, (m.0@, json_view(m.1))),
{
    lemma_member_views(ms);
    lemma_member_views(ms.update(i, m));
    assert(member_views(ms.update(i, m)) =~= member_views(ms).update(i, (m.0@, json_view(m.1))));
}

pub(crate) fn without_key(ms: Vec<(String, JsonValue)>, k: &str) -> (r: Vec<(String, JsonValue)>)
    ensures
        member_views(r@) == without_member(member_views(ms@), k@),
{
    let ghost mv = member_views(ms@);
    proof {
        lemma_member_views(ms@);
    }
    let mut out: Vec<(String, JsonValue)> = Vec::new();
    let n = ms.len();
    assert(mv.len() == n);
    let mut rest = ms;
    let mut i: usize = 0;
    assert(mv.take(0).filter(|m: (Seq<char>, JsonView)| m.0 != k@) =~= Seq::<(Seq<char>, JsonView)>::empty());
    assert(member_views(out@) =~= Seq::<(Seq<char>, JsonView)>::empty());
    while rest.len() > 0
        invariant
            mv.len() == i + rest@.len(),
            mv.len() <= usize::MAX,
            forall|q: int| i <= q < mv.len() ==> #[trigger] mv[q] == (rest@[q - i].0@, json_view(rest@[q - i].1)),
            member_views(out@) == mv.take(i as int).filter(|m: (Seq<char>, JsonView)| m.0 != k@),
        decreases rest.len(),
    {
        let ghost r0 = rest@;
        let m = rest.remove(0);
        assert(m == r0[0]);
        assert(mv[i as int] == (m.0@, json_view(m.1)));
        assert forall|q: int| i + 1 <= q < mv.len() implies #[trigger] mv[q] == (rest@[q - (i + 1)].0@, json_view(rest@[q - (i + 1)].1)) by {
            assert(rest@[q - (i + 1)] == r0[q - i]);
        }
        proof {
            mv.take(i as int).lemma_filter_push(mv[i as int], |m: (Seq<char>, JsonView)| m.0 != k@);
            assert(mv.take(i as int + 1) =~= mv.take(i as int).push(mv[i as int]));
        }
        if !str_eq(m.0.as_str(), k) {
            let ghost before = out@;
            proof {
                lemma_member_views_push(before, m.0, m.1);
            }
            out.push(m);
        }
        i = i + 1;
    }
    assert(mv.take(i as int) =~= mv);
    out
}

fn drop_nonsemantic_members(ms: Vec<(String, JsonValue)>) -> (r: Vec<(String, JsonValue)>)
    ensures
        member_views(r@) == drop_nonsemantic(member_views(ms@)),
{
    let mut ms = ms;
    proof {
        lemma_member_views(ms@);
        reveal_strlit("attributes");
    }
    match first_member_index(&ms, "attributes") {
        Some(i) => {
            proof {
                lemma_first_member(member_views(ms@), "attributes"@);
            }
            assert(member_views(ms@)[i as int] == (ms@[i as int].0@, json_view(ms@[i as int].1)));
            match ms[i].1.duplicate() {
                JsonValue::Object(a) => {
                    let kept = without_key(without_key(a, "source"), "extensions");
                    if kept.len() == 0 {
                        proof {
                            lemma_member_views_remove(ms@, i as int);
                        }
                        ms.remove(i);
                        ms
                    } else {
                        let name = ms[i].0.clone();
                        let ghost before = ms@;
                        let ghost kv = JsonValue::Object(kept);
                        proof {
                            lemma_member_views_update(before, i as int, (name, kv));
                        }
                        ms.set(i, (name, JsonValue::Object(kept)));
                        ms
                    }
                },
                _ => ms,
            }
        },
        None => ms,
    }
}

/// The value with source coordinates and tool extensions stripped at every depth.
pub fn strip_nonsemantic(v: &JsonValue) -> (r: JsonValue)
    ensures
        r@ == strip_view(v@),
    decreases v,
{
    match v {
        JsonValue::Array(items) => {
            let ghost iv = item_views(items@);
            proof {
                lemma_item_views(items@);
            }
            let mut out: Vec<JsonValue> = Vec::new();
            let mut i: usize = 0;
            assert(item_views(out@) =~= strip_items(iv, 0));
            while i < items.len()
                invariant
                    i <= items@.len(),
                    *v == JsonValue::Array(*items),
                    iv == item_views(items@),
                    iv.len() == items@.len(),
                    forall|k: int| 0 <= k < items@.len() ==> #[trigger] iv[k] == json_view(items@[k]),
                    item_views(out@) == strip_items(iv, i as int),
                decreases items.len() - i,
            {
                proof {
                    assert(decreases_to!(*v => (*v)->Array_0));
                    assert(decreases_to!(*items => items@));
                    assert(decreases_to!(items@ => items@[i as int]));
                }
                let x = strip_nonsemantic(&items[i]);
                proof {
                    lemma_item_views_push(out@, x);
                }
                out.push(x);
                i = i + 1;
            }
            JsonValue::Array(out)
        },
        JsonValue::Object(ms) => {
            let ghost mv = member_views(ms@);
            proof {
                lemma_member_views(ms@);
                reveal_strlit("DocumentLiteral");
            }
            if first_member_index(ms, "DocumentLiteral").is_some() {
                return v.duplicate();
            }
            let mut out: Vec<(String, JsonValue)> = Vec::new();
            let mut i: usize = 0;
            assert(member_views(out@) =~= strip_members(mv, 0));
            while i < ms.len()
                invariant
                    i <= ms@.len(),
                    *v == JsonValue::Object(*ms),
                    mv == member_views(ms@),
                    mv.len() == ms@.len(),
                    forall|q: int| 0 <= q < ms@.len() ==> #[trigger] mv[q] == (ms@[q].0@, json_view(ms@[q].1)),
                    member_views(out@) == strip_members(mv, i as int),
                decreases ms.len() - i,
            {
                proof {
                    assert(decreases_to!(*v => (*v)->Object_0));
                    assert(decreases_to!(*ms => ms@));
                    assert(decreases_to!(ms@ => ms@[i as int]));
                    assert(decreases_to!(ms@[i as int] => ms@[i as int].1));
                }
                let x = strip_nonsemantic(&ms[i].1);
                let k = ms[i].0.clone();
                proof {
                    lemma_member_views_push(out@, k, x);
                }
                out.push((k, x));
                i = i + 1;
            }
            JsonValue::Object(drop_nonsemantic_members(out))
        },
        _ => v.duplicate(),
    }
}

// ---------------------------------------------------------------------------
// Comparison and lookup
// ---------------------------------------------------------------------------

/// The value of the first member named `k`.
pub open spec fn member_named(ms: Seq<(Seq<char>, JsonView)>, k: Seq<char>) -> Option<JsonView> {
    match first_member(ms, k) {
        Some(i) => Some(ms[i].1),
        None => None,
    }
}

/// The value of the first member named `k`, if any.
pub fn get_member<'a>(ms: &'a Vec<(String, JsonValue)>, k: &str) -> (r: Option<&'a JsonValue>)
    ensures
        match r {
            Some(v) => member_named(member_views(ms@), k@) == Some(v@),
            None => member_named(member_views(ms@), k@) is None,
        },
{
    proof {
        lemma_member_views(ms@);
        lemma_first_member(member_views(ms@), k@);
    }
    match first_member_index(ms, k) {
        Some(i) => Some(&ms[i].1),
        None => None,
    }
}

impl JsonValue {
    /// Whether two values are the same JSON: the same variant with equal contents, array
    /// items in order, object members in order.
    pub fn same_as(&self, other: &JsonValue) -> (r: bool)
        ensures
            r == (self@ == other@),
        decreases self,
    {
        match (self, other) {
            (JsonValue::Null, JsonValue::Null) => true,
            (JsonValue::Bool(a), JsonValue::Bool(b)) => *a == *b,
            (JsonValue::Number(a), JsonValue::Number(b)) => str_eq(a.as_str(), b.as_str()),
            (JsonValue::Str(a), JsonValue::Str(b)) => str_eq(a.as_str(), b.as_str()),
            (JsonValue::Array(xs), JsonValue::Array(ys)) => {
                proof {
                    lemma_item_views(xs@);
                    lemma_item_views(ys@);
                }
                if xs.len() != ys.len() {
                    assert(item_views(xs@).len() != item_views(ys@).len());
                    return false;
                }
                let mut i: usize = 0;
                while i < xs.len()
                    invariant
                        i <= xs@.len(),
                        xs@.len() == ys@.len(),
                        *self == JsonValue::Array(*xs),
                        *other == JsonValue::Array(*ys),
                        item_views(xs@).len() == xs@.len(),
                        item_views(ys@).len() == ys@.len(),
                        forall|k: int| 0 <= k < xs@.len() ==> #[trigger] item_views(xs@)[k] == json_view(xs@[k]),
                        forall|k: int| 0 <= k < ys@.len() ==> #[trigger] item_views(ys@)[k] == json_view(ys@[k]),
                        forall|k: int| 0 <= k < i ==> json_view(#[trigger] xs@[k]) == json_view(ys@[k]),
                    decreases xs.len() - i,
                {
                    proof {
                        assert(decreases_to!(*self => (*self)->Array_0));
                        assert(decreases_to!(*xs => xs@));
                        assert(decreases_to!(xs@ => xs@[i as int]));
                    }
                    if !xs[i].same_as(&ys[i]) {
                        assert(item_views(xs@)[i as int] != item_views(ys@)[i as int]);
                        return false;
                    }
                    i = i + 1;
                }
                assert(item_views(xs@) =~= item_views(ys@));
                true
            },
            (JsonValue::Object(xs), JsonValue::Object(ys)) => {
                proof {
                    lemma_member_views(xs@);
                    lemma_member_views(ys@);
                }
                if xs.len() != ys.len() {
                    assert(member_views(xs@).len() != member_views(ys@).len());
                    return false;
                }
                let mut i: usize = 0;
                while i < xs.len()
                    invariant
                        i <= xs@.len(),
                        xs@.len() == ys@.len(),
                        *self == JsonValue::Object(*xs),
                        *other == JsonValue::Object(*ys),
                        member_views(xs@).len() == xs@.len(),
                        member_views(ys@).len() == ys@.len(),
                        forall|k: int| 0 <= k < xs@.len() ==> #[trigger] member_views(xs@)[k] == (xs@[k].0@, json_view(xs@[k].1)),
                        forall|k: int| 0 <= k < ys@.len() ==> #[trigger] member_views(ys@)[k] == (ys@[k].0@, json_view(ys@[k].1)),
                        forall|k: int| 0 <= k < i ==> #[trigger] member_views(xs@)[k] == member_views(ys@)[k],
                    decreases xs.len() - i,
                {
                    proof {
                        assert(decreases_to!(*self => (*self)->Object_0));
                        assert(decreases_to!(*xs => xs@));
                        assert(decreases_to!(xs@ => xs@[i as int]));
                        assert(decreases_to!(xs@[i as int] => xs@[i as int].1));
                    }
                    let same_key = str_eq(xs[i].0.as_str(), ys[i].0.as_str());
                    if !same_key || !xs[i].1.same_as(&ys[i].1) {
                        assert(member_views(xs@)[i as int] != member_views(ys@)[i as int]);
                        return false;
                    }
                    assert(member_views(xs@)[i as int] == member_views(ys@)[i as int]);
                    i = i + 1;
                }
                assert(member_views(xs@) =~= member_views(ys@));
                true
            },
            _ => false,
        }
    }
}

// ---------------------------------------------------------------------------
// Building
// ---------------------------------------------------------------------------

/// Append the member `k: v`.
pub fn push_member(out: &mut Vec<(String, JsonValue)>, k: &str, v: JsonValue)
    ensures
        member_views(final(out)@) == member_views(old(out)@).push((k@, v@)),
{
    let key = k.to_string();
    proof {
        lemma_member_views_push(out@, key, v);
    }
    out.push((key, v));
}

/// The object with the one member `k: v`.
pub fn single_member_object(k: &str, v: JsonValue) -> (r: JsonValue)
    ensures
        r@ == JsonView::Object(seq![(k@, v@)]),
{
    let mut ms: Vec<(String, JsonValue)> = Vec::new();
    assert(member_views(ms@) =~= Seq::<(Seq<char>, JsonView)>::empty());
    push_member(&mut ms, k, v);
    assert(member_views(ms@) =~= seq![(k@, v@)]);
    JsonValue::Object(ms)
}

/// Members equal to these.
pub fn copy_members(ms: &Vec<(String, JsonValue)>) -> (r: Vec<(String, JsonValue)>)
    ensures
        member_views(r@) == member_views(ms@),
{
    proof {
        lemma_member_views(ms@);
    }
    let mut out: Vec<(String, JsonValue)> = Vec::new();
    let mut i: usize = 0;
    assert(member_views(out@) =~= member_views(ms@).take(0));
    while i < ms.len()
        invariant
            i <= ms@.len(),
            member_views(ms@).len() == ms@.len(),
            forall|q: int| 0 <= q < ms@.len() ==> #[trigger] member_views(ms@)[q] == (ms@[q].0@, json_view(ms@[q].1)),
            member_views(out@) == member_views(ms@).take(i as int),
        decreases ms.len() - i,
    {
        let x = ms[i].1.duplicate();
        let k = ms[i].0.clone();
        proof {
            lemma_member_views_push(out@, k, x);
        }
        out.push((k, x));
        assert(member_views(ms@).take(i as int + 1) =~= member_views(ms@).take(i as int).push(member_views(ms@)[i as int]));
        i = i + 1;
    }
    assert(member_views(ms@).take(i as int) =~= member_views(ms@));
    out
}

} // verus!
