//! Plain-scalar resolution for the IR YAML profile: booleans and null in their three
//! spellings, integers first, then the YAML 1.2 core float grammar with the lexeme
//! rewritten to its shortest JSON spelling, and everything else a string.

use crate::text::{all_digits, chars_of, first_index, is_digit, push_chars, starts_with, str_eq, string_of, subrange};
use serde_json::Number;
use std::str::FromStr;
use vstd::prelude::*;

verus! {

#[verifier::external_type_specification]
#[verifier::external_body]
pub struct ExNumber(Number);

/// The number of digits in `s` from position `i` on, up to the first other character.
pub open spec fn digits_from(s: Seq<char>, i: int) -> int
    decreases s.len() - i,
{
    if 0 <= i < s.len() && is_digit(s[i]) {
        1 + digits_from(s, i + 1)
    } else {
        0
    }
}

/// Where the exponent that may start at `c` ends: `c` when there is none, and `-1` when an
/// `e` or `E` is not followed by an optional sign and at least one digit.
pub open spec fn exponent_end(s: Seq<char>, c: int) -> int {
    if 0 <= c < s.len() && (s[c] == 'e' || s[c] == 'E') {
        let e = if c + 1 < s.len() && (s[c + 1] == '+' || s[c + 1] == '-') {
            c + 2
        } else {
            c + 1
        };
        if digits_from(s, e) > 0 {
            e + digits_from(s, e)
        } else {
            -1
        }
    } else {
        c
    }
}

/// Whether `lexeme` is, as a whole, a JSON number: an optional `-`; `0` or a run of digits
/// that does not start with `0`; optionally `.` and at least one digit; optionally `e` or
/// `E`, an optional `+` or `-`, and at least one digit.
pub open spec fn json_number_accepts(lexeme: Seq<char>) -> bool {
    let a = if lexeme.len() > 0 && lexeme[0] == '-' {
        1int
    } else {
        0int
    };
    let n = digits_from(lexeme, a);
    let b = a + n;
    let c = if b < lexeme.len() && lexeme[b] == '.' {
        b + 1 + digits_from(lexeme, b + 1)
    } else {
        b
    };
    &&& n > 0
    &&& !(n > 1 && lexeme[a] == '0')
    &&& (c == b || c > b + 1)
    &&& exponent_end(lexeme, c) == lexeme.len()
}

/// `serde_json::Number::from_str`: the JSON number `lexeme` spells. It reads the whole
/// string, with no white space, as the JSON number grammar [`json_number_accepts`] states.
#[verifier::external_body]
fn json_number(lexeme: &str) -> (r: Option<Number>)
    ensures
        r is Some <==> json_number_accepts(lexeme@),
{
    Number::from_str(lexeme).ok()
}

/// `s` without one leading `-` or `+`.
pub open spec fn strip_sign(s: Seq<char>) -> Seq<char> {
    if s.len() > 0 && (s[0] == '-' || s[0] == '+') {
        s.skip(1)
    } else {
        s
    }
}

pub open spec fn digit_run(s: Seq<char>) -> bool {
    s.len() > 0 && all_digits(s)
}

/// `[-+]?[0-9]+`
pub open spec fn int_text(s: Seq<char>) -> bool {
    digit_run(strip_sign(s))
}

/// The index of the first `e` or `E` in `s`.
pub open spec fn first_exponent_mark(s: Seq<char>) -> Option<int>
    decreases s.len(),
{
    if s.len() == 0 {
        None
    } else if s[0] == 'e' || s[0] == 'E' {
        Some(0)
    } else {
        match first_exponent_mark(s.drop_first()) {
            Some(i) => Some(i + 1),
            None => None,
        }
    }
}

pub proof fn lemma_first_exponent_mark(s: Seq<char>)
    ensures
        first_exponent_mark(s) matches Some(i) ==> 0 <= i < s.len() && (s[i] == 'e' || s[i]
            == 'E'),
    decreases s.len(),
{
    if s.len() > 0 {
        lemma_first_exponent_mark(s.drop_first());
    }
}

/// A float's mantissa: `\.[0-9]+` or `[0-9]+(\.[0-9]*)?`.
pub open spec fn mantissa_ok(m: Seq<char>) -> bool {
    match first_index(m, '.') {
        Some(p) => (p > 0 || m.len() > p + 1) && all_digits(m.take(p)) && all_digits(m.skip(p + 1)),
        None => digit_run(m),
    }
}

/// `[-+]?(\.[0-9]+|[0-9]+(\.[0-9]*)?)([eE][-+]?[0-9]+)?`, with a `.` or an exponent.
pub open spec fn core_float_text(s: Seq<char>) -> bool {
    let d = strip_sign(s);
    match first_exponent_mark(d) {
        Some(i) => mantissa_ok(d.take(i)) && digit_run(strip_sign(d.skip(i + 1))),
        None => mantissa_ok(d) && d.contains('.'),
    }
}

pub open spec fn leading_zero_text(s: Seq<char>) -> bool {
    let d = strip_sign(s);
    d.len() > 1 && d[0] == '0' && is_digit(d[1])
}

pub open spec fn non_finite_text(s: Seq<char>) -> bool {
    let d = strip_sign(s);
    d == ".inf"@ || d == ".Inf"@ || d == ".INF"@ || d == ".nan"@ || d == ".NaN"@ || d == ".NAN"@
}

pub open spec fn has_prefix(s: Seq<char>, p: Seq<char>) -> bool {
    s.len() >= p.len() && s.take(p.len() as int) == p
}

pub open spec fn octal_or_hex_text(s: Seq<char>) -> bool {
    let d = strip_sign(s);
    has_prefix(d, "0o"@) || has_prefix(d, "0x"@) || has_prefix(d, "0O"@) || has_prefix(d, "0X"@)
}

/// The shortest JSON spelling of a float lexeme that keeps its digits: no `+`, a `0`
/// before a leading `.`, a `0` after a trailing `.`.
pub open spec fn json_lexeme_of(text: Seq<char>) -> Seq<char> {
    let negative = text.len() > 0 && text[0] == '-';
    let sign = if negative {
        seq!['-']
    } else {
        Seq::<char>::empty()
    };
    let rest = if negative || (text.len() > 0 && text[0] == '+') {
        text.skip(1)
    } else {
        text
    };
    let (mantissa, exponent) = match first_exponent_mark(rest) {
        Some(i) => (rest.take(i), rest.skip(i)),
        None => (rest, Seq::<char>::empty()),
    };
    let written = match first_index(mantissa, '.') {
        Some(p) => if p == 0 {
            seq!['0', '.'] + mantissa.skip(1)
        } else if p == mantissa.len() - 1 {
            mantissa.take(p) + seq!['.', '0']
        } else {
            mantissa
        },
        None => mantissa,
    };
    sign + written + exponent
}

pub open spec fn reserved_word(text: Seq<char>) -> bool {
    text == "true"@ || text == "True"@ || text == "TRUE"@ || text == "false"@ || text == "False"@
        || text == "FALSE"@ || text == "null"@ || text == "Null"@ || text == "NULL"@ || text
        == "~"@ || text == ""@
}

/// Whether a plain spelling of `text` reads back as something other than a string.
pub open spec fn non_string_text(text: Seq<char>) -> bool {
    reserved_word(text) || int_text(text) || core_float_text(text) || non_finite_text(text)
        || octal_or_hex_text(text)
}

fn strip_sign_in(s: &Vec<char>) -> (r: Vec<char>)
    ensures
        r@ == strip_sign(s@),
{
    if s.len() > 0 && (s[0] == '-' || s[0] == '+') {
        let r = subrange(s.as_slice(), 1, s.len());
        assert(r@ =~= s@.skip(1));
        r
    } else {
        subrange(s.as_slice(), 0, s.len())
    }
}

fn digits_only(s: &[char]) -> (r: bool)
    ensures
        r == all_digits(s@),
{
    let mut i: usize = 0;
    while i < s.len()
        invariant
            i <= s.len(),
            forall|j: int| 0 <= j < i ==> is_digit(#[trigger] s@[j]),
        decreases s.len() - i,
    {
        if !('0' <= s[i] && s[i] <= '9') {
            return false;
        }
        i = i + 1;
    }
    true
}

fn digit_run_in(s: &[char]) -> (r: bool)
    ensures
        r == digit_run(s@),
{
    s.len() > 0 && digits_only(s)
}

fn find_exponent_mark(s: &[char]) -> (r: Option<usize>)
    ensures
        r matches Some(i) ==> first_exponent_mark(s@) == Some(i as int),
        r is None ==> first_exponent_mark(s@) is None,
{
    let mut i: usize = 0;
    assert(s@.skip(0) =~= s@);
    while i < s.len()
        invariant
            i <= s.len(),
            first_exponent_mark(s@) == match first_exponent_mark(s@.skip(i as int)) {
                Some(k) => Some(k + i),
                None => None::<int>,
            },
        decreases s.len() - i,
    {
        assert(s@.skip(i as int).drop_first() =~= s@.skip(i as int + 1));
        assert(s@.skip(i as int)[0] == s@[i as int]);
        if s[i] == 'e' || s[i] == 'E' {
            return Some(i);
        }
        i = i + 1;
    }
    assert(s@.skip(i as int).len() == 0);
    None
}

fn is_int_text(s: &Vec<char>) -> (r: bool)
    ensures
        r == int_text(s@),
{
    let d = strip_sign_in(s);
    digit_run_in(d.as_slice())
}

/// `[-+]?[0-9]+`
pub fn is_int(s: &str) -> (r: bool)
    ensures
        r == int_text(s@),
{
    let cs = chars_of(s);
    is_int_text(&cs)
}

fn mantissa_ok_in(m: &Vec<char>) -> (r: bool)
    ensures
        r == mantissa_ok(m@),
{
    match crate::text::find_char(m.as_slice(), '.') {
        Some(p) => {
            proof {
                crate::text::lemma_first_index(m@, '.');
            }
            assert(p < m.len());
            let whole = subrange(m.as_slice(), 0, p);
            let frac = subrange(m.as_slice(), p + 1, m.len());
            assert(whole@ =~= m@.take(p as int));
            assert(frac@ =~= m@.skip(p as int + 1));
            (p > 0 || m.len() > p + 1) && digits_only(whole.as_slice()) && digits_only(frac.as_slice())
        },
        None => digit_run_in(m.as_slice()),
    }
}

fn is_core_float_text(s: &Vec<char>) -> (r: bool)
    ensures
        r == core_float_text(s@),
{
    let d = strip_sign_in(s);
    match find_exponent_mark(d.as_slice()) {
        Some(i) => {
            proof {
                lemma_first_exponent_mark(d@);
                assert(first_exponent_mark(d@) == Some(i as int));
                assert(i < d@.len());
            }
            let n = d.len();
            assert(i < n);
            let mantissa = subrange(d.as_slice(), 0, i);
            let exponent = subrange(d.as_slice(), i + 1, n);
            assert(mantissa@ =~= d@.take(i as int));
            assert(exponent@ =~= d@.skip(i as int + 1));
            let e = strip_sign_in(&exponent);
            mantissa_ok_in(&mantissa) && digit_run_in(e.as_slice())
        },
        None => mantissa_ok_in(&d) && crate::text::contains_char(d.as_slice(), '.'),
    }
}

/// The YAML 1.2 core float grammar:
/// `[-+]?(\.[0-9]+|[0-9]+(\.[0-9]*)?)([eE][-+]?[0-9]+)?`, with a `.` or an exponent.
pub fn is_core_float(s: &str) -> (r: bool)
    ensures
        r == core_float_text(s@),
{
    let cs = chars_of(s);
    is_core_float_text(&cs)
}

fn has_leading_zero_text(s: &Vec<char>) -> (r: bool)
    ensures
        r == leading_zero_text(s@),
{
    let d = strip_sign_in(s);
    d.len() > 1 && d[0] == '0' && ('0' <= d[1] && d[1] <= '9')
}

/// Whether the digits, after an optional sign, start with a redundant `0`.
pub fn has_leading_zero(s: &str) -> (r: bool)
    ensures
        r == leading_zero_text(s@),
{
    let cs = chars_of(s);
    has_leading_zero_text(&cs)
}

fn is_non_finite_text(s: &Vec<char>) -> (r: bool)
    ensures
        r == non_finite_text(s@),
{
    let d = strip_sign_in(s);
    let t = string_of(d.as_slice());
    let t = t.as_str();
    str_eq(t, ".inf") || str_eq(t, ".Inf") || str_eq(t, ".INF") || str_eq(t, ".nan") || str_eq(
        t,
        ".NaN",
    ) || str_eq(t, ".NAN")
}

/// Whether the text, after an optional sign, spells infinity or not-a-number.
pub fn is_non_finite(s: &str) -> (r: bool)
    ensures
        r == non_finite_text(s@),
{
    let cs = chars_of(s);
    is_non_finite_text(&cs)
}

fn is_octal_or_hex_text(s: &Vec<char>) -> (r: bool)
    ensures
        r == octal_or_hex_text(s@),
{
    let d = strip_sign_in(s);
    let o = chars_of("0o");
    let x = chars_of("0x");
    let big_o = chars_of("0O");
    let big_x = chars_of("0X");
    starts_with(d.as_slice(), o.as_slice()) || starts_with(d.as_slice(), x.as_slice())
        || starts_with(d.as_slice(), big_o.as_slice()) || starts_with(d.as_slice(), big_x.as_slice())
}

/// Whether the text, after an optional sign, starts with an octal or hexadecimal prefix.
pub fn is_octal_or_hex(s: &str) -> (r: bool)
    ensures
        r == octal_or_hex_text(s@),
{
    let cs = chars_of(s);
    is_octal_or_hex_text(&cs)
}

/// The shortest JSON spelling of a YAML float lexeme that preserves its digits.
pub fn json_lexeme(text: &str) -> (r: String)
    ensures
        r@ == json_lexeme_of(text@),
{
    let cs = chars_of(text);
    let negative = cs.len() > 0 && cs[0] == '-';
    let mut out: Vec<char> = Vec::new();
    if negative {
        out.push('-');
    }
    let rest = if negative || (cs.len() > 0 && cs[0] == '+') {
        subrange(cs.as_slice(), 1, cs.len())
    } else {
        subrange(cs.as_slice(), 0, cs.len())
    };
    assert(negative || (cs@.len() > 0 && cs@[0] == '+') ==> rest@ =~= text@.skip(1));
    assert(!(negative || (cs@.len() > 0 && cs@[0] == '+')) ==> rest@ =~= text@);
    let (mantissa, exponent) = match find_exponent_mark(rest.as_slice()) {
        Some(i) => {
            proof {
                lemma_first_exponent_mark(rest@);
            }
            let m = subrange(rest.as_slice(), 0, i);
            let e = subrange(rest.as_slice(), i, rest.len());
            assert(m@ =~= rest@.take(i as int));
            assert(e@ =~= rest@.skip(i as int));
            (m, e)
        },
        None => {
            let e: Vec<char> = Vec::new();
            assert(e@ =~= Seq::<char>::empty());
            (subrange(rest.as_slice(), 0, rest.len()), e)
        },
    };
    assert(mantissa@ =~= match first_exponent_mark(rest@) {
        Some(i) => rest@.take(i),
        None => rest@,
    });
    match crate::text::find_char(mantissa.as_slice(), '.') {
        Some(p) => {
            proof {
                crate::text::lemma_first_index(mantissa@, '.');
            }
            if p == 0 {
                out.push('0');
                out.push('.');
                let tail = subrange(mantissa.as_slice(), 1, mantissa.len());
                push_chars(&mut out, tail.as_slice());
            } else if p == mantissa.len() - 1 {
                let head = subrange(mantissa.as_slice(), 0, p);
                push_chars(&mut out, head.as_slice());
                out.push('.');
                out.push('0');
            } else {
                push_chars(&mut out, mantissa.as_slice());
            }
        },
        None => {
            push_chars(&mut out, mantissa.as_slice());
        },
    }
    push_chars(&mut out, exponent.as_slice());
    assert(out@ =~= json_lexeme_of(text@));
    string_of(out.as_slice())
}

fn is_reserved_word(text: &str) -> (r: bool)
    ensures
        r == reserved_word(text@),
{
    str_eq(text, "true") || str_eq(text, "True") || str_eq(text, "TRUE") || str_eq(text, "false")
        || str_eq(text, "False") || str_eq(text, "FALSE") || str_eq(text, "null") || str_eq(
        text,
        "Null",
    ) || str_eq(text, "NULL") || str_eq(text, "~") || str_eq(text, "")
}

/// Whether a plain spelling of `text` would be read back as something other than a string,
/// so that a writer has to quote it.
pub fn resolves_non_string(text: &str) -> (r: bool)
    ensures
        r == non_string_text(text@),
{
    let cs = chars_of(text);
    is_reserved_word(text) || is_int_text(&cs) || is_core_float_text(&cs) || is_non_finite_text(
        &cs,
    ) || is_octal_or_hex_text(&cs)
}

/// What a plain scalar resolves to under the profile.
pub enum Resolved {
    Null,
    Bool(bool),
    /// A number, by its JSON lexeme.
    Number(String),
    Str(String),
}

/// What a plain scalar resolves to, with the number's lexeme in place of the number.
pub enum Resolution {
    Null,
    Bool(bool),
    Number(Seq<char>),
    Str(Seq<char>),
    Refused(Seq<char>),
}

/// `text` without one leading `+`.
pub open spec fn strip_plus(text: Seq<char>) -> Seq<char> {
    if text.len() > 0 && text[0] == '+' {
        text.skip(1)
    } else {
        text
    }
}

/// What [`resolve_plain`] answers for `text`.
pub open spec fn plain_resolution(text: Seq<char>) -> Resolution {
    if text == "true"@ || text == "True"@ || text == "TRUE"@ {
        Resolution::Bool(true)
    } else if text == "false"@ || text == "False"@ || text == "FALSE"@ {
        Resolution::Bool(false)
    } else if text == "null"@ || text == "Null"@ || text == "NULL"@ || text == "~"@ || text
        == ""@ {
        Resolution::Null
    } else if non_finite_text(text) {
        Resolution::Refused("non-finite numbers are not part of the profile"@)
    } else if octal_or_hex_text(text) {
        Resolution::Refused(
            "octal and hexadecimal spellings are not part of the profile; write decimal"@,
        )
    } else if int_text(text) {
        if leading_zero_text(text) {
            Resolution::Refused("leading zeros are not part of the profile"@)
        } else if json_number_accepts(strip_plus(text)) {
            Resolution::Number(strip_plus(text))
        } else {
            Resolution::Refused("this integer is not a JSON number"@)
        }
    } else if core_float_text(text) {
        if leading_zero_text(text) {
            Resolution::Refused("leading zeros are not part of the profile"@)
        } else if json_number_accepts(json_lexeme_of(text)) {
            Resolution::Number(json_lexeme_of(text))
        } else {
            Resolution::Refused("this number is not a JSON number"@)
        }
    } else {
        Resolution::Str(text)
    }
}

/// Resolves a plain scalar, or refuses it with the message an invalid literal carries.
pub fn resolve_plain(text: &str) -> (r: Result<Resolved, &'static str>)
    ensures
        match r {
            Ok(Resolved::Null) => plain_resolution(text@) == Resolution::Null,
            Ok(Resolved::Bool(b)) => plain_resolution(text@) == Resolution::Bool(b),
            Ok(Resolved::Number(l)) => plain_resolution(text@) == Resolution::Number(l@),
            Ok(Resolved::Str(s)) => plain_resolution(text@) == Resolution::Str(s@),
            Err(m) => plain_resolution(text@) == Resolution::Refused(m@),
        },
{
    if str_eq(text, "true") || str_eq(text, "True") || str_eq(text, "TRUE") {
        return Ok(Resolved::Bool(true));
    }
    if str_eq(text, "false") || str_eq(text, "False") || str_eq(text, "FALSE") {
        return Ok(Resolved::Bool(false));
    }
    if str_eq(text, "null") || str_eq(text, "Null") || str_eq(text, "NULL") || str_eq(text, "~")
        || str_eq(text, "") {
        return Ok(Resolved::Null);
    }
    let cs = chars_of(text);
    if is_non_finite_text(&cs) {
        return Err("non-finite numbers are not part of the profile");
    }
    if is_octal_or_hex_text(&cs) {
        return Err("octal and hexadecimal spellings are not part of the profile; write decimal");
    }
    if is_int_text(&cs) {
        if has_leading_zero_text(&cs) {
            return Err("leading zeros are not part of the profile");
        }
        let lexeme = if cs.len() > 0 && cs[0] == '+' {
            subrange(cs.as_slice(), 1, cs.len())
        } else {
            subrange(cs.as_slice(), 0, cs.len())
        };
        assert(lexeme@ =~= strip_plus(text@));
        let ls = string_of(lexeme.as_slice());
        return match json_number(ls.as_str()) {
            Some(_) => Ok(Resolved::Number(ls)),
            None => Err("this integer is not a JSON number"),
        };
    }
    if is_core_float_text(&cs) {
        if has_leading_zero_text(&cs) {
            return Err("leading zeros are not part of the profile");
        }
        let lexeme = json_lexeme(text);
        return match json_number(lexeme.as_str()) {
            Some(_) => Ok(Resolved::Number(lexeme)),
            None => Err("this number is not a JSON number"),
        };
    }
    Ok(Resolved::Str(text.to_owned()))
}

} // verus!
