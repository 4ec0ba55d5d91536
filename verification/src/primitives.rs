//! Lexical primitives: matchers for integers, floats, booleans, the four
//! string forms, date/time fields, keys and the key-value separator.
//!
//! Each matcher is specified by a spec function that maps the input and a
//! start position to the end position of the matched token (or no match).
//! The executable matchers return exactly that position, so callers know
//! both when a match is owed and precisely which characters it covers.

use vstd::prelude::*;
use crate::ast::{
    Bool, DateTime, FullDate, StrType, Time, TimeOffset, TimeOffsetAmount, Value, WSSep, bool_text,
    datetime_text, full_date_text, lead_text, offset_text, quote_text, time_text, value_text,
    wssep_text,
};
use crate::text::{
    is_digit, ws_end, digits_end, keychars_end, scan_ws, scan_digits, scan_keychars, str_to_chars,
    capture,
};

verus! {

/// End of a run of digit-or-underscore groups: a digit, or an underscore
/// immediately followed by a digit, repeated.
pub open spec fn scan_groups(s: Seq<char>, pos: int) -> int
    decreases s.len() - pos,
{
    if pos < s.len() && is_digit(s[pos]) {
        scan_groups(s, pos + 1)
    } else if pos + 1 < s.len() && s[pos] == '_' && is_digit(s[pos + 1]) {
        scan_groups(s, pos + 2)
    } else {
        pos
    }
}

/// The digit part of an integer literal: `0` alone, or a nonzero digit
/// followed by digit/underscore groups.
pub open spec fn int_body_end(s: Seq<char>, pos: int) -> Option<int> {
    if pos < s.len() && is_digit(s[pos]) {
        if s[pos] == '0' {
            Some(pos + 1)
        } else {
            Some(scan_groups(s, pos + 1))
        }
    } else {
        None
    }
}

/// An integer literal: optional sign, then the digit body.
pub open spec fn spec_integer(s: Seq<char>, pos: int) -> Option<int> {
    if pos < s.len() && (s[pos] == '+' || s[pos] == '-') {
        int_body_end(s, pos + 1)
    } else {
        int_body_end(s, pos)
    }
}

/// A fractional part: `.` followed by a digit and digit/underscore groups.
pub open spec fn frac_end(s: Seq<char>, pos: int) -> Option<int> {
    if pos + 1 < s.len() && s[pos] == '.' && is_digit(s[pos + 1]) {
        Some(scan_groups(s, pos + 2))
    } else {
        None
    }
}

/// An exponent body after `e`/`E`: optional sign, then the digit body.
pub open spec fn exp_end(s: Seq<char>, pos: int) -> Option<int> {
    if pos < s.len() && (s[pos] == '+' || s[pos] == '-') {
        int_body_end(s, pos + 1)
    } else {
        int_body_end(s, pos)
    }
}

/// A float literal: an integer part plus a mandatory fractional part,
/// exponent, or both.
pub open spec fn spec_float(s: Seq<char>, pos: int) -> Option<int> {
    match spec_integer(s, pos) {
        Option::None => None,
        Option::Some(e1) => {
            match frac_end(s, e1) {
                Option::Some(f) => {
                    if f < s.len() && (s[f] == 'e' || s[f] == 'E') && exp_end(s, f + 1) is Some {
                        exp_end(s, f + 1)
                    } else {
                        Some(f)
                    }
                },
                Option::None => {
                    if e1 < s.len() && (s[e1] == 'e' || s[e1] == 'E') && exp_end(s, e1 + 1)
                        is Some {
                        exp_end(s, e1 + 1)
                    } else {
                        None
                    }
                },
            }
        },
    }
}

/// A boolean literal: exactly `true` or `false`.
pub open spec fn spec_boolean(s: Seq<char>, pos: int) -> Option<int> {
    if pos + 4 <= s.len() && s[pos] == 't' && s[pos + 1] == 'r' && s[pos + 2] == 'u' && s[pos + 3]
        == 'e' {
        Some(pos + 4)
    } else if pos + 5 <= s.len() && s[pos] == 'f' && s[pos + 1] == 'a' && s[pos + 2] == 'l' && s[pos
        + 3] == 's' && s[pos + 4] == 'e' {
        Some(pos + 5)
    } else {
        None
    }
}

/// Printable content character of a single-line basic string (quotes,
/// backslashes and control characters are handled separately).
pub open spec fn is_basic_char(c: char) -> bool {
    c >= ' '
}

/// Content character of a multiline basic string: printable, tab, or a line
/// break.
pub open spec fn is_ml_char(c: char) -> bool {
    c == '\t' || c == '\n' || c == '\r' || c >= ' '
}

/// Content character of a single-line literal string: printable or tab.
pub open spec fn is_literal_char(c: char) -> bool {
    c == '\t' || c >= ' '
}

/// Rest of a basic string after the opening quote: content characters and
/// backslash escapes up to the closing quote. Raw line breaks are refused.
pub open spec fn spec_basic_rest(s: Seq<char>, pos: int) -> Option<int>
    decreases s.len() - pos,
{
    if pos >= s.len() {
        None
    } else if s[pos] == '"' {
        Some(pos + 1)
    } else if s[pos] == '\\' {
        if pos + 1 < s.len() && s[pos + 1] != '\n' && s[pos + 1] != '\r' {
            spec_basic_rest(s, pos + 2)
        } else {
            None
        }
    } else if is_basic_char(s[pos]) {
        spec_basic_rest(s, pos + 1)
    } else {
        None
    }
}

/// A whole basic string, opening quote included.
pub open spec fn spec_basic_string(s: Seq<char>, pos: int) -> Option<int> {
    if pos < s.len() && s[pos] == '"' {
        spec_basic_rest(s, pos + 1)
    } else {
        None
    }
}

/// Rest of a multiline basic string after the opening `"""`: the first
/// unescaped `"""` closes it; line breaks and escaped line breaks are content.
pub open spec fn spec_ml_basic_rest(s: Seq<char>, pos: int) -> Option<int>
    decreases s.len() - pos,
{
    if pos + 3 <= s.len() && s[pos] == '"' && s[pos + 1] == '"' && s[pos + 2] == '"' {
        Some(pos + 3)
    } else if pos < s.len() && s[pos] == '\\' && pos + 1 < s.len() {
        spec_ml_basic_rest(s, pos + 2)
    } else if pos < s.len() && s[pos] != '\\' && is_ml_char(s[pos]) {
        spec_ml_basic_rest(s, pos + 1)
    } else {
        None
    }
}

/// A whole multiline basic string, opening `"""` included.
pub open spec fn spec_ml_basic_string(s: Seq<char>, pos: int) -> Option<int> {
    if pos + 3 <= s.len() && s[pos] == '"' && s[pos + 1] == '"' && s[pos + 2] == '"' {
        spec_ml_basic_rest(s, pos + 3)
    } else {
        None
    }
}

/// Rest of a literal string after the opening quote: no escapes at all.
pub open spec fn spec_literal_rest(s: Seq<char>, pos: int) -> Option<int>
    decreases s.len() - pos,
{
    if pos >= s.len() {
        None
    } else if s[pos] == '\'' {
        Some(pos + 1)
    } else if is_literal_char(s[pos]) {
        spec_literal_rest(s, pos + 1)
    } else {
        None
    }
}

/// A whole literal string, opening quote included.
pub open spec fn spec_literal_string(s: Seq<char>, pos: int) -> Option<int> {
    if pos < s.len() && s[pos] == '\'' {
        spec_literal_rest(s, pos + 1)
    } else {
        None
    }
}

/// Rest of a multiline literal string after the opening `'''`: the first
/// `'''` closes it.
pub open spec fn spec_ml_literal_rest(s: Seq<char>, pos: int) -> Option<int>
    decreases s.len() - pos,
{
    if pos + 3 <= s.len() && s[pos] == '\'' && s[pos + 1] == '\'' && s[pos + 2] == '\'' {
        Some(pos + 3)
    } else if pos < s.len() && is_ml_char(s[pos]) {
        spec_ml_literal_rest(s, pos + 1)
    } else {
        None
    }
}

/// A whole multiline literal string, opening `'''` included.
pub open spec fn spec_ml_literal_string(s: Seq<char>, pos: int) -> Option<int> {
    if pos + 3 <= s.len() && s[pos] == '\'' && s[pos + 1] == '\'' && s[pos + 2] == '\'' {
        spec_ml_literal_rest(s, pos + 3)
    } else {
        None
    }
}

pub proof fn lemma_basic_rest_close(s: Seq<char>, pos: int)
    requires
        0 <= pos,
        spec_basic_rest(s, pos) is Some,
    ensures
        pos < spec_basic_rest(s, pos)->0 <= s.len(),
        s[spec_basic_rest(s, pos)->0 - 1] == '"',
    decreases s.len() - pos,
{
    if pos < s.len() && s[pos] == '"' {
    } else if pos < s.len() && s[pos] == '\\' {
        lemma_basic_rest_close(s, pos + 2);
    } else {
        lemma_basic_rest_close(s, pos + 1);
    }
}

pub proof fn lemma_ml_basic_rest_close(s: Seq<char>, pos: int)
    requires
        0 <= pos,
        spec_ml_basic_rest(s, pos) is Some,
    ensures
        pos + 3 <= spec_ml_basic_rest(s, pos)->0 <= s.len(),
        s[spec_ml_basic_rest(s, pos)->0 - 3] == '"',
        s[spec_ml_basic_rest(s, pos)->0 - 2] == '"',
        s[spec_ml_basic_rest(s, pos)->0 - 1] == '"',
    decreases s.len() - pos,
{
    if pos + 3 <= s.len() && s[pos] == '"' && s[pos + 1] == '"' && s[pos + 2] == '"' {
    } else if pos < s.len() && s[pos] == '\\' && pos + 1 < s.len() {
        lemma_ml_basic_rest_close(s, pos + 2);
    } else {
        lemma_ml_basic_rest_close(s, pos + 1);
    }
}

pub proof fn lemma_literal_rest_close(s: Seq<char>, pos: int)
    requires
        0 <= pos,
        spec_literal_rest(s, pos) is Some,
    ensures
        pos < spec_literal_rest(s, pos)->0 <= s.len(),
        s[spec_literal_rest(s, pos)->0 - 1] == '\'',
    decreases s.len() - pos,
{
    if pos < s.len() && s[pos] == '\'' {
    } else {
        lemma_literal_rest_close(s, pos + 1);
    }
}

pub proof fn lemma_ml_literal_rest_close(s: Seq<char>, pos: int)
    requires
        0 <= pos,
        spec_ml_literal_rest(s, pos) is Some,
    ensures
        pos + 3 <= spec_ml_literal_rest(s, pos)->0 <= s.len(),
        s[spec_ml_literal_rest(s, pos)->0 - 3] == '\'',
        s[spec_ml_literal_rest(s, pos)->0 - 2] == '\'',
        s[spec_ml_literal_rest(s, pos)->0 - 1] == '\'',
    decreases s.len() - pos,
{
    if pos + 3 <= s.len() && s[pos] == '\'' && s[pos + 1] == '\'' && s[pos + 2] == '\'' {
    } else {
        lemma_ml_literal_rest_close(s, pos + 1);
    }
}

pub fn scan_groups_at(input: &Vec<char>, pos: usize) -> (end: usize)
    requires
        pos <= input@.len(),
    ensures
        end == scan_groups(input@, pos as int),
        pos <= end <= input@.len(),
{
    let mut k: usize = pos;
    while k < input.len() && ('0' <= input[k] && input[k] <= '9' || k + 1 < input.len() && input[k]
        == '_' && '0' <= input[k + 1] && input[k + 1] <= '9')
        invariant
            pos <= k <= input@.len(),
            scan_groups(input@, pos as int) == scan_groups(input@, k as int),
        decreases input@.len() - k,
    {
        if '0' <= input[k] && input[k] <= '9' {
            k = k + 1;
        } else {
            k = k + 2;
        }
    }
    k
}

fn int_body_at(input: &Vec<char>, pos: usize) -> (r: Option<usize>)
    requires
        pos <= input@.len(),
    ensures
        (r is Some) == (int_body_end(input@, pos as int) is Some),
        r is Some ==> Some(r->0 as int) == int_body_end(input@, pos as int) && pos < r->0
            <= input@.len(),
{
    if pos < input.len() && '0' <= input[pos] && input[pos] <= '9' {
        if input[pos] == '0' {
            Some(pos + 1)
        } else {
            Some(scan_groups_at(input, pos + 1))
        }
    } else {
        None
    }
}

pub fn integer_at(input: &Vec<char>, pos: usize) -> (r: Option<usize>)
    requires
        pos <= input@.len(),
    ensures
        (r is Some) == (spec_integer(input@, pos as int) is Some),
        r is Some ==> Some(r->0 as int) == spec_integer(input@, pos as int) && pos < r->0
            <= input@.len(),
{
    if pos < input.len() && (input[pos] == '+' || input[pos] == '-') {
        int_body_at(input, pos + 1)
    } else {
        int_body_at(input, pos)
    }
}

fn exp_at(input: &Vec<char>, pos: usize) -> (r: Option<usize>)
    requires
        pos <= input@.len(),
    ensures
        (r is Some) == (exp_end(input@, pos as int) is Some),
        r is Some ==> Some(r->0 as int) == exp_end(input@, pos as int) && pos < r->0
            <= input@.len(),
{
    if pos < input.len() && (input[pos] == '+' || input[pos] == '-') {
        int_body_at(input, pos + 1)
    } else {
        int_body_at(input, pos)
    }
}

pub fn float_at(input: &Vec<char>, pos: usize) -> (r: Option<usize>)
    requires
        pos <= input@.len(),
    ensures
        (r is Some) == (spec_float(input@, pos as int) is Some),
        r is Some ==> Some(r->0 as int) == spec_float(input@, pos as int) && pos < r->0
            <= input@.len(),
{
    match integer_at(input, pos) {
        Option::None => None,
        Option::Some(e1) => {
            if e1 < input.len() && input[e1] == '.' && e1 + 1 < input.len() && '0' <= input[e1
                + 1] && input[e1 + 1] <= '9' {
                let f = scan_groups_at(input, e1 + 2);
                if f < input.len() && (input[f] == 'e' || input[f] == 'E') {
                    match exp_at(input, f + 1) {
                        Option::Some(x) => Some(x),
                        Option::None => Some(f),
                    }
                } else {
                    Some(f)
                }
            } else if e1 < input.len() && (input[e1] == 'e' || input[e1] == 'E') {
                match exp_at(input, e1 + 1) {
                    Option::Some(x) => Some(x),
                    Option::None => None,
                }
            } else {
                None
            }
        },
    }
}

pub fn boolean_at(input: &Vec<char>, pos: usize) -> (r: Option<(crate::ast::Bool, usize)>)
    requires
        pos <= input@.len(),
    ensures
        (r is Some) == (spec_boolean(input@, pos as int) is Some),
        r is Some ==> Some((r->0).1 as int) == spec_boolean(input@, pos as int) && pos < (r->0).1
            <= input@.len(),
        r is Some ==> crate::ast::bool_text((r->0).0) == input@.subrange(pos as int, (r->0).1 as int),
{
    if input.len() - pos >= 4 && input[pos] == 't' && input[pos + 1] == 'r' && input[pos + 2] == 'u'
        && input[pos + 3] == 'e' {
        proof {
            assert(crate::ast::bool_text(crate::ast::Bool::True) =~= input@.subrange(
                pos as int,
                pos as int + 4,
            ));
        }
        Some((crate::ast::Bool::True, pos + 4))
    } else if input.len() - pos >= 5 && input[pos] == 'f' && input[pos + 1] == 'a' && input[pos + 2]
        == 'l' && input[pos + 3] == 's' && input[pos + 4] == 'e' {
        proof {
            assert(crate::ast::bool_text(crate::ast::Bool::False) =~= input@.subrange(
                pos as int,
                pos as int + 5,
            ));
        }
        Some((crate::ast::Bool::False, pos + 5))
    } else {
        None
    }
}

pub fn basic_string_at(input: &Vec<char>, pos: usize) -> (r: Option<usize>)
    requires
        pos <= input@.len(),
    ensures
        (r is Some) == (spec_basic_string(input@, pos as int) is Some),
        r is Some ==> Some(r->0 as int) == spec_basic_string(input@, pos as int) && pos + 2 <= r->0
            <= input@.len(),
{
    let len = input.len();
    if !(pos < len && input[pos] == '"') {
        return None;
    }
    let mut k: usize = pos + 1;
    loop
        invariant
            pos + 1 <= k <= len,
            len == input@.len(),
            pos < input@.len() && input@[pos as int] == '"',
            spec_basic_rest(input@, pos as int + 1) == spec_basic_rest(input@, k as int),
        decreases len - k,
    {
        if k >= len {
            return None;
        }
        let c = input[k];
        if c == '"' {
            return Some(k + 1);
        }
        if c == '\\' {
            if k + 1 < len && input[k + 1] != '\n' && input[k + 1] != '\r' {
                k = k + 2;
            } else {
                return None;
            }
        } else if c >= ' ' {
            k = k + 1;
        } else {
            return None;
        }
    }
}

pub fn ml_basic_string_at(input: &Vec<char>, pos: usize) -> (r: Option<usize>)
    requires
        pos <= input@.len(),
    ensures
        (r is Some) == (spec_ml_basic_string(input@, pos as int) is Some),
        r is Some ==> Some(r->0 as int) == spec_ml_basic_string(input@, pos as int) && pos + 6
            <= r->0 <= input@.len(),
{
    let len = input.len();
    if !(len - pos >= 3 && input[pos] == '"' && input[pos + 1] == '"' && input[pos + 2] == '"') {
        return None;
    }
    let mut k: usize = pos + 3;
    loop
        invariant
            pos + 3 <= k <= len,
            len == input@.len(),
            input@[pos as int] == '"' && input@[pos as int + 1] == '"' && input@[pos as int + 2]
                == '"',
            spec_ml_basic_rest(input@, pos as int + 3) == spec_ml_basic_rest(input@, k as int),
        decreases len - k,
    {
        if len - k >= 3 && input[k] == '"' && input[k + 1] == '"' && input[k + 2] == '"' {
            return Some(k + 3);
        }
        if k >= len {
            return None;
        }
        let c = input[k];
        if c == '\\' {
            if k + 1 < len {
                k = k + 2;
            } else {
                return None;
            }
        } else if c == '\t' || c == '\n' || c == '\r' || c >= ' ' {
            k = k + 1;
        } else {
            return None;
        }
    }
}

pub fn literal_string_at(input: &Vec<char>, pos: usize) -> (r: Option<usize>)
    requires
        pos <= input@.len(),
    ensures
        (r is Some) == (spec_literal_string(input@, pos as int) is Some),
        r is Some ==> Some(r->0 as int) == spec_literal_string(input@, pos as int) && pos + 2
            <= r->0 <= input@.len(),
{
    let len = input.len();
    if !(pos < len && input[pos] == '\'') {
        return None;
    }
    let mut k: usize = pos + 1;
    loop
        invariant
            pos + 1 <= k <= len,
            len == input@.len(),
            pos < input@.len() && input@[pos as int] == '\'',
            spec_literal_rest(input@, pos as int + 1) == spec_literal_rest(input@, k as int),
        decreases len - k,
    {
        if k >= len {
            return None;
        }
        let c = input[k];
        if c == '\'' {
            return Some(k + 1);
        }
        if c == '\t' || c >= ' ' {
            k = k + 1;
        } else {
            return None;
        }
    }
}

pub fn ml_literal_string_at(input: &Vec<char>, pos: usize) -> (r: Option<usize>)
    requires
        pos <= input@.len(),
    ensures
        (r is Some) == (spec_ml_literal_string(input@, pos as int) is Some),
        r is Some ==> Some(r->0 as int) == spec_ml_literal_string(input@, pos as int) && pos + 6
            <= r->0 <= input@.len(),
{
    let len = input.len();
    if !(len - pos >= 3 && input[pos] == '\'' && input[pos + 1] == '\'' && input[pos + 2] == '\'') {
        return None;
    }
    let mut k: usize = pos + 3;
    loop
        invariant
            pos + 3 <= k <= len,
            len == input@.len(),
            input@[pos as int] == '\'' && input@[pos as int + 1] == '\'' && input@[pos as int
                + 2] == '\'',
            spec_ml_literal_rest(input@, pos as int + 3) == spec_ml_literal_rest(input@, k as int),
        decreases len - k,
    {
        if len - k >= 3 && input[k] == '\'' && input[k + 1] == '\'' && input[k + 2] == '\'' {
            return Some(k + 3);
        }
        if k >= len {
            return None;
        }
        let c = input[k];
        if c == '\t' || c == '\n' || c == '\r' || c >= ' ' {
            k = k + 1;
        } else {
            return None;
        }
    }
}

/// Length of the one line break discarded from a multiline string's
/// semantic value: a line feed, or carriage return + line feed, standing
/// immediately after the opening delimiter (content spans `[lo, hi)`).
pub open spec fn ml_lead_len(s: Seq<char>, lo: int, hi: int) -> int {
    if lo < hi && s[lo] == '\n' {
        1
    } else if lo + 1 < hi && s[lo] == '\r' && s[lo + 1] == '\n' {
        2
    } else {
        0
    }
}

fn ml_lead_at(input: &Vec<char>, lo: usize, hi: usize) -> (ld: usize)
    requires
        lo <= hi <= input@.len(),
    ensures
        ld as int == ml_lead_len(input@, lo as int, hi as int),
        lo + ld <= hi,
{
    if lo < hi && input[lo] == '\n' {
        1
    } else if lo < hi && hi - lo > 1 && input[lo] == '\r' && input[lo + 1] == '\n' {
        2
    } else {
        0
    }
}

/// What a parsed string value must hold, given the text it was parsed from:
/// the style records which form matched (earlier alternatives failing), the
/// content is the delimited text, and for the multiline forms one line
/// break right after the opening delimiter moves out of the content into
/// the style's retained lead.
pub open spec fn string_payload_ok(
    content: Seq<char>,
    t: StrType,
    s: Seq<char>,
    start: int,
    end: int,
) -> bool {
    match t {
        StrType::MLLiteral(l) => {
            &&& spec_ml_literal_string(s, start) is Some
            &&& l@ == s.subrange(start + 3, start + 3 + ml_lead_len(s, start + 3, end - 3))
            &&& content == s.subrange(start + 3 + ml_lead_len(s, start + 3, end - 3), end - 3)
        },
        StrType::MLBasic(l) => {
            &&& spec_ml_literal_string(s, start) is None
            &&& spec_ml_basic_string(s, start) is Some
            &&& l@ == s.subrange(start + 3, start + 3 + ml_lead_len(s, start + 3, end - 3))
            &&& content == s.subrange(start + 3 + ml_lead_len(s, start + 3, end - 3), end - 3)
        },
        StrType::Basic => {
            &&& spec_ml_literal_string(s, start) is None
            &&& spec_ml_basic_string(s, start) is None
            &&& spec_basic_string(s, start) is Some
            &&& content == s.subrange(start + 1, end - 1)
        },
        StrType::Literal => {
            &&& spec_ml_literal_string(s, start) is None
            &&& spec_ml_basic_string(s, start) is None
            &&& spec_basic_string(s, start) is None
            &&& spec_literal_string(s, start) is Some
            &&& content == s.subrange(start + 1, end - 1)
        },
    }
}

/// A string of any of the four quoting styles, multiline forms first.
pub open spec fn spec_string(s: Seq<char>, pos: int) -> Option<int> {
    if spec_ml_literal_string(s, pos) is Some {
        spec_ml_literal_string(s, pos)
    } else if spec_ml_basic_string(s, pos) is Some {
        spec_ml_basic_string(s, pos)
    } else if spec_basic_string(s, pos) is Some {
        spec_basic_string(s, pos)
    } else {
        spec_literal_string(s, pos)
    }
}

pub fn string_at(input: &Vec<char>, pos: usize) -> (r: Option<(Value, usize)>)
    requires
        pos <= input@.len(),
    ensures
        (r is Some) == (spec_string(input@, pos as int) is Some),
        r is Some ==> Some((r->0).1 as int) == spec_string(input@, pos as int) && pos < (r->0).1
            <= input@.len(),
        r is Some ==> value_text((r->0).0) == input@.subrange(pos as int, (r->0).1 as int),
        r is Some ==> (match (r->0).0 {
            Value::String(c, t) => string_payload_ok(c@, t, input@, pos as int, (r->0).1 as int),
            _ => false,
        }),
{
    if let Option::Some(e) = ml_literal_string_at(input, pos) {
        let ld = ml_lead_at(input, pos + 3, e - 3);
        let lead = capture(input, pos + 3, pos + 3 + ld);
        let content = capture(input, pos + 3 + ld, e - 3);
        let st = StrType::MLLiteral(lead);
        proof {
            lemma_ml_literal_rest_close(input@, pos as int + 3);
            assert(quote_text(st) + lead_text(st) + content@ + quote_text(st) =~= input@.subrange(
                pos as int,
                e as int,
            ));
        }
        Some((Value::String(content, st), e))
    } else if let Option::Some(e) = ml_basic_string_at(input, pos) {
        let ld = ml_lead_at(input, pos + 3, e - 3);
        let lead = capture(input, pos + 3, pos + 3 + ld);
        let content = capture(input, pos + 3 + ld, e - 3);
        let st = StrType::MLBasic(lead);
        proof {
            lemma_ml_basic_rest_close(input@, pos as int + 3);
            assert(quote_text(st) + lead_text(st) + content@ + quote_text(st) =~= input@.subrange(
                pos as int,
                e as int,
            ));
        }
        Some((Value::String(content, st), e))
    } else if let Option::Some(e) = basic_string_at(input, pos) {
        let content = capture(input, pos + 1, e - 1);
        proof {
            lemma_basic_rest_close(input@, pos as int + 1);
            assert(quote_text(StrType::Basic) + lead_text(StrType::Basic) + content@ + quote_text(
                StrType::Basic,
            ) =~= input@.subrange(pos as int, e as int));
        }
        Some((Value::String(content, StrType::Basic), e))
    } else if let Option::Some(e) = literal_string_at(input, pos) {
        let content = capture(input, pos + 1, e - 1);
        proof {
            lemma_literal_rest_close(input@, pos as int + 1);
            assert(quote_text(StrType::Literal) + lead_text(StrType::Literal) + content@
                + quote_text(StrType::Literal) =~= input@.subrange(pos as int, e as int));
        }
        Some((Value::String(content, StrType::Literal), e))
    } else {
        None
    }
}

/// A dot followed by one or more digits.
pub open spec fn spec_fractional(s: Seq<char>, pos: int) -> Option<int> {
    if pos + 1 < s.len() && s[pos] == '.' && is_digit(s[pos + 1]) {
        Some(digits_end(s, pos + 1))
    } else {
        None
    }
}

pub fn fractional_at(input: &Vec<char>, pos: usize) -> (r: Option<usize>)
    requires
        pos <= input@.len(),
    ensures
        (r is Some) == (spec_fractional(input@, pos as int) is Some),
        r is Some ==> Some(r->0 as int) == spec_fractional(input@, pos as int) && pos + 2 <= r->0
            <= input@.len(),
{
    if pos < input.len() && input[pos] == '.' && pos + 1 < input.len() && '0' <= input[pos + 1]
        && input[pos + 1] <= '9' {
        let e = scan_digits(input, pos + 2);
        proof {
            assert(digits_end(input@, pos as int + 1) == digits_end(input@, pos as int + 2));
        }
        Some(e)
    } else {
        None
    }
}

/// Exactly two digits at `pos`.
pub open spec fn two_digits(s: Seq<char>, pos: int) -> bool {
    pos + 2 <= s.len() && is_digit(s[pos]) && is_digit(s[pos + 1])
}

fn two_digits_at(input: &Vec<char>, pos: usize) -> (r: bool)
    requires
        pos <= input@.len(),
    ensures
        r == two_digits(input@, pos as int),
{
    input.len() - pos >= 2 && '0' <= input[pos] && input[pos] <= '9' && '0' <= input[pos + 1]
        && input[pos + 1] <= '9'
}

/// A time of day: `hh:mm:ss` with an optional fractional part.
pub open spec fn spec_time(s: Seq<char>, pos: int) -> Option<int> {
    if two_digits(s, pos) && pos + 2 < s.len() && s[pos + 2] == ':' && two_digits(s, pos + 3) && pos
        + 5 < s.len() && s[pos + 5] == ':' && two_digits(s, pos + 6) {
        match spec_fractional(s, pos + 8) {
            Option::Some(e) => Some(e),
            Option::None => Some(pos + 8),
        }
    } else {
        None
    }
}

pub fn time_at(input: &Vec<char>, pos: usize) -> (r: Option<(Time, usize)>)
    requires
        pos <= input@.len(),
    ensures
        (r is Some) == (spec_time(input@, pos as int) is Some),
        r is Some ==> Some((r->0).1 as int) == spec_time(input@, pos as int) && pos < (r->0).1
            <= input@.len(),
        r is Some ==> time_text((r->0).0) == input@.subrange(pos as int, (r->0).1 as int),
        r is Some ==> (r->0).0.hour@ == input@.subrange(pos as int, pos as int + 2)
            && (r->0).0.minute@ == input@.subrange(pos as int + 3, pos as int + 5)
            && (r->0).0.second@ == input@.subrange(pos as int + 6, pos as int + 8)
            && crate::ast::opt_fraction_text((r->0).0.fraction) == input@.subrange(
            pos as int + 8,
            (r->0).1 as int,
        ),
{
    if two_digits_at(input, pos) && input.len() - pos > 2 && input[pos + 2] == ':' && two_digits_at(
        input,
        pos + 3,
    ) && input.len() - pos > 5 && input[pos + 5] == ':' && two_digits_at(input, pos + 6) {
        let hour = capture(input, pos, pos + 2);
        let minute = capture(input, pos + 3, pos + 5);
        let second = capture(input, pos + 6, pos + 8);
        match fractional_at(input, pos + 8) {
            Option::Some(e) => {
                let fraction = capture(input, pos + 9, e);
                let t = Time { hour, minute, second, fraction: Option::Some(fraction) };
                proof {
                    assert(crate::ast::opt_fraction_text(t.fraction) =~= input@.subrange(
                        pos as int + 8,
                        e as int,
                    ));
                    assert(time_text(t) =~= input@.subrange(pos as int, e as int));
                }
                Some((t, e))
            },
            Option::None => {
                let t = Time { hour, minute, second, fraction: Option::None };
                proof {
                    assert(crate::ast::opt_fraction_text(t.fraction) =~= input@.subrange(
                        pos as int + 8,
                        pos as int + 8,
                    ));
                    assert(time_text(t) =~= input@.subrange(pos as int, pos as int + 8));
                }
                Some((t, pos + 8))
            },
        }
    } else {
        None
    }
}

/// A signed `hh:mm` offset amount.
pub open spec fn spec_offset_amount(s: Seq<char>, pos: int) -> Option<int> {
    if pos < s.len() && (s[pos] == '+' || s[pos] == '-') && two_digits(s, pos + 1) && pos + 3
        < s.len() && s[pos + 3] == ':' && two_digits(s, pos + 4) {
        Some(pos + 6)
    } else {
        None
    }
}

pub fn time_offset_amount_at(input: &Vec<char>, pos: usize) -> (r: Option<(TimeOffsetAmount, usize)>)
    requires
        pos <= input@.len(),
    ensures
        (r is Some) == (spec_offset_amount(input@, pos as int) is Some),
        r is Some ==> Some((r->0).1 as int) == spec_offset_amount(input@, pos as int) && pos
            < (r->0).1 <= input@.len(),
        r is Some ==> offset_text(TimeOffset::Time((r->0).0)) == input@.subrange(
            pos as int,
            (r->0).1 as int,
        ),
{
    if pos < input.len() && (input[pos] == '+' || input[pos] == '-') && two_digits_at(input, pos + 1)
        && pos + 3 < input.len() && input[pos + 3] == ':' && two_digits_at(input, pos + 4) {
        let pos_neg = capture(input, pos, pos + 1);
        let hour = capture(input, pos + 1, pos + 3);
        let minute = capture(input, pos + 4, pos + 6);
        let a = TimeOffsetAmount { pos_neg, hour, minute };
        proof {
            assert(offset_text(TimeOffset::Time(a)) =~= input@.subrange(pos as int, pos as int + 6));
        }
        Some((a, pos + 6))
    } else {
        None
    }
}

/// A date-time offset: `Z` or a signed amount.
pub open spec fn spec_offset(s: Seq<char>, pos: int) -> Option<int> {
    if pos < s.len() && s[pos] == 'Z' {
        Some(pos + 1)
    } else {
        spec_offset_amount(s, pos)
    }
}

pub fn time_offset_at(input: &Vec<char>, pos: usize) -> (r: Option<(TimeOffset, usize)>)
    requires
        pos <= input@.len(),
    ensures
        (r is Some) == (spec_offset(input@, pos as int) is Some),
        r is Some ==> Some((r->0).1 as int) == spec_offset(input@, pos as int) && pos < (r->0).1
            <= input@.len(),
        r is Some ==> offset_text((r->0).0) == input@.subrange(pos as int, (r->0).1 as int),
{
    if pos < input.len() && input[pos] == 'Z' {
        proof {
            assert(offset_text(TimeOffset::Z) =~= input@.subrange(pos as int, pos as int + 1));
        }
        Some((TimeOffset::Z, pos + 1))
    } else {
        match time_offset_amount_at(input, pos) {
            Option::Some((a, e)) => Some((TimeOffset::Time(a), e)),
            Option::None => None,
        }
    }
}

/// A calendar date: `yyyy-mm-dd`.
pub open spec fn spec_date(s: Seq<char>, pos: int) -> Option<int> {
    if pos + 10 <= s.len() && is_digit(s[pos]) && is_digit(s[pos + 1]) && is_digit(s[pos + 2])
        && is_digit(s[pos + 3]) && s[pos + 4] == '-' && two_digits(s, pos + 5) && s[pos + 7] == '-'
        && two_digits(s, pos + 8) {
        Some(pos + 10)
    } else {
        None
    }
}

pub fn full_date_at(input: &Vec<char>, pos: usize) -> (r: Option<(FullDate, usize)>)
    requires
        pos <= input@.len(),
    ensures
        (r is Some) == (spec_date(input@, pos as int) is Some),
        r is Some ==> Some((r->0).1 as int) == spec_date(input@, pos as int) && (r->0).1 as int
            == pos + 10 <= input@.len(),
        r is Some ==> full_date_text((r->0).0) == input@.subrange(pos as int, pos as int + 10),
        r is Some ==> (r->0).0.year@ == input@.subrange(pos as int, pos as int + 4)
            && (r->0).0.month@ == input@.subrange(pos as int + 5, pos as int + 7)
            && (r->0).0.day@ == input@.subrange(pos as int + 8, pos as int + 10),
{
    if input.len() - pos >= 10 && '0' <= input[pos] && input[pos] <= '9' && '0' <= input[pos + 1]
        && input[pos + 1] <= '9' && '0' <= input[pos + 2] && input[pos + 2] <= '9' && '0' <= input[
        pos + 3] && input[pos + 3] <= '9' && input[pos + 4] == '-' && two_digits_at(input, pos + 5)
        && input[pos + 7] == '-' && two_digits_at(input, pos + 8) {
        let year = capture(input, pos, pos + 4);
        let month = capture(input, pos + 5, pos + 7);
        let day = capture(input, pos + 8, pos + 10);
        let d = FullDate { year, month, day };
        proof {
            assert(full_date_text(d) =~= input@.subrange(pos as int, pos as int + 10));
        }
        Some((d, pos + 10))
    } else {
        None
    }
}

/// A full date-time: date, `T`, time, offset.
pub open spec fn spec_datetime(s: Seq<char>, pos: int) -> Option<int> {
    if spec_date(s, pos) is Some && pos + 10 < s.len() && s[pos + 10] == 'T' {
        match spec_time(s, pos + 11) {
            Option::Some(t) => spec_offset(s, t),
            Option::None => None,
        }
    } else {
        None
    }
}

pub fn date_time_at(input: &Vec<char>, pos: usize) -> (r: Option<(DateTime, usize)>)
    requires
        pos <= input@.len(),
    ensures
        (r is Some) == (spec_datetime(input@, pos as int) is Some),
        r is Some ==> Some((r->0).1 as int) == spec_datetime(input@, pos as int) && pos < (r->0).1
            <= input@.len(),
        r is Some ==> datetime_text((r->0).0) == input@.subrange(pos as int, (r->0).1 as int),
{
    match full_date_at(input, pos) {
        Option::None => None,
        Option::Some((d, de)) => {
            if de < input.len() && input[de] == 'T' {
                match time_at(input, de + 1) {
                    Option::None => None,
                    Option::Some((t, te)) => {
                        match time_offset_at(input, te) {
                            Option::None => None,
                            Option::Some((o, oe)) => {
                                let dt = DateTime {
                                    year: d.year,
                                    month: d.month,
                                    day: d.day,
                                    hour: t.hour,
                                    minute: t.minute,
                                    second: t.second,
                                    fraction: t.fraction,
                                    offset: o,
                                };
                                proof {
                                    assert(crate::ast::opt_fraction_text(dt.fraction)
                                        == input@.subrange(pos as int + 19, te as int));
                                    assert(datetime_text(dt) =~= input@.subrange(
                                        pos as int,
                                        oe as int,
                                    ));
                                }
                                Some((dt, oe))
                            },
                        }
                    },
                }
            } else {
                None
            }
        },
    }
}

/// An unquoted key: one or more key characters.
pub open spec fn spec_unquoted_key(s: Seq<char>, pos: int) -> Option<int> {
    if keychars_end(s, pos) > pos {
        Some(keychars_end(s, pos))
    } else {
        None
    }
}

/// A quoted key: a basic string with at least one content character; the
/// quotes are part of the key's retained text.
pub open spec fn spec_quoted_key(s: Seq<char>, pos: int) -> Option<int> {
    match spec_basic_string(s, pos) {
        Option::Some(e) => if e > pos + 2 {
            Some(e)
        } else {
            None
        },
        Option::None => None,
    }
}

/// A key: quoted form first, else unquoted.
pub open spec fn spec_key(s: Seq<char>, pos: int) -> Option<int> {
    if spec_quoted_key(s, pos) is Some {
        spec_quoted_key(s, pos)
    } else {
        spec_unquoted_key(s, pos)
    }
}

pub fn unquoted_key_at(input: &Vec<char>, pos: usize) -> (r: Option<usize>)
    requires
        pos <= input@.len(),
    ensures
        (r is Some) == (spec_unquoted_key(input@, pos as int) is Some),
        r is Some ==> Some(r->0 as int) == spec_unquoted_key(input@, pos as int) && pos < r->0
            <= input@.len(),
{
    let e = scan_keychars(input, pos);
    if e > pos {
        Some(e)
    } else {
        None
    }
}

pub fn quoted_key_at(input: &Vec<char>, pos: usize) -> (r: Option<usize>)
    requires
        pos <= input@.len(),
    ensures
        (r is Some) == (spec_quoted_key(input@, pos as int) is Some),
        r is Some ==> Some(r->0 as int) == spec_quoted_key(input@, pos as int) && pos + 3 <= r->0
            <= input@.len(),
{
    match basic_string_at(input, pos) {
        Option::Some(e) => if e - pos > 2 {
            Some(e)
        } else {
            None
        },
        Option::None => None,
    }
}

pub fn key_at(input: &Vec<char>, pos: usize) -> (r: Option<usize>)
    requires
        pos <= input@.len(),
    ensures
        (r is Some) == (spec_key(input@, pos as int) is Some),
        r is Some ==> Some(r->0 as int) == spec_key(input@, pos as int) && pos < r->0
            <= input@.len(),
{
    match quoted_key_at(input, pos) {
        Option::Some(e) => Some(e),
        Option::None => unquoted_key_at(input, pos),
    }
}

/// The `=` between a key and its value, with the whitespace on both sides.
pub open spec fn spec_keyval_sep(s: Seq<char>, pos: int) -> Option<int> {
    if ws_end(s, pos) < s.len() && s[ws_end(s, pos)] == '=' {
        Some(ws_end(s, ws_end(s, pos) + 1))
    } else {
        None
    }
}

pub fn keyval_sep_at(input: &Vec<char>, pos: usize) -> (r: Option<(WSSep, usize)>)
    requires
        pos <= input@.len(),
    ensures
        (r is Some) == (spec_keyval_sep(input@, pos as int) is Some),
        r is Some ==> Some((r->0).1 as int) == spec_keyval_sep(input@, pos as int) && pos < (r->0).1
            <= input@.len(),
        r is Some ==> wssep_text((r->0).0, '=') == input@.subrange(pos as int, (r->0).1 as int),
{
    let e1 = scan_ws(input, pos);
    if e1 < input.len() && input[e1] == '=' {
        let e2 = scan_ws(input, e1 + 1);
        let w = WSSep { ws1: capture(input, pos, e1), ws2: capture(input, e1 + 1, e2) };
        proof {
            assert(wssep_text(w, '=') =~= input@.subrange(pos as int, e2 as int));
        }
        Some((w, e2))
    } else {
        None
    }
}


/// Splits off the remainder of `chars` from `e` as an owned string.
fn rest_of(chars: &Vec<char>, e: usize) -> (r: String)
    requires
        e <= chars@.len(),
    ensures
        r@ == chars@.subrange(e as int, chars@.len() as int),
{
    capture(chars, e, chars.len())
}

/// Matches an integer literal at the start of `s`; returns the matched text
/// and the remainder.
pub fn integer(s: &str) -> (r: Option<(String, String)>)
    ensures
        (r is Some) == (spec_integer(s@, 0) is Some),
        r is Some ==> (r->0).0@ == s@.subrange(0, spec_integer(s@, 0)->0),
        r is Some ==> (r->0).1@ == s@.subrange(spec_integer(s@, 0)->0, s@.len() as int),
{
    let chars = str_to_chars(s);
    match integer_at(&chars, 0) {
        Option::Some(e) => Some((capture(&chars, 0, e), rest_of(&chars, e))),
        Option::None => None,
    }
}

/// Matches a float literal at the start of `s`; returns the matched text and
/// the remainder.
pub fn float(s: &str) -> (r: Option<(String, String)>)
    ensures
        (r is Some) == (spec_float(s@, 0) is Some),
        r is Some ==> (r->0).0@ == s@.subrange(0, spec_float(s@, 0)->0),
        r is Some ==> (r->0).1@ == s@.subrange(spec_float(s@, 0)->0, s@.len() as int),
{
    let chars = str_to_chars(s);
    match float_at(&chars, 0) {
        Option::Some(e) => Some((capture(&chars, 0, e), rest_of(&chars, e))),
        Option::None => None,
    }
}

/// Matches `true` or `false` at the start of `s`.
pub fn boolean(s: &str) -> (r: Option<(Bool, String)>)
    ensures
        (r is Some) == (spec_boolean(s@, 0) is Some),
        r is Some ==> bool_text((r->0).0) == s@.subrange(0, spec_boolean(s@, 0)->0),
        r is Some ==> (r->0).1@ == s@.subrange(spec_boolean(s@, 0)->0, s@.len() as int),
{
    let chars = str_to_chars(s);
    match boolean_at(&chars, 0) {
        Option::Some((b, e)) => Some((b, rest_of(&chars, e))),
        Option::None => None,
    }
}

/// Matches a basic string at the start of `s`; returns the content between
/// the quotes and the remainder.
pub fn basic_string(s: &str) -> (r: Option<(String, String)>)
    ensures
        (r is Some) == (spec_basic_string(s@, 0) is Some),
        r is Some ==> (r->0).0@ == s@.subrange(1, spec_basic_string(s@, 0)->0 - 1),
        r is Some ==> (r->0).1@ == s@.subrange(spec_basic_string(s@, 0)->0, s@.len() as int),
{
    let chars = str_to_chars(s);
    match basic_string_at(&chars, 0) {
        Option::Some(e) => Some((capture(&chars, 1, e - 1), rest_of(&chars, e))),
        Option::None => None,
    }
}

/// Matches a multiline basic string at the start of `s`; returns the
/// semantic content — the text between the triple quotes, minus the one
/// line break allowed right after the opening delimiter — and the remainder.
pub fn ml_basic_string(s: &str) -> (r: Option<(String, String)>)
    ensures
        (r is Some) == (spec_ml_basic_string(s@, 0) is Some),
        r is Some ==> (r->0).0@ == s@.subrange(
            3 + ml_lead_len(s@, 3, spec_ml_basic_string(s@, 0)->0 - 3),
            spec_ml_basic_string(s@, 0)->0 - 3,
        ),
        r is Some ==> (r->0).1@ == s@.subrange(spec_ml_basic_string(s@, 0)->0, s@.len() as int),
{
    let chars = str_to_chars(s);
    match ml_basic_string_at(&chars, 0) {
        Option::Some(e) => {
            let ld = ml_lead_at(&chars, 3, e - 3);
            Some((capture(&chars, 3 + ld, e - 3), rest_of(&chars, e)))
        },
        Option::None => None,
    }
}

/// Matches a literal string at the start of `s`; returns the content between
/// the quotes and the remainder.
pub fn literal_string(s: &str) -> (r: Option<(String, String)>)
    ensures
        (r is Some) == (spec_literal_string(s@, 0) is Some),
        r is Some ==> (r->0).0@ == s@.subrange(1, spec_literal_string(s@, 0)->0 - 1),
        r is Some ==> (r->0).1@ == s@.subrange(spec_literal_string(s@, 0)->0, s@.len() as int),
{
    let chars = str_to_chars(s);
    match literal_string_at(&chars, 0) {
        Option::Some(e) => Some((capture(&chars, 1, e - 1), rest_of(&chars, e))),
        Option::None => None,
    }
}

/// Matches a multiline literal string at the start of `s`; returns the
/// semantic content — the text between the triple quotes, minus the one
/// line break allowed right after the opening delimiter — and the remainder.
pub fn ml_literal_string(s: &str) -> (r: Option<(String, String)>)
    ensures
        (r is Some) == (spec_ml_literal_string(s@, 0) is Some),
        r is Some ==> (r->0).0@ == s@.subrange(
            3 + ml_lead_len(s@, 3, spec_ml_literal_string(s@, 0)->0 - 3),
            spec_ml_literal_string(s@, 0)->0 - 3,
        ),
        r is Some ==> (r->0).1@ == s@.subrange(spec_ml_literal_string(s@, 0)->0, s@.len() as int),
{
    let chars = str_to_chars(s);
    match ml_literal_string_at(&chars, 0) {
        Option::Some(e) => {
            let ld = ml_lead_at(&chars, 3, e - 3);
            Some((capture(&chars, 3 + ld, e - 3), rest_of(&chars, e)))
        },
        Option::None => None,
    }
}

/// Matches a string of any quoting style at the start of `s`; returns the
/// string value (content plus style) and the remainder.
pub fn string(s: &str) -> (r: Option<(Value, String)>)
    ensures
        (r is Some) == (spec_string(s@, 0) is Some),
        r is Some ==> value_text((r->0).0) == s@.subrange(0, spec_string(s@, 0)->0),
        r is Some ==> (match (r->0).0 {
            Value::String(c, t) => string_payload_ok(c@, t, s@, 0, spec_string(s@, 0)->0),
            _ => false,
        }),
        r is Some ==> (r->0).1@ == s@.subrange(spec_string(s@, 0)->0, s@.len() as int),
{
    let chars = str_to_chars(s);
    match string_at(&chars, 0) {
        Option::Some((v, e)) => Some((v, rest_of(&chars, e))),
        Option::None => None,
    }
}

/// Matches a fractional-seconds part at the start of `s`; returns the full
/// match, the digits without the dot, and the remainder.
pub fn fractional(s: &str) -> (r: Option<(String, String, String)>)
    ensures
        (r is Some) == (spec_fractional(s@, 0) is Some),
        r is Some ==> (r->0).0@ == s@.subrange(0, spec_fractional(s@, 0)->0),
        r is Some ==> (r->0).1@ == s@.subrange(1, spec_fractional(s@, 0)->0),
        r is Some ==> (r->0).2@ == s@.subrange(spec_fractional(s@, 0)->0, s@.len() as int),
{
    let chars = str_to_chars(s);
    match fractional_at(&chars, 0) {
        Option::Some(e) => Some(
            (capture(&chars, 0, e), capture(&chars, 1, e), rest_of(&chars, e)),
        ),
        Option::None => None,
    }
}

/// Matches a time of day at the start of `s`.
pub fn time(s: &str) -> (r: Option<(Time, String)>)
    ensures
        (r is Some) == (spec_time(s@, 0) is Some),
        r is Some ==> time_text((r->0).0) == s@.subrange(0, spec_time(s@, 0)->0),
        r is Some ==> (r->0).1@ == s@.subrange(spec_time(s@, 0)->0, s@.len() as int),
{
    let chars = str_to_chars(s);
    match time_at(&chars, 0) {
        Option::Some((t, e)) => Some((t, rest_of(&chars, e))),
        Option::None => None,
    }
}

/// Matches a signed hour:minute offset amount at the start of `s`.
pub fn time_offset_amount(s: &str) -> (r: Option<(TimeOffsetAmount, String)>)
    ensures
        (r is Some) == (spec_offset_amount(s@, 0) is Some),
        r is Some ==> offset_text(TimeOffset::Time((r->0).0)) == s@.subrange(
            0,
            spec_offset_amount(s@, 0)->0,
        ),
        r is Some ==> (r->0).1@ == s@.subrange(spec_offset_amount(s@, 0)->0, s@.len() as int),
{
    let chars = str_to_chars(s);
    match time_offset_amount_at(&chars, 0) {
        Option::Some((a, e)) => Some((a, rest_of(&chars, e))),
        Option::None => None,
    }
}

/// Matches a date-time offset at the start of `s`.
pub fn time_offset(s: &str) -> (r: Option<(TimeOffset, String)>)
    ensures
        (r is Some) == (spec_offset(s@, 0) is Some),
        r is Some ==> offset_text((r->0).0) == s@.subrange(0, spec_offset(s@, 0)->0),
        r is Some ==> (r->0).1@ == s@.subrange(spec_offset(s@, 0)->0, s@.len() as int),
{
    let chars = str_to_chars(s);
    match time_offset_at(&chars, 0) {
        Option::Some((o, e)) => Some((o, rest_of(&chars, e))),
        Option::None => None,
    }
}

/// Matches a calendar date at the start of `s`.
pub fn full_date(s: &str) -> (r: Option<(FullDate, String)>)
    ensures
        (r is Some) == (spec_date(s@, 0) is Some),
        r is Some ==> full_date_text((r->0).0) == s@.subrange(0, spec_date(s@, 0)->0),
        r is Some ==> (r->0).1@ == s@.subrange(spec_date(s@, 0)->0, s@.len() as int),
{
    let chars = str_to_chars(s);
    match full_date_at(&chars, 0) {
        Option::Some((d, e)) => Some((d, rest_of(&chars, e))),
        Option::None => None,
    }
}

/// Matches a full date-time at the start of `s`.
pub fn date_time(s: &str) -> (r: Option<(DateTime, String)>)
    ensures
        (r is Some) == (spec_datetime(s@, 0) is Some),
        r is Some ==> datetime_text((r->0).0) == s@.subrange(0, spec_datetime(s@, 0)->0),
        r is Some ==> (r->0).1@ == s@.subrange(spec_datetime(s@, 0)->0, s@.len() as int),
{
    let chars = str_to_chars(s);
    match date_time_at(&chars, 0) {
        Option::Some((dt, e)) => Some((dt, rest_of(&chars, e))),
        Option::None => None,
    }
}

/// Matches an unquoted key at the start of `s`.
pub fn unquoted_key(s: &str) -> (r: Option<(String, String)>)
    ensures
        (r is Some) == (spec_unquoted_key(s@, 0) is Some),
        r is Some ==> (r->0).0@ == s@.subrange(0, spec_unquoted_key(s@, 0)->0),
        r is Some ==> (r->0).1@ == s@.subrange(spec_unquoted_key(s@, 0)->0, s@.len() as int),
{
    let chars = str_to_chars(s);
    match unquoted_key_at(&chars, 0) {
        Option::Some(e) => Some((capture(&chars, 0, e), rest_of(&chars, e))),
        Option::None => None,
    }
}

/// Matches a quoted key at the start of `s`; the quotes stay part of the key.
pub fn quoted_key(s: &str) -> (r: Option<(String, String)>)
    ensures
        (r is Some) == (spec_quoted_key(s@, 0) is Some),
        r is Some ==> (r->0).0@ == s@.subrange(0, spec_quoted_key(s@, 0)->0),
        r is Some ==> (r->0).1@ == s@.subrange(spec_quoted_key(s@, 0)->0, s@.len() as int),
{
    let chars = str_to_chars(s);
    match quoted_key_at(&chars, 0) {
        Option::Some(e) => Some((capture(&chars, 0, e), rest_of(&chars, e))),
        Option::None => None,
    }
}

/// Matches a key (quoted or unquoted) at the start of `s`.
pub fn key(s: &str) -> (r: Option<(String, String)>)
    ensures
        (r is Some) == (spec_key(s@, 0) is Some),
        r is Some ==> (r->0).0@ == s@.subrange(0, spec_key(s@, 0)->0),
        r is Some ==> (r->0).1@ == s@.subrange(spec_key(s@, 0)->0, s@.len() as int),
{
    let chars = str_to_chars(s);
    match key_at(&chars, 0) {
        Option::Some(e) => Some((capture(&chars, 0, e), rest_of(&chars, e))),
        Option::None => None,
    }
}

/// Matches the key-value separator at the start of `s`.
pub fn keyval_sep(s: &str) -> (r: Option<(WSSep, String)>)
    ensures
        (r is Some) == (spec_keyval_sep(s@, 0) is Some),
        r is Some ==> wssep_text((r->0).0, '=') == s@.subrange(0, spec_keyval_sep(s@, 0)->0),
        r is Some ==> (r->0).1@ == s@.subrange(spec_keyval_sep(s@, 0)->0, s@.len() as int),
{
    let chars = str_to_chars(s);
    match keyval_sep_at(&chars, 0) {
        Option::Some((w, e)) => Some((w, rest_of(&chars, e))),
        Option::None => None,
    }
}


/// Parses one value at the start of `s`, trying array, inline table,
/// date-time, float, integer, boolean, string, in that order; returns the
/// value and the remainder. A match is owed exactly when the value grammar
/// matches at the start of `s`.
pub fn val(s: &str) -> (r: Option<(Value, String)>)
    ensures
        (r is Some) == (crate::objects::spec_val(s@, 0) is Some),
        r is Some ==> ({
            let consumed = value_text((r->0).0);
            consumed == s@.subrange(0, consumed.len() as int) && (r->0).1@ == s@.subrange(
                consumed.len() as int,
                s@.len() as int,
            )
        }),
{
    let chars = str_to_chars(s);
    match crate::objects::val_at(&chars, 0) {
        Option::Some((v, e)) => {
            let rest = capture(&chars, e, chars.len());
            Some((v, rest))
        },
        Option::None => None,
    }
}

/// Parses one key-value statement at the start of `s`; returns it and the
/// remainder. A match is owed exactly when the key-value grammar matches.
pub fn keyval(s: &str) -> (r: Option<(crate::ast::KeyVal, String)>)
    ensures
        (r is Some) == (crate::objects::spec_keyval(s@, 0) is Some),
        r is Some ==> ({
            let consumed = crate::ast::keyval_text((r->0).0);
            consumed == s@.subrange(0, consumed.len() as int) && (r->0).1@ == s@.subrange(
                consumed.len() as int,
                s@.len() as int,
            )
        }),
{
    let chars = str_to_chars(s);
    match crate::objects::keyval_at(&chars, 0) {
        Option::Some((kv, e)) => {
            let rest = capture(&chars, e, chars.len());
            Some((kv, rest))
        },
        Option::None => None,
    }
}

} // verus!
