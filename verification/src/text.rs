//! Character classes and scanning helpers shared by all grammar rules.
//!
//! Every scanner here is specified by a recursive spec function over the
//! input's character sequence, so callers know exactly which prefix was
//! consumed.

use vstd::prelude::*;
use vstd::string::StringExecFns;

verus! {

/// Characters allowed in an unquoted key: ASCII letters, digits, `-`, `_`.
pub open spec fn spec_is_keychar(c: char) -> bool {
    ('A' <= c && c <= 'Z') || ('a' <= c && c <= 'z') || ('0' <= c && c <= '9') || c == '-' || c
        == '_'
}

/// Recognizes the characters that may appear in an unquoted key.
pub fn is_keychar(chr: char) -> (r: bool)
    ensures
        r == spec_is_keychar(chr),
{
    ('A' <= chr && chr <= 'Z') || ('a' <= chr && chr <= 'z') || ('0' <= chr && chr <= '9') || chr
        == '-' || chr == '_'
}

/// Inline whitespace: space or tab.
pub open spec fn is_ws_char(c: char) -> bool {
    c == ' ' || c == '\t'
}

/// Whitespace that may include line breaks.
pub open spec fn is_ws_nl_char(c: char) -> bool {
    c == ' ' || c == '\t' || c == '\n' || c == '\r'
}

/// ASCII decimal digit.
pub open spec fn is_digit(c: char) -> bool {
    '0' <= c && c <= '9'
}

/// Characters allowed in the body of a comment: anything up to a line break.
pub open spec fn is_comment_char(c: char) -> bool {
    c != '\n' && c != '\r'
}

/// End position of the longest run of inline whitespace from `pos`.
pub open spec fn ws_end(s: Seq<char>, pos: int) -> int
    decreases s.len() - pos,
{
    if pos < s.len() && is_ws_char(s[pos]) {
        ws_end(s, pos + 1)
    } else {
        pos
    }
}

/// End position of the longest run of whitespace-or-newline characters from `pos`.
pub open spec fn ws_nl_end(s: Seq<char>, pos: int) -> int
    decreases s.len() - pos,
{
    if pos < s.len() && is_ws_nl_char(s[pos]) {
        ws_nl_end(s, pos + 1)
    } else {
        pos
    }
}

/// End position of the longest run of decimal digits from `pos`.
pub open spec fn digits_end(s: Seq<char>, pos: int) -> int
    decreases s.len() - pos,
{
    if pos < s.len() && is_digit(s[pos]) {
        digits_end(s, pos + 1)
    } else {
        pos
    }
}

/// End position of the longest run of key characters from `pos`.
pub open spec fn keychars_end(s: Seq<char>, pos: int) -> int
    decreases s.len() - pos,
{
    if pos < s.len() && spec_is_keychar(s[pos]) {
        keychars_end(s, pos + 1)
    } else {
        pos
    }
}

/// End position of the longest run of comment-body characters from `pos`.
pub open spec fn comment_end(s: Seq<char>, pos: int) -> int
    decreases s.len() - pos,
{
    if pos < s.len() && is_comment_char(s[pos]) {
        comment_end(s, pos + 1)
    } else {
        pos
    }
}

pub fn scan_ws(input: &Vec<char>, pos: usize) -> (end: usize)
    requires
        pos <= input@.len(),
    ensures
        end == ws_end(input@, pos as int),
        pos <= end <= input@.len(),
{
    let mut k: usize = pos;
    while k < input.len() && (input[k] == ' ' || input[k] == '\t')
        invariant
            pos <= k <= input@.len(),
            ws_end(input@, pos as int) == ws_end(input@, k as int),
        decreases input@.len() - k,
    {
        k = k + 1;
    }
    k
}

pub fn scan_ws_nl(input: &Vec<char>, pos: usize) -> (end: usize)
    requires
        pos <= input@.len(),
    ensures
        end == ws_nl_end(input@, pos as int),
        pos <= end <= input@.len(),
{
    let mut k: usize = pos;
    while k < input.len() && (input[k] == ' ' || input[k] == '\t' || input[k] == '\n' || input[k]
        == '\r')
        invariant
            pos <= k <= input@.len(),
            ws_nl_end(input@, pos as int) == ws_nl_end(input@, k as int),
        decreases input@.len() - k,
    {
        k = k + 1;
    }
    k
}

pub fn scan_digits(input: &Vec<char>, pos: usize) -> (end: usize)
    requires
        pos <= input@.len(),
    ensures
        end == digits_end(input@, pos as int),
        pos <= end <= input@.len(),
{
    let mut k: usize = pos;
    while k < input.len() && '0' <= input[k] && input[k] <= '9'
        invariant
            pos <= k <= input@.len(),
            digits_end(input@, pos as int) == digits_end(input@, k as int),
        decreases input@.len() - k,
    {
        k = k + 1;
    }
    k
}

pub fn scan_keychars(input: &Vec<char>, pos: usize) -> (end: usize)
    requires
        pos <= input@.len(),
    ensures
        end == keychars_end(input@, pos as int),
        pos <= end <= input@.len(),
{
    let mut k: usize = pos;
    while k < input.len() && is_keychar(input[k])
        invariant
            pos <= k <= input@.len(),
            keychars_end(input@, pos as int) == keychars_end(input@, k as int),
        decreases input@.len() - k,
    {
        k = k + 1;
    }
    k
}

pub fn scan_comment_body(input: &Vec<char>, pos: usize) -> (end: usize)
    requires
        pos <= input@.len(),
    ensures
        end == comment_end(input@, pos as int),
        pos <= end <= input@.len(),
{
    let mut k: usize = pos;
    while k < input.len() && input[k] != '\n' && input[k] != '\r'
        invariant
            pos <= k <= input@.len(),
            comment_end(input@, pos as int) == comment_end(input@, k as int),
        decreases input@.len() - k,
    {
        k = k + 1;
    }
    k
}

/// Relies on str::chars: it yields exactly the characters of the string, in order.
#[verifier::external_body]
pub fn str_to_chars(s: &str) -> (r: Vec<char>)
    ensures
        r@ == s@,
{
    s.chars().collect()
}

/// Relies on String's FromIterator<char>: collecting characters builds the
/// string of exactly those characters, in order.
#[verifier::external_body]
pub fn chars_to_string(v: &Vec<char>) -> (r: String)
    ensures
        r@ == v@,
{
    v.iter().collect()
}

/// Copies the characters of `input[i..j]` into an owned string.
pub fn capture(input: &Vec<char>, i: usize, j: usize) -> (r: String)
    requires
        i <= j <= input@.len(),
    ensures
        r@ == input@.subrange(i as int, j as int),
{
    let mut out: Vec<char> = Vec::new();
    let mut k: usize = i;
    while k < j
        invariant
            i <= k <= j <= input@.len(),
            out@ == input@.subrange(i as int, k as int),
        decreases j - k,
    {
        out.push(input[k]);
        k = k + 1;
        proof {
            assert(out@ =~= input@.subrange(i as int, k as int));
        }
    }
    chars_to_string(&out)
}

/// Number of line-feed characters in `s`.
pub open spec fn newline_count(s: Seq<char>) -> int
    decreases s.len(),
{
    if s.len() == 0 {
        0
    } else {
        newline_count(s.drop_last()) + if s.last() == '\n' {
            1int
        } else {
            0int
        }
    }
}

/// Counts the line feeds in `input[i..j]`.
pub fn count_newlines(input: &Vec<char>, i: usize, j: usize) -> (r: usize)
    requires
        i <= j <= input@.len(),
    ensures
        r == newline_count(input@.subrange(i as int, j as int)),
{
    let mut cnt: usize = 0;
    let mut k: usize = i;
    proof {
        assert(input@.subrange(i as int, i as int) =~= Seq::<char>::empty());
    }
    while k < j
        invariant
            i <= k <= j <= input@.len(),
            cnt == newline_count(input@.subrange(i as int, k as int)),
            cnt <= k - i,
        decreases j - k,
    {
        proof {
            assert(input@.subrange(i as int, k as int + 1).drop_last() =~= input@.subrange(
                i as int,
                k as int,
            ));
            assert(input@.subrange(i as int, k as int + 1).last() == input@[k as int]);
        }
        if input[k] == '\n' {
            cnt = cnt + 1;
        }
        k = k + 1;
    }
    cnt
}

/// Decimal digit character for `n` in 0..10.
pub open spec fn dec_digit(n: int) -> char {
    if n == 0 {
        '0'
    } else if n == 1 {
        '1'
    } else if n == 2 {
        '2'
    } else if n == 3 {
        '3'
    } else if n == 4 {
        '4'
    } else if n == 5 {
        '5'
    } else if n == 6 {
        '6'
    } else if n == 7 {
        '7'
    } else if n == 8 {
        '8'
    } else {
        '9'
    }
}

/// Decimal rendering of a nonnegative integer, most significant digit first.
pub open spec fn dec_text(n: int) -> Seq<char>
    decreases n,
{
    if n < 10 {
        seq![dec_digit(n)]
    } else {
        dec_text(n / 10).push(dec_digit(n % 10))
    }
}

fn digit_char(n: usize) -> (r: char)
    requires
        n < 10,
    ensures
        r == dec_digit(n as int),
{
    if n == 0 {
        '0'
    } else if n == 1 {
        '1'
    } else if n == 2 {
        '2'
    } else if n == 3 {
        '3'
    } else if n == 4 {
        '4'
    } else if n == 5 {
        '5'
    } else if n == 6 {
        '6'
    } else if n == 7 {
        '7'
    } else if n == 8 {
        '8'
    } else {
        '9'
    }
}

fn dec_chars(n: usize) -> (r: Vec<char>)
    ensures
        r@ == dec_text(n as int),
    decreases n,
{
    if n < 10 {
        let mut v: Vec<char> = Vec::new();
        v.push(digit_char(n));
        proof {
            assert(v@ =~= seq![dec_digit(n as int)]);
        }
        v
    } else {
        let mut v = dec_chars(n / 10);
        v.push(digit_char(n % 10));
        v
    }
}

/// Renders a nonnegative integer in decimal.
pub fn dec_string(n: usize) -> (r: String)
    ensures
        r@ == dec_text(n as int),
{
    let v = dec_chars(n);
    chars_to_string(&v)
}


/// Appends one character to a string.
pub fn append_ch(out: &mut String, c: char)
    ensures
        final(out)@ == old(out)@ + seq![c],
{
    let mut v: Vec<char> = Vec::new();
    v.push(c);
    let s = chars_to_string(&v);
    out.append(s.as_str());
    proof {
        assert(old(out)@ + v@ =~= old(out)@ + seq![c]);
    }
}

} // verus!
