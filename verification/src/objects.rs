//! The value and table grammar: arrays with comment/newline-interleaved
//! elements, inline tables, and standard/array table headers.
//!
//! Every parser here returns the end position of what it consumed together
//! with a node whose rendering is exactly the consumed characters, so a
//! successful parse can be serialized back byte-for-byte.

use vstd::prelude::*;
use crate::ast::{
    Array, ArrayValues, CommentNewLines, CommentOrNewLines, InlineTable, KeyVal, Table,
    TableKeyVals, TableType, Value, WSKeySep, WSSep, array_text, array_values_text, comment_nl_text,
    conl_text, inline_table_text, keyval_text, subkeys_text, table_keyvals_text, table_type_text,
    value_text, wssep_text, lemma_subkeys_text_push,
};
use crate::primitives::{
    boolean_at, date_time_at, float_at, integer_at, key_at, keyval_sep_at, spec_boolean,
    spec_datetime, spec_float, spec_integer, spec_key, spec_keyval_sep, spec_string, string_at,
};
use crate::text::{
    capture, comment_end, scan_comment_body, scan_ws, scan_ws_nl, str_to_chars, ws_end, ws_nl_end,
};

verus! {

/// An array or inline-table separator, as a position function: whitespace,
/// `,`, whitespace.
pub open spec fn spec_array_sep(s: Seq<char>, pos: int) -> Option<int> {
    if 0 <= pos <= s.len() && ws_end(s, pos) < s.len() && s[ws_end(s, pos)] == ',' {
        Some(ws_end(s, ws_end(s, pos) + 1))
    } else {
        None
    }
}

/// A comment with leading whitespace and trailing line break(s), as a
/// position function.
pub open spec fn spec_comment_nl(s: Seq<char>, pos: int) -> Option<int> {
    if 0 <= pos <= s.len() {
        let p1 = ws_nl_end(s, pos);
        if p1 < s.len() && s[p1] == '#' {
            let b = comment_end(s, p1 + 1);
            if b < s.len() && (s[b] == '\n' || s[b] == '\r') {
                Some(ws_nl_end(s, b))
            } else {
                None
            }
        } else {
            None
        }
    } else {
        None
    }
}

/// Trailing trivia after an array element: a comment, or bare line breaks.
pub open spec fn spec_comment_or_nl(s: Seq<char>, pos: int) -> Option<int> {
    if spec_comment_nl(s, pos) is Some {
        spec_comment_nl(s, pos)
    } else if 0 <= pos && pos < s.len() && (s[pos] == '\n' || s[pos] == '\r') {
        Some(ws_nl_end(s, pos + 1))
    } else {
        None
    }
}

/// One value, trying array, inline table, date-time, float, integer,
/// boolean, string, in that order. The bound guards only shield the
/// recursion; a parse never reaches a position outside them.
pub open spec fn spec_val(s: Seq<char>, pos: int) -> Option<int>
    decreases s.len() - pos, 2int,
{
    if !(0 <= pos <= s.len()) {
        None
    } else if spec_array(s, pos) is Some {
        spec_array(s, pos)
    } else if spec_inline_table(s, pos) is Some {
        spec_inline_table(s, pos)
    } else if spec_datetime(s, pos) is Some {
        spec_datetime(s, pos)
    } else if spec_float(s, pos) is Some {
        spec_float(s, pos)
    } else if spec_integer(s, pos) is Some {
        spec_integer(s, pos)
    } else if spec_boolean(s, pos) is Some {
        spec_boolean(s, pos)
    } else {
        spec_string(s, pos)
    }
}

/// The element chain of a non-empty array, as a position function.
pub open spec fn spec_array_values(s: Seq<char>, pos: int) -> Option<int>
    decreases s.len() - pos, 3int,
{
    if !(0 <= pos <= s.len()) {
        None
    } else {
        match spec_val(s, pos) {
            Option::None => None,
            Option::Some(p1) => if !(pos < p1 <= s.len()) {
                None
            } else {
                match spec_array_sep(s, p1) {
                    Option::Some(p2) => if !(p1 < p2 <= s.len()) {
                        None
                    } else {
                        let p3 = match spec_comment_or_nl(s, p2) {
                            Option::Some(c) => c,
                            Option::None => p2,
                        };
                        if !(p2 <= p3 <= s.len()) {
                            None
                        } else {
                            match spec_array_values(s, p3) {
                                Option::Some(p4) => Some(p4),
                                Option::None => Some(p3),
                            }
                        }
                    },
                    Option::None => {
                        match spec_comment_or_nl(s, p1) {
                            Option::Some(p2) => Some(p2),
                            Option::None => Some(p1),
                        }
                    },
                }
            },
        }
    }
}

/// A whole array, as a position function.
pub open spec fn spec_array(s: Seq<char>, pos: int) -> Option<int>
    decreases s.len() - pos, 1int,
{
    if !(0 <= pos && pos < s.len() && s[pos] == '[') {
        None
    } else {
        let w1 = ws_nl_end(s, pos + 1);
        if !(pos + 1 <= w1 <= s.len()) {
            None
        } else {
            let p2 = match spec_array_values(s, w1) {
                Option::Some(e) => e,
                Option::None => w1,
            };
            if 0 <= p2 <= s.len() && ws_end(s, p2) < s.len() && s[ws_end(s, p2)] == ']' {
                Some(ws_end(s, p2) + 1)
            } else {
                None
            }
        }
    }
}

/// The entry chain of an inline table, as a position function. A separator
/// not followed by another entry is left unconsumed.
pub open spec fn spec_table_keyvals(s: Seq<char>, pos: int) -> Option<int>
    decreases s.len() - pos, 3int,
{
    if !(0 <= pos <= s.len()) {
        None
    } else {
        match spec_key(s, pos) {
            Option::None => None,
            Option::Some(ke) => if !(pos < ke <= s.len()) {
                None
            } else {
                match spec_keyval_sep(s, ke) {
                    Option::None => None,
                    Option::Some(p1) => if !(ke < p1 <= s.len()) {
                        None
                    } else {
                        match spec_val(s, p1) {
                            Option::None => None,
                            Option::Some(p2) => if !(p1 < p2 <= s.len()) {
                                None
                            } else {
                                match spec_array_sep(s, p2) {
                                    Option::Some(p3) => if !(p2 < p3 <= s.len()) {
                                        Some(p2)
                                    } else {
                                        match spec_table_keyvals(s, p3) {
                                            Option::Some(p4) => Some(p4),
                                            Option::None => Some(p2),
                                        }
                                    },
                                    Option::None => Some(p2),
                                }
                            },
                        }
                    },
                }
            },
        }
    }
}

/// A whole inline table, as a position function.
pub open spec fn spec_inline_table(s: Seq<char>, pos: int) -> Option<int>
    decreases s.len() - pos, 1int,
{
    if !(0 <= pos && pos < s.len() && s[pos] == '{') {
        None
    } else {
        let w1 = ws_end(s, pos + 1);
        if !(pos + 1 <= w1 <= s.len()) {
            None
        } else {
            match spec_table_keyvals(s, w1) {
                Option::None => None,
                Option::Some(p2) => if !(w1 <= p2 <= s.len()) {
                    None
                } else {
                    if ws_end(s, p2) < s.len() && s[ws_end(s, p2)] == '}' {
                        Some(ws_end(s, p2) + 1)
                    } else {
                        None
                    }
                },
            }
        }
    }
}

/// A key-value statement, as a position function.
pub open spec fn spec_keyval(s: Seq<char>, pos: int) -> Option<int> {
    match spec_key(s, pos) {
        Option::None => None,
        Option::Some(ke) => if !(0 <= pos && pos < ke <= s.len()) {
            None
        } else {
            match spec_keyval_sep(s, ke) {
                Option::None => None,
                Option::Some(p1) => if !(ke < p1 <= s.len()) {
                    None
                } else {
                    spec_val(s, p1)
                },
            }
        },
    }
}

/// One dotted header segment, as a position function.
pub open spec fn spec_sub_key(s: Seq<char>, pos: int) -> Option<int> {
    if 0 <= pos <= s.len() {
        let p1 = ws_end(s, pos);
        if p1 < s.len() && s[p1] == '.' {
            let p2 = ws_end(s, p1 + 1);
            if 0 <= p2 <= s.len() {
                spec_key(s, p2)
            } else {
                None
            }
        } else {
            None
        }
    } else {
        None
    }
}

/// End of zero or more dotted header segments.
pub open spec fn spec_sub_keys(s: Seq<char>, pos: int) -> int
    decreases s.len() - pos,
{
    if !(0 <= pos <= s.len()) {
        pos
    } else {
        match spec_sub_key(s, pos) {
            Option::Some(e) => if pos < e <= s.len() {
                spec_sub_keys(s, e)
            } else {
                pos
            },
            Option::None => pos,
        }
    }
}

/// A standard table header, as a position function.
pub open spec fn spec_std_table(s: Seq<char>, pos: int) -> Option<int> {
    if 0 <= pos && pos < s.len() && s[pos] == '[' {
        let w1 = ws_end(s, pos + 1);
        if pos + 1 <= w1 <= s.len() {
            match spec_key(s, w1) {
                Option::Some(ke) => if w1 < ke <= s.len() {
                    let p2 = spec_sub_keys(s, ke);
                    if ke <= p2 <= s.len() && ws_end(s, p2) < s.len() && s[ws_end(s, p2)] == ']' {
                        Some(ws_end(s, p2) + 1)
                    } else {
                        None
                    }
                } else {
                    None
                },
                Option::None => None,
            }
        } else {
            None
        }
    } else {
        None
    }
}

/// An array-of-tables header, as a position function.
pub open spec fn spec_array_table(s: Seq<char>, pos: int) -> Option<int> {
    if 0 <= pos && pos + 1 < s.len() && s[pos] == '[' && s[pos + 1] == '[' {
        let w1 = ws_end(s, pos + 2);
        if pos + 2 <= w1 <= s.len() {
            match spec_key(s, w1) {
                Option::Some(ke) => if w1 < ke <= s.len() {
                    let p2 = spec_sub_keys(s, ke);
                    if ke <= p2 <= s.len() && ws_end(s, p2) + 1 < s.len() && s[ws_end(s, p2)]
                        == ']' && s[ws_end(s, p2) + 1] == ']' {
                        Some(ws_end(s, p2) + 2)
                    } else {
                        None
                    }
                } else {
                    None
                },
                Option::None => None,
            }
        } else {
            None
        }
    } else {
        None
    }
}

/// A table header of either kind, the array form tried first.
pub open spec fn spec_table(s: Seq<char>, pos: int) -> Option<int> {
    if spec_array_table(s, pos) is Some {
        spec_array_table(s, pos)
    } else {
        spec_std_table(s, pos)
    }
}

/// An array or inline-table separator: whitespace, `,`, whitespace.
pub fn array_sep_at(input: &Vec<char>, pos: usize) -> (r: Option<(WSSep, usize)>)
    requires
        pos <= input@.len(),
    ensures
        (r is Some) == (spec_array_sep(input@, pos as int) is Some),
        r is Some ==> Some((r->0).1 as int) == spec_array_sep(input@, pos as int),
        r is Some ==> pos < (r->0).1 <= input@.len(),
        r is Some ==> wssep_text((r->0).0, ',') == input@.subrange(pos as int, (r->0).1 as int),
{
    let e1 = scan_ws(input, pos);
    if e1 < input.len() && input[e1] == ',' {
        let e2 = scan_ws(input, e1 + 1);
        let w = WSSep { ws1: capture(input, pos, e1), ws2: capture(input, e1 + 1, e2) };
        proof {
            assert(wssep_text(w, ',') =~= input@.subrange(pos as int, e2 as int));
        }
        Some((w, e2))
    } else {
        None
    }
}

/// A comment with its leading whitespace and the line break(s) that end it.
pub fn comment_nl_at(input: &Vec<char>, pos: usize) -> (r: Option<(CommentNewLines, usize)>)
    requires
        pos <= input@.len(),
    ensures
        (r is Some) == (spec_comment_nl(input@, pos as int) is Some),
        r is Some ==> Some((r->0).1 as int) == spec_comment_nl(input@, pos as int),
        r is Some ==> pos < (r->0).1 <= input@.len(),
        r is Some ==> comment_nl_text((r->0).0) == input@.subrange(pos as int, (r->0).1 as int),
{
    let p1 = scan_ws_nl(input, pos);
    if p1 < input.len() && input[p1] == '#' {
        let body_end = scan_comment_body(input, p1 + 1);
        if body_end < input.len() && (input[body_end] == '\n' || input[body_end] == '\r') {
            let nl_end = scan_ws_nl(input, body_end);
            let c = CommentNewLines {
                pre_ws_nl: capture(input, pos, p1),
                comment: capture(input, p1, body_end),
                newlines: capture(input, body_end, nl_end),
            };
            proof {
                assert(comment_nl_text(c) =~= input@.subrange(pos as int, nl_end as int));
            }
            Some((c, nl_end))
        } else {
            None
        }
    } else {
        None
    }
}

/// Trailing trivia after an array element: a comment, or bare line breaks.
pub fn comment_or_nl_at(input: &Vec<char>, pos: usize) -> (r: Option<(CommentOrNewLines, usize)>)
    requires
        pos <= input@.len(),
    ensures
        (r is Some) == (spec_comment_or_nl(input@, pos as int) is Some),
        r is Some ==> Some((r->0).1 as int) == spec_comment_or_nl(input@, pos as int),
        r is Some ==> pos < (r->0).1 <= input@.len(),
        r is Some ==> conl_text((r->0).0) == input@.subrange(pos as int, (r->0).1 as int),
{
    match comment_nl_at(input, pos) {
        Option::Some((c, e)) => Some((CommentOrNewLines::Comment(c), e)),
        Option::None => {
            if pos < input.len() && (input[pos] == '\n' || input[pos] == '\r') {
                let e = scan_ws_nl(input, pos + 1);
                proof {
                    assert(crate::text::ws_nl_end(input@, pos as int) == crate::text::ws_nl_end(
                        input@,
                        pos as int + 1,
                    ));
                }
                Some((CommentOrNewLines::NewLines(capture(input, pos, e)), e))
            } else {
                None
            }
        },
    }
}

/// One parsed value. Tries, in order: array, inline table, date-time, float,
/// integer, boolean, string. A match is owed whenever one of the scalar
/// token grammars matches at `pos`.
pub fn val_at(input: &Vec<char>, pos: usize) -> (r: Option<(Value, usize)>)
    requires
        pos <= input@.len(),
    ensures
        (r is Some) == (spec_val(input@, pos as int) is Some),
        r is Some ==> Some((r->0).1 as int) == spec_val(input@, pos as int),
        r is Some ==> pos < (r->0).1 <= input@.len(),
        r is Some ==> value_text((r->0).0) == input@.subrange(pos as int, (r->0).1 as int),
    decreases input@.len() - pos, 2int,
{
    if let Option::Some((arr, e)) = array_at(input, pos) {
        Some((Value::Array(Box::new(arr)), e))
    } else if let Option::Some((t, e)) = inline_table_at(input, pos) {
        Some((Value::InlineTable(Box::new(t)), e))
    } else if let Option::Some((dt, e)) = date_time_at(input, pos) {
        Some((Value::DateTime(dt), e))
    } else if let Option::Some(e) = float_at(input, pos) {
        Some((Value::Float(capture(input, pos, e)), e))
    } else if let Option::Some(e) = integer_at(input, pos) {
        Some((Value::Integer(capture(input, pos, e)), e))
    } else if let Option::Some((b, e)) = boolean_at(input, pos) {
        Some((Value::Boolean(b), e))
    } else if let Option::Some((v, e)) = string_at(input, pos) {
        Some((v, e))
    } else {
        None
    }
}

/// The element chain of a non-empty array: each element may carry a
/// separator and trailing trivia; the chain ends at the first element
/// without a separator, or when no further element follows one.
pub fn array_values_at(input: &Vec<char>, pos: usize) -> (r: Option<(ArrayValues, usize)>)
    requires
        pos <= input@.len(),
    ensures
        (r is Some) == (spec_array_values(input@, pos as int) is Some),
        r is Some ==> Some((r->0).1 as int) == spec_array_values(input@, pos as int),
        r is Some ==> pos < (r->0).1 <= input@.len(),
        r is Some ==> array_values_text((r->0).0) == input@.subrange(pos as int, (r->0).1 as int),
    decreases input@.len() - pos, 3int,
{
    match val_at(input, pos) {
        Option::None => None,
        Option::Some((v, p1)) => {
            match array_sep_at(input, p1) {
                Option::Some((sep, p2)) => {
                    let (cnl, p3) = match comment_or_nl_at(input, p2) {
                        Option::Some((c, e)) => (Option::Some(c), e),
                        Option::None => (Option::None, p2),
                    };
                    match array_values_at(input, p3) {
                        Option::Some((next, p4)) => {
                            let av = ArrayValues {
                                val: v,
                                array_sep: Option::Some(sep),
                                comment_nl: cnl,
                                array_vals: Option::Some(Box::new(next)),
                            };
                            proof {
                                assert(array_values_text(av) =~= input@.subrange(
                                    pos as int,
                                    p4 as int,
                                ));
                            }
                            Some((av, p4))
                        },
                        Option::None => {
                            let av = ArrayValues {
                                val: v,
                                array_sep: Option::Some(sep),
                                comment_nl: cnl,
                                array_vals: Option::None,
                            };
                            proof {
                                assert(array_values_text(av) =~= input@.subrange(
                                    pos as int,
                                    p3 as int,
                                ));
                            }
                            Some((av, p3))
                        },
                    }
                },
                Option::None => {
                    match comment_or_nl_at(input, p1) {
                        Option::Some((c, p2)) => {
                            let av = ArrayValues {
                                val: v,
                                array_sep: Option::None,
                                comment_nl: Option::Some(c),
                                array_vals: Option::None,
                            };
                            proof {
                                assert(array_values_text(av) =~= input@.subrange(
                                    pos as int,
                                    p2 as int,
                                ));
                            }
                            Some((av, p2))
                        },
                        Option::None => {
                            let av = ArrayValues {
                                val: v,
                                array_sep: Option::None,
                                comment_nl: Option::None,
                                array_vals: Option::None,
                            };
                            proof {
                                assert(array_values_text(av) =~= input@.subrange(
                                    pos as int,
                                    p1 as int,
                                ));
                            }
                            Some((av, p1))
                        },
                    }
                },
            }
        },
    }
}

/// A whole array: bracket, free-form leading whitespace, optional element
/// chain, trailing whitespace, bracket.
pub fn array_at(input: &Vec<char>, pos: usize) -> (r: Option<(Array, usize)>)
    requires
        pos <= input@.len(),
    ensures
        (r is Some) == (spec_array(input@, pos as int) is Some),
        r is Some ==> Some((r->0).1 as int) == spec_array(input@, pos as int),
        r is Some ==> pos < (r->0).1 <= input@.len(),
        r is Some ==> array_text((r->0).0) == input@.subrange(pos as int, (r->0).1 as int),
    decreases input@.len() - pos, 1int,
{
    if pos < input.len() && input[pos] == '[' {
        let ws1e = scan_ws_nl(input, pos + 1);
        let (values, p2) = match array_values_at(input, ws1e) {
            Option::Some((avs, e)) => (Option::Some(Box::new(avs)), e),
            Option::None => (Option::None, ws1e),
        };
        let ws2e = scan_ws(input, p2);
        if ws2e < input.len() && input[ws2e] == ']' {
            let a = Array {
                values,
                ws: WSSep { ws1: capture(input, pos + 1, ws1e), ws2: capture(input, p2, ws2e) },
            };
            proof {
                assert(array_text(a) =~= input@.subrange(pos as int, ws2e as int + 1));
            }
            Some((a, ws2e + 1))
        } else {
            None
        }
    } else {
        None
    }
}

/// The entry chain of an inline table. A separator that is not followed by
/// another entry is left unconsumed.
#[verifier::rlimit(60)]
pub fn table_keyvals_at(input: &Vec<char>, pos: usize) -> (r: Option<(TableKeyVals, usize)>)
    requires
        pos <= input@.len(),
    ensures
        (r is Some) == (spec_table_keyvals(input@, pos as int) is Some),
        r is Some ==> Some((r->0).1 as int) == spec_table_keyvals(input@, pos as int),
        r is Some ==> pos < (r->0).1 <= input@.len(),
        r is Some ==> table_keyvals_text((r->0).0) == input@.subrange(pos as int, (r->0).1 as int),
    decreases input@.len() - pos, 3int,
{
    match key_at(input, pos) {
        Option::None => None,
        Option::Some(ke) => {
            match keyval_sep_at(input, ke) {
                Option::None => None,
                Option::Some((w, p1)) => {
                    match val_at(input, p1) {
                        Option::None => None,
                        Option::Some((v, p2)) => {
                            match array_sep_at(input, p2) {
                                Option::Some((ts, p3)) => {
                                    match table_keyvals_at(input, p3) {
                                        Option::Some((next, p4)) => {
                                            let kv = TableKeyVals {
                                                key: capture(input, pos, ke),
                                                keyval_sep: w,
                                                val: v,
                                                table_sep: Option::Some(ts),
                                                keyvals: Option::Some(Box::new(next)),
                                            };
                                            proof {
                                                assert(table_keyvals_text(kv) =~= input@.subrange(
                                                    pos as int,
                                                    p4 as int,
                                                ));
                                            }
                                            Some((kv, p4))
                                        },
                                        Option::None => {
                                            let kv = TableKeyVals {
                                                key: capture(input, pos, ke),
                                                keyval_sep: w,
                                                val: v,
                                                table_sep: Option::None,
                                                keyvals: Option::None,
                                            };
                                            proof {
                                                assert(table_keyvals_text(kv) =~= input@.subrange(
                                                    pos as int,
                                                    p2 as int,
                                                ));
                                            }
                                            Some((kv, p2))
                                        },
                                    }
                                },
                                Option::None => {
                                    let kv = TableKeyVals {
                                        key: capture(input, pos, ke),
                                        keyval_sep: w,
                                        val: v,
                                        table_sep: Option::None,
                                        keyvals: Option::None,
                                    };
                                    proof {
                                        assert(table_keyvals_text(kv) =~= input@.subrange(
                                            pos as int,
                                            p2 as int,
                                        ));
                                    }
                                    Some((kv, p2))
                                },
                            }
                        },
                    }
                },
            }
        },
    }
}

/// A whole inline table: brace, whitespace, entry chain, whitespace, brace.
pub fn inline_table_at(input: &Vec<char>, pos: usize) -> (r: Option<(InlineTable, usize)>)
    requires
        pos <= input@.len(),
    ensures
        (r is Some) == (spec_inline_table(input@, pos as int) is Some),
        r is Some ==> Some((r->0).1 as int) == spec_inline_table(input@, pos as int),
        r is Some ==> pos < (r->0).1 <= input@.len(),
        r is Some ==> inline_table_text((r->0).0) == input@.subrange(pos as int, (r->0).1 as int),
    decreases input@.len() - pos, 1int,
{
    if pos < input.len() && input[pos] == '{' {
        let ws1e = scan_ws(input, pos + 1);
        match table_keyvals_at(input, ws1e) {
            Option::Some((kvs, p2)) => {
                let ws2e = scan_ws(input, p2);
                if ws2e < input.len() && input[ws2e] == '}' {
                    let t = InlineTable {
                        keyvals: kvs,
                        ws: WSSep {
                            ws1: capture(input, pos + 1, ws1e),
                            ws2: capture(input, p2, ws2e),
                        },
                    };
                    proof {
                        assert(inline_table_text(t) =~= input@.subrange(pos as int, ws2e as int + 1));
                    }
                    Some((t, ws2e + 1))
                } else {
                    None
                }
            },
            Option::None => None,
        }
    } else {
        None
    }
}

/// A key and its value, as a top-level statement.
pub fn keyval_at(input: &Vec<char>, pos: usize) -> (r: Option<(KeyVal, usize)>)
    requires
        pos <= input@.len(),
    ensures
        (r is Some) == (spec_keyval(input@, pos as int) is Some),
        r is Some ==> Some((r->0).1 as int) == spec_keyval(input@, pos as int),
        r is Some ==> pos < (r->0).1 <= input@.len(),
        r is Some ==> keyval_text((r->0).0) == input@.subrange(pos as int, (r->0).1 as int),
{
    match key_at(input, pos) {
        Option::None => None,
        Option::Some(ke) => {
            match keyval_sep_at(input, ke) {
                Option::None => None,
                Option::Some((w, p1)) => {
                    match val_at(input, p1) {
                        Option::None => None,
                        Option::Some((v, p2)) => {
                            let kv = KeyVal { key: capture(input, pos, ke), keyval_sep: w, val: v };
                            proof {
                                assert(keyval_text(kv) =~= input@.subrange(pos as int, p2 as int));
                            }
                            Some((kv, p2))
                        },
                    }
                },
            }
        },
    }
}

/// One dotted segment of a table header: whitespace, `.`, whitespace, key.
pub fn table_sub_key_at(input: &Vec<char>, pos: usize) -> (r: Option<(WSKeySep, usize)>)
    requires
        pos <= input@.len(),
    ensures
        (r is Some) == (spec_sub_key(input@, pos as int) is Some),
        r is Some ==> Some((r->0).1 as int) == spec_sub_key(input@, pos as int),
        r is Some ==> pos < (r->0).1 <= input@.len(),
        r is Some ==> crate::ast::wskeysep_text((r->0).0) == input@.subrange(
            pos as int,
            (r->0).1 as int,
        ),
{
    let p1 = scan_ws(input, pos);
    if p1 < input.len() && input[p1] == '.' {
        let p2 = scan_ws(input, p1 + 1);
        match key_at(input, p2) {
            Option::Some(ke) => {
                let sk = WSKeySep {
                    ws: WSSep { ws1: capture(input, pos, p1), ws2: capture(input, p1 + 1, p2) },
                    key: capture(input, p2, ke),
                };
                proof {
                    assert(crate::ast::wskeysep_text(sk) =~= input@.subrange(pos as int, ke as int));
                }
                Some((sk, ke))
            },
            Option::None => None,
        }
    } else {
        None
    }
}

/// Zero or more dotted segments.
pub fn table_sub_keys_at(input: &Vec<char>, pos: usize) -> (r: (Vec<WSKeySep>, usize))
    requires
        pos <= input@.len(),
    ensures
        r.1 == spec_sub_keys(input@, pos as int),
        pos <= r.1 <= input@.len(),
        subkeys_text(r.0@) == input@.subrange(pos as int, r.1 as int),
{
    let mut acc: Vec<WSKeySep> = Vec::new();
    let mut cur: usize = pos;
    proof {
        assert(subkeys_text(acc@) =~= input@.subrange(pos as int, pos as int));
    }
    loop
        invariant
            pos <= cur <= input@.len(),
            subkeys_text(acc@) == input@.subrange(pos as int, cur as int),
            spec_sub_keys(input@, pos as int) == spec_sub_keys(input@, cur as int),
        decreases input@.len() - cur,
    {
        match table_sub_key_at(input, cur) {
            Option::Some((sk, e)) => {
                proof {
                    lemma_subkeys_text_push(acc@, sk);
                    assert(subkeys_text(acc@) + crate::ast::wskeysep_text(sk) =~= input@.subrange(
                        pos as int,
                        e as int,
                    ));
                }
                acc.push(sk);
                cur = e;
            },
            Option::None => {
                return (acc, cur);
            },
        }
    }
}

/// A standard table header `[ path ]`.
pub fn std_table_at(input: &Vec<char>, pos: usize) -> (r: Option<(TableType, usize)>)
    requires
        pos <= input@.len(),
    ensures
        (r is Some) == (spec_std_table(input@, pos as int) is Some),
        r is Some ==> Some((r->0).1 as int) == spec_std_table(input@, pos as int),
        r is Some ==> pos < (r->0).1 <= input@.len(),
        r is Some ==> table_type_text((r->0).0) == input@.subrange(pos as int, (r->0).1 as int),
        r is Some ==> (r->0).0 is Standard,
{
    if pos < input.len() && input[pos] == '[' {
        let ws1e = scan_ws(input, pos + 1);
        match key_at(input, ws1e) {
            Option::Some(ke) => {
                let (subkeys, p2) = table_sub_keys_at(input, ke);
                let ws2e = scan_ws(input, p2);
                if ws2e < input.len() && input[ws2e] == ']' {
                    let t = Table {
                        ws: WSSep {
                            ws1: capture(input, pos + 1, ws1e),
                            ws2: capture(input, p2, ws2e),
                        },
                        key: capture(input, ws1e, ke),
                        subkeys,
                    };
                    let tt = TableType::Standard(t);
                    proof {
                        assert(table_type_text(tt) =~= input@.subrange(pos as int, ws2e as int + 1));
                    }
                    Some((tt, ws2e + 1))
                } else {
                    None
                }
            },
            Option::None => None,
        }
    } else {
        None
    }
}

/// An array-of-tables header `[[ path ]]`.
pub fn array_table_at(input: &Vec<char>, pos: usize) -> (r: Option<(TableType, usize)>)
    requires
        pos <= input@.len(),
    ensures
        (r is Some) == (spec_array_table(input@, pos as int) is Some),
        r is Some ==> Some((r->0).1 as int) == spec_array_table(input@, pos as int),
        r is Some ==> pos < (r->0).1 <= input@.len(),
        r is Some ==> table_type_text((r->0).0) == input@.subrange(pos as int, (r->0).1 as int),
        r is Some ==> (r->0).0 is Array,
{
    if input.len() - pos >= 2 && input[pos] == '[' && input[pos + 1] == '[' {
        let ws1e = scan_ws(input, pos + 2);
        match key_at(input, ws1e) {
            Option::Some(ke) => {
                let (subkeys, p2) = table_sub_keys_at(input, ke);
                let ws2e = scan_ws(input, p2);
                if input.len() - ws2e >= 2 && input[ws2e] == ']' && input[ws2e + 1] == ']' {
                    let t = Table {
                        ws: WSSep {
                            ws1: capture(input, pos + 2, ws1e),
                            ws2: capture(input, p2, ws2e),
                        },
                        key: capture(input, ws1e, ke),
                        subkeys,
                    };
                    let tt = TableType::Array(t);
                    proof {
                        assert(table_type_text(tt) =~= input@.subrange(pos as int, ws2e as int + 2));
                    }
                    Some((tt, ws2e + 2))
                } else {
                    None
                }
            },
            Option::None => None,
        }
    } else {
        None
    }
}

/// A table header of either kind, the array form tried first.
pub fn table_at(input: &Vec<char>, pos: usize) -> (r: Option<(TableType, usize)>)
    requires
        pos <= input@.len(),
    ensures
        (r is Some) == (spec_table(input@, pos as int) is Some),
        r is Some ==> Some((r->0).1 as int) == spec_table(input@, pos as int),
        r is Some ==> pos < (r->0).1 <= input@.len(),
        r is Some ==> table_type_text((r->0).0) == input@.subrange(pos as int, (r->0).1 as int),
{
    match array_table_at(input, pos) {
        Option::Some(x) => Some(x),
        Option::None => std_table_at(input, pos),
    }
}

/// Parses a whole array at the start of `s`; returns it with the remainder.
pub fn array(s: &str) -> (r: Option<(Array, String)>)
    ensures
        (r is Some) == (spec_array(s@, 0) is Some),
        r is Some ==> ({
            let consumed = array_text((r->0).0);
            consumed == s@.subrange(0, consumed.len() as int) && (r->0).1@ == s@.subrange(
                consumed.len() as int,
                s@.len() as int,
            )
        }),
{
    let chars = str_to_chars(s);
    match array_at(&chars, 0) {
        Option::Some((a, e)) => {
            let rest = capture(&chars, e, chars.len());
            Some((a, rest))
        },
        Option::None => None,
    }
}

/// Parses a whole inline table at the start of `s`.
pub fn inline_table(s: &str) -> (r: Option<(InlineTable, String)>)
    ensures
        (r is Some) == (spec_inline_table(s@, 0) is Some),
        r is Some ==> ({
            let consumed = inline_table_text((r->0).0);
            consumed == s@.subrange(0, consumed.len() as int) && (r->0).1@ == s@.subrange(
                consumed.len() as int,
                s@.len() as int,
            )
        }),
{
    let chars = str_to_chars(s);
    match inline_table_at(&chars, 0) {
        Option::Some((t, e)) => {
            let rest = capture(&chars, e, chars.len());
            Some((t, rest))
        },
        Option::None => None,
    }
}

/// Parses a non-empty inline-table entry chain at the start of `s`.
pub fn inline_table_keyvals_non_empty(s: &str) -> (r: Option<(TableKeyVals, String)>)
    ensures
        (r is Some) == (spec_table_keyvals(s@, 0) is Some),
        r is Some ==> ({
            let consumed = table_keyvals_text((r->0).0);
            consumed == s@.subrange(0, consumed.len() as int) && (r->0).1@ == s@.subrange(
                consumed.len() as int,
                s@.len() as int,
            )
        }),
{
    let chars = str_to_chars(s);
    match table_keyvals_at(&chars, 0) {
        Option::Some((kvs, e)) => {
            let rest = capture(&chars, e, chars.len());
            Some((kvs, rest))
        },
        Option::None => None,
    }
}

/// Parses a table header of either kind at the start of `s`.
pub fn table(s: &str) -> (r: Option<(TableType, String)>)
    ensures
        (r is Some) == (spec_table(s@, 0) is Some),
        r is Some ==> ({
            let consumed = table_type_text((r->0).0);
            consumed == s@.subrange(0, consumed.len() as int) && (r->0).1@ == s@.subrange(
                consumed.len() as int,
                s@.len() as int,
            )
        }),
{
    let chars = str_to_chars(s);
    match table_at(&chars, 0) {
        Option::Some((tt, e)) => {
            let rest = capture(&chars, e, chars.len());
            Some((tt, rest))
        },
        Option::None => None,
    }
}

} // verus!
