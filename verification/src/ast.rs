//! The document model: every node keeps the exact source text of its pieces
//! (whitespace, separators, literal spellings, quoting style), so a parsed
//! document can be rendered back byte-for-byte.
//!
//! Each node type has a spec-level rendering function (`..._text`) giving the
//! exact character sequence the node stands for; the parser's contracts state
//! that a parsed node renders to precisely the text it consumed.

use vstd::prelude::*;
use vstd::string::StringExecFns;

verus! {

/// A boolean literal.
#[derive(Debug, Clone, PartialEq, Eq)]
pub enum Bool {
    True,
    False,
}

/// The four string quoting styles. The multiline forms also retain the
/// line break that immediately followed the opening delimiter, if any: that
/// break is discarded from the string's semantic value but must reappear on
/// re-serialization.
#[derive(Debug, Clone, PartialEq, Eq)]
pub enum StrType {
    Basic,
    MLBasic(String),
    Literal,
    MLLiteral(String),
}

/// Whitespace on either side of a separator token.
#[derive(Debug, Clone, PartialEq, Eq)]
pub struct WSSep {
    pub ws1: String,
    pub ws2: String,
}

/// A signed hour:minute offset, fields kept as their source digits.
#[derive(Debug, Clone, PartialEq, Eq)]
pub struct TimeOffsetAmount {
    pub pos_neg: String,
    pub hour: String,
    pub minute: String,
}

/// A date-time's offset: `Z` or a signed hour:minute amount.
#[derive(Debug, Clone, PartialEq, Eq)]
pub enum TimeOffset {
    Z,
    Time(TimeOffsetAmount),
}

/// A time of day, fields kept as their source digits.
#[derive(Debug, Clone, PartialEq, Eq)]
pub struct Time {
    pub hour: String,
    pub minute: String,
    pub second: String,
    pub fraction: Option<String>,
}

/// A calendar date, fields kept as their source digits.
#[derive(Debug, Clone, PartialEq, Eq)]
pub struct FullDate {
    pub year: String,
    pub month: String,
    pub day: String,
}

/// A full date-time with offset, every field kept as its source digits.
#[derive(Debug, Clone, PartialEq, Eq)]
pub struct DateTime {
    pub year: String,
    pub month: String,
    pub day: String,
    pub hour: String,
    pub minute: String,
    pub second: String,
    pub fraction: Option<String>,
    pub offset: TimeOffset,
}

/// A comment with the whitespace before it and the line breaks after it.
#[derive(Debug, Clone, PartialEq, Eq)]
pub struct CommentNewLines {
    pub pre_ws_nl: String,
    pub comment: String,
    pub newlines: String,
}

/// Trailing trivia after an array element: a comment or bare line breaks.
#[derive(Debug, Clone, PartialEq, Eq)]
pub enum CommentOrNewLines {
    Comment(CommentNewLines),
    NewLines(String),
}

/// A parsed value. Integer and Float keep the original literal spelling;
/// String keeps the unquoted content together with its quoting style.
#[derive(Debug, PartialEq, Eq)]
pub enum Value {
    Integer(String),
    Float(String),
    Boolean(Bool),
    DateTime(DateTime),
    String(String, StrType),
    Array(Box<Array>),
    InlineTable(Box<InlineTable>),
}

/// One array element with its optional separator and trailing trivia, chained
/// to the remaining elements.
#[derive(Debug, PartialEq, Eq)]
pub struct ArrayValues {
    pub val: Value,
    pub array_sep: Option<WSSep>,
    pub comment_nl: Option<CommentOrNewLines>,
    pub array_vals: Option<Box<ArrayValues>>,
}

/// A (possibly empty) array with its bracket-side whitespace.
#[derive(Debug, PartialEq, Eq)]
pub struct Array {
    pub values: Option<Box<ArrayValues>>,
    pub ws: WSSep,
}

/// One inline-table entry, chained to the remaining entries.
#[derive(Debug, PartialEq, Eq)]
pub struct TableKeyVals {
    pub key: String,
    pub keyval_sep: WSSep,
    pub val: Value,
    pub table_sep: Option<WSSep>,
    pub keyvals: Option<Box<TableKeyVals>>,
}

/// An inline table with its brace-side whitespace.
#[derive(Debug, PartialEq, Eq)]
pub struct InlineTable {
    pub keyvals: TableKeyVals,
    pub ws: WSSep,
}

/// A dotted-path segment after the first key, with its flanking whitespace.
#[derive(Debug, Clone, PartialEq, Eq)]
pub struct WSKeySep {
    pub ws: WSSep,
    pub key: String,
}

/// The shared payload of a table header: bracket-side whitespace, first key,
/// and the remaining dotted segments.
#[derive(Debug, Clone, PartialEq, Eq)]
pub struct Table {
    pub ws: WSSep,
    pub key: String,
    pub subkeys: Vec<WSKeySep>,
}

/// A table header: standard `[path]` or array-of-tables `[[path]]`.
#[derive(Debug, Clone, PartialEq, Eq)]
pub enum TableType {
    Standard(Table),
    Array(Table),
}

/// A key, the whitespace around its `=`, and its value.
#[derive(Debug, PartialEq, Eq)]
pub struct KeyVal {
    pub key: String,
    pub keyval_sep: WSSep,
    pub val: Value,
}

pub open spec fn bool_text(b: Bool) -> Seq<char> {
    match b {
        Bool::True => seq!['t', 'r', 'u', 'e'],
        Bool::False => seq!['f', 'a', 'l', 's', 'e'],
    }
}

/// The quote characters that open and close a string of the given style.
pub open spec fn quote_text(t: StrType) -> Seq<char> {
    match t {
        StrType::Basic => seq!['"'],
        StrType::MLBasic(_) => seq!['"', '"', '"'],
        StrType::Literal => seq!['\''],
        StrType::MLLiteral(_) => seq!['\'', '\'', '\''],
    }
}

/// The retained line break a multiline opening delimiter was followed by
/// (empty for the single-line styles, or when none was present).
pub open spec fn lead_text(t: StrType) -> Seq<char> {
    match t {
        StrType::Basic => Seq::empty(),
        StrType::MLBasic(l) => l@,
        StrType::Literal => Seq::empty(),
        StrType::MLLiteral(l) => l@,
    }
}

pub open spec fn offset_text(o: TimeOffset) -> Seq<char> {
    match o {
        TimeOffset::Z => seq!['Z'],
        TimeOffset::Time(a) => a.pos_neg@ + a.hour@ + seq![':'] + a.minute@,
    }
}

pub open spec fn opt_fraction_text(f: Option<String>) -> Seq<char> {
    match f {
        Option::Some(s) => seq!['.'] + s@,
        Option::None => Seq::empty(),
    }
}

pub open spec fn time_text(t: Time) -> Seq<char> {
    t.hour@ + seq![':'] + t.minute@ + seq![':'] + t.second@ + opt_fraction_text(t.fraction)
}

pub open spec fn full_date_text(d: FullDate) -> Seq<char> {
    d.year@ + seq!['-'] + d.month@ + seq!['-'] + d.day@
}

pub open spec fn datetime_text(dt: DateTime) -> Seq<char> {
    dt.year@ + seq!['-'] + dt.month@ + seq!['-'] + dt.day@ + seq!['T'] + dt.hour@ + seq![':']
        + dt.minute@ + seq![':'] + dt.second@ + opt_fraction_text(dt.fraction) + offset_text(
        dt.offset,
    )
}

/// A separator token `c` with its surrounding whitespace.
pub open spec fn wssep_text(w: WSSep, c: char) -> Seq<char> {
    w.ws1@ + seq![c] + w.ws2@
}

pub open spec fn opt_sep_text(w: Option<WSSep>, c: char) -> Seq<char> {
    match w {
        Option::Some(s) => wssep_text(s, c),
        Option::None => Seq::empty(),
    }
}

pub open spec fn comment_nl_text(c: CommentNewLines) -> Seq<char> {
    c.pre_ws_nl@ + c.comment@ + c.newlines@
}

pub open spec fn conl_text(c: CommentOrNewLines) -> Seq<char> {
    match c {
        CommentOrNewLines::Comment(cn) => comment_nl_text(cn),
        CommentOrNewLines::NewLines(s) => s@,
    }
}

pub open spec fn opt_conl_text(c: Option<CommentOrNewLines>) -> Seq<char> {
    match c {
        Option::Some(cn) => conl_text(cn),
        Option::None => Seq::empty(),
    }
}

/// Exact source text a value stands for.
pub open spec fn value_text(v: Value) -> Seq<char>
    decreases v,
{
    match v {
        Value::Integer(s) => s@,
        Value::Float(s) => s@,
        Value::Boolean(b) => bool_text(b),
        Value::DateTime(dt) => datetime_text(dt),
        Value::String(s, t) => quote_text(t) + lead_text(t) + s@ + quote_text(t),
        Value::Array(a) => array_text(*a),
        Value::InlineTable(t) => inline_table_text(*t),
    }
}

pub open spec fn array_values_text(av: ArrayValues) -> Seq<char>
    decreases av,
{
    value_text(av.val) + opt_sep_text(av.array_sep, ',') + opt_conl_text(av.comment_nl) + match av
        .array_vals {
        Option::Some(b) => array_values_text(*b),
        Option::None => Seq::empty(),
    }
}

pub open spec fn array_text(a: Array) -> Seq<char>
    decreases a,
{
    seq!['['] + a.ws.ws1@ + (match a.values {
        Option::Some(b) => array_values_text(*b),
        Option::None => Seq::empty(),
    }) + a.ws.ws2@ + seq![']']
}

pub open spec fn table_keyvals_text(kv: TableKeyVals) -> Seq<char>
    decreases kv,
{
    kv.key@ + wssep_text(kv.keyval_sep, '=') + value_text(kv.val) + opt_sep_text(kv.table_sep, ',')
        + match kv.keyvals {
        Option::Some(b) => table_keyvals_text(*b),
        Option::None => Seq::empty(),
    }
}

pub open spec fn inline_table_text(t: InlineTable) -> Seq<char>
    decreases t,
{
    seq!['{'] + t.ws.ws1@ + table_keyvals_text(t.keyvals) + t.ws.ws2@ + seq!['}']
}

pub open spec fn wskeysep_text(sk: WSKeySep) -> Seq<char> {
    sk.ws.ws1@ + seq!['.'] + sk.ws.ws2@ + sk.key@
}

pub open spec fn subkeys_text(s: Seq<WSKeySep>) -> Seq<char>
    decreases s.len(),
{
    if s.len() == 0 {
        Seq::empty()
    } else {
        wskeysep_text(s[0]) + subkeys_text(s.drop_first())
    }
}

/// The dotted path between the brackets of a header, whitespace included.
pub open spec fn table_core_text(t: Table) -> Seq<char> {
    t.ws.ws1@ + t.key@ + subkeys_text(t.subkeys@) + t.ws.ws2@
}

/// Exact source text of a table header, brackets included.
pub open spec fn table_type_text(tt: TableType) -> Seq<char> {
    match tt {
        TableType::Standard(t) => seq!['['] + table_core_text(t) + seq![']'],
        TableType::Array(t) => seq!['[', '['] + table_core_text(t) + seq![']', ']'],
    }
}

/// Exact source text of a key-value statement.
pub open spec fn keyval_text(kv: KeyVal) -> Seq<char> {
    kv.key@ + wssep_text(kv.keyval_sep, '=') + value_text(kv.val)
}

/// Appending a segment to a subkey list appends its text to the rendering.
pub proof fn lemma_subkeys_text_push(s: Seq<WSKeySep>, x: WSKeySep)
    ensures
        subkeys_text(s.push(x)) == subkeys_text(s) + wskeysep_text(x),
    decreases s.len(),
{
    if s.len() == 0 {
        assert(s.push(x)[0] == x);
        assert(s.push(x).drop_first() =~= Seq::<WSKeySep>::empty());
        assert(subkeys_text(s.push(x).drop_first()) == Seq::<char>::empty());
        assert(subkeys_text(s.push(x)) == wskeysep_text(x) + Seq::<char>::empty());
        assert(wskeysep_text(x) + Seq::<char>::empty() =~= wskeysep_text(x));
        assert(subkeys_text(s) + wskeysep_text(x) =~= wskeysep_text(x));
    } else {
        assert(s.push(x)[0] == s[0]);
        assert(s.push(x).drop_first() =~= s.drop_first().push(x));
        lemma_subkeys_text_push(s.drop_first(), x);
        assert(subkeys_text(s.push(x)) == wskeysep_text(s[0]) + subkeys_text(
            s.drop_first().push(x),
        ));
        assert(subkeys_text(s) + wskeysep_text(x) =~= wskeysep_text(s[0]) + (subkeys_text(
            s.drop_first(),
        ) + wskeysep_text(x)));
    }
}

impl WSSep {
    /// Builds a separator's whitespace pair from string slices.
    pub fn new_str(ws1: &str, ws2: &str) -> (r: WSSep)
        ensures
            r.ws1@ == ws1@,
            r.ws2@ == ws2@,
    {
        WSSep { ws1: ws1.to_owned(), ws2: ws2.to_owned() }
    }
}

impl TimeOffsetAmount {
    /// Builds an hour:minute offset from string slices.
    pub fn new_str(pos_neg: &str, hour: &str, minute: &str) -> (r: TimeOffsetAmount)
        ensures
            r.pos_neg@ == pos_neg@,
            r.hour@ == hour@,
            r.minute@ == minute@,
    {
        TimeOffsetAmount { pos_neg: pos_neg.to_owned(), hour: hour.to_owned(), minute: minute.to_owned() }
    }
}

impl Time {
    /// Builds a time of day from string slices.
    pub fn new_str(hour: &str, minute: &str, second: &str, fraction: Option<&str>) -> (r: Time)
        ensures
            r.hour@ == hour@,
            r.minute@ == minute@,
            r.second@ == second@,
            fraction is Some ==> r.fraction is Some && r.fraction->0@ == fraction->0@,
            fraction is None ==> r.fraction is None,
    {
        Time {
            hour: hour.to_owned(),
            minute: minute.to_owned(),
            second: second.to_owned(),
            fraction: match fraction {
                Option::Some(f) => Option::Some(f.to_owned()),
                Option::None => Option::None,
            },
        }
    }
}

impl FullDate {
    /// Builds a calendar date from string slices.
    pub fn new_str(year: &str, month: &str, day: &str) -> (r: FullDate)
        ensures
            r.year@ == year@,
            r.month@ == month@,
            r.day@ == day@,
    {
        FullDate { year: year.to_owned(), month: month.to_owned(), day: day.to_owned() }
    }
}

impl DateTime {
    /// Builds a full date-time from string slices.
    pub fn new_str(
        year: &str,
        month: &str,
        day: &str,
        hour: &str,
        minute: &str,
        second: &str,
        fraction: Option<&str>,
        offset: TimeOffset,
    ) -> (r: DateTime)
        ensures
            r.year@ == year@,
            r.month@ == month@,
            r.day@ == day@,
            r.hour@ == hour@,
            r.minute@ == minute@,
            r.second@ == second@,
            fraction is Some ==> r.fraction is Some && r.fraction->0@ == fraction->0@,
            fraction is None ==> r.fraction is None,
            r.offset == offset,
    {
        DateTime {
            year: year.to_owned(),
            month: month.to_owned(),
            day: day.to_owned(),
            hour: hour.to_owned(),
            minute: minute.to_owned(),
            second: second.to_owned(),
            fraction: match fraction {
                Option::Some(f) => Option::Some(f.to_owned()),
                Option::None => Option::None,
            },
            offset,
        }
    }
}

impl KeyVal {
    /// Builds a key-value statement from its parts.
    pub fn new_str(key: &str, keyval_sep: WSSep, val: Value) -> (r: KeyVal)
        ensures
            r.key@ == key@,
            r.keyval_sep == keyval_sep,
            r.val == val,
    {
        KeyVal { key: key.to_owned(), keyval_sep, val }
    }
}


/// Appends a boolean literal's text.
pub fn render_bool(b: &Bool, out: &mut String)
    ensures
        final(out)@ == old(out)@ + bool_text(*b),
{
    match b {
        Bool::True => {
            proof {
                reveal_strlit("true");
                assert("true"@ =~= seq!['t', 'r', 'u', 'e']);
            }
            out.append("true");
        },
        Bool::False => {
            proof {
                reveal_strlit("false");
                assert("false"@ =~= seq!['f', 'a', 'l', 's', 'e']);
            }
            out.append("false");
        },
    }
}

/// Appends a string's opening: the quote characters and, for a multiline
/// style, the retained line break after them.
pub fn render_quote_open(t: &StrType, out: &mut String)
    ensures
        final(out)@ == old(out)@ + quote_text(*t) + lead_text(*t),
{
    match t {
        StrType::Basic => {
            crate::text::append_ch(out, '"');
            proof {
                assert(old(out)@ + seq!['"'] =~= old(out)@ + quote_text(*t) + lead_text(*t));
            }
        },
        StrType::MLBasic(l) => {
            crate::text::append_ch(out, '"');
            crate::text::append_ch(out, '"');
            crate::text::append_ch(out, '"');
            out.append(l.as_str());
            proof {
                assert(old(out)@ + seq!['"'] + seq!['"'] + seq!['"'] + l@ =~= old(out)@
                    + quote_text(*t) + lead_text(*t));
            }
        },
        StrType::Literal => {
            crate::text::append_ch(out, '\'');
            proof {
                assert(old(out)@ + seq!['\''] =~= old(out)@ + quote_text(*t) + lead_text(*t));
            }
        },
        StrType::MLLiteral(l) => {
            crate::text::append_ch(out, '\'');
            crate::text::append_ch(out, '\'');
            crate::text::append_ch(out, '\'');
            out.append(l.as_str());
            proof {
                assert(old(out)@ + seq!['\''] + seq!['\''] + seq!['\''] + l@ =~= old(out)@
                    + quote_text(*t) + lead_text(*t));
            }
        },
    }
}

/// Appends a string's closing quote characters.
pub fn render_quote_close(t: &StrType, out: &mut String)
    ensures
        final(out)@ == old(out)@ + quote_text(*t),
{
    match t {
        StrType::Basic => {
            crate::text::append_ch(out, '"');
            proof {
                assert(old(out)@ + seq!['"'] =~= old(out)@ + quote_text(*t));
            }
        },
        StrType::MLBasic(_) => {
            crate::text::append_ch(out, '"');
            crate::text::append_ch(out, '"');
            crate::text::append_ch(out, '"');
            proof {
                assert(old(out)@ + seq!['"'] + seq!['"'] + seq!['"'] =~= old(out)@ + quote_text(
                    *t,
                ));
            }
        },
        StrType::Literal => {
            crate::text::append_ch(out, '\'');
            proof {
                assert(old(out)@ + seq!['\''] =~= old(out)@ + quote_text(*t));
            }
        },
        StrType::MLLiteral(_) => {
            crate::text::append_ch(out, '\'');
            crate::text::append_ch(out, '\'');
            crate::text::append_ch(out, '\'');
            proof {
                assert(old(out)@ + seq!['\''] + seq!['\''] + seq!['\''] =~= old(out)@
                    + quote_text(*t));
            }
        },
    }
}

/// Appends a separator with its surrounding whitespace.
pub fn render_wssep(w: &WSSep, c: char, out: &mut String)
    ensures
        final(out)@ == old(out)@ + wssep_text(*w, c),
{
    out.append(w.ws1.as_str());
    crate::text::append_ch(out, c);
    out.append(w.ws2.as_str());
    proof {
        assert(old(out)@ + w.ws1@ + seq![c] + w.ws2@ =~= old(out)@ + wssep_text(*w, c));
    }
}

/// Appends an optional separator.
pub fn render_opt_sep(w: &Option<WSSep>, c: char, out: &mut String)
    ensures
        final(out)@ == old(out)@ + opt_sep_text(*w, c),
{
    match w {
        Option::Some(ws) => render_wssep(ws, c, out),
        Option::None => {
            proof {
                assert(old(out)@ + opt_sep_text(*w, c) =~= old(out)@);
            }
        },
    }
}

/// Appends a comment-or-newline run.
pub fn render_conl(c: &CommentOrNewLines, out: &mut String)
    ensures
        final(out)@ == old(out)@ + conl_text(*c),
{
    match c {
        CommentOrNewLines::Comment(cn) => {
            out.append(cn.pre_ws_nl.as_str());
            out.append(cn.comment.as_str());
            out.append(cn.newlines.as_str());
            proof {
                assert(old(out)@ + cn.pre_ws_nl@ + cn.comment@ + cn.newlines@ =~= old(out)@
                    + conl_text(*c));
            }
        },
        CommentOrNewLines::NewLines(s) => {
            out.append(s.as_str());
        },
    }
}

/// Appends an optional comment-or-newline run.
pub fn render_opt_conl(c: &Option<CommentOrNewLines>, out: &mut String)
    ensures
        final(out)@ == old(out)@ + opt_conl_text(*c),
{
    match c {
        Option::Some(cn) => render_conl(cn, out),
        Option::None => {
            proof {
                assert(old(out)@ + opt_conl_text(*c) =~= old(out)@);
            }
        },
    }
}

/// Appends a date-time's offset.
pub fn render_offset(o: &TimeOffset, out: &mut String)
    ensures
        final(out)@ == old(out)@ + offset_text(*o),
{
    match o {
        TimeOffset::Z => {
            crate::text::append_ch(out, 'Z');
            proof {
                assert(old(out)@ + seq!['Z'] =~= old(out)@ + offset_text(*o));
            }
        },
        TimeOffset::Time(a) => {
            out.append(a.pos_neg.as_str());
            out.append(a.hour.as_str());
            crate::text::append_ch(out, ':');
            out.append(a.minute.as_str());
            proof {
                assert(old(out)@ + a.pos_neg@ + a.hour@ + seq![':'] + a.minute@ =~= old(out)@
                    + offset_text(*o));
            }
        },
    }
}

/// Appends a full date-time.
pub fn render_datetime(dt: &DateTime, out: &mut String)
    ensures
        final(out)@ == old(out)@ + datetime_text(*dt),
{
    out.append(dt.year.as_str());
    crate::text::append_ch(out, '-');
    out.append(dt.month.as_str());
    crate::text::append_ch(out, '-');
    out.append(dt.day.as_str());
    crate::text::append_ch(out, 'T');
    out.append(dt.hour.as_str());
    crate::text::append_ch(out, ':');
    out.append(dt.minute.as_str());
    crate::text::append_ch(out, ':');
    out.append(dt.second.as_str());
    match &dt.fraction {
        Option::Some(f) => {
            crate::text::append_ch(out, '.');
            out.append(f.as_str());
        },
        Option::None => {},
    }
    render_offset(&dt.offset, out);
    proof {
        assert(final(out)@ =~= old(out)@ + datetime_text(*dt));
    }
}

/// Appends a value's exact text.
pub fn render_value(v: &Value, out: &mut String)
    ensures
        final(out)@ == old(out)@ + value_text(*v),
    decreases *v, 2int,
{
    match v {
        Value::Integer(s) => {
            out.append(s.as_str());
        },
        Value::Float(s) => {
            out.append(s.as_str());
        },
        Value::Boolean(b) => {
            render_bool(b, out);
        },
        Value::DateTime(dt) => {
            render_datetime(dt, out);
        },
        Value::String(s, t) => {
            render_quote_open(t, out);
            out.append(s.as_str());
            render_quote_close(t, out);
            proof {
                assert(final(out)@ =~= old(out)@ + value_text(*v));
            }
        },
        Value::Array(a) => {
            render_array(a, out);
        },
        Value::InlineTable(t) => {
            render_inline_table(t, out);
        },
    }
}

/// Appends an array's element chain.
pub fn render_array_values(av: &ArrayValues, out: &mut String)
    ensures
        final(out)@ == old(out)@ + array_values_text(*av),
    decreases *av, 3int,
{
    render_value(&av.val, out);
    render_opt_sep(&av.array_sep, ',', out);
    render_opt_conl(&av.comment_nl, out);
    match &av.array_vals {
        Option::Some(next) => {
            render_array_values(next, out);
        },
        Option::None => {},
    }
    proof {
        assert(final(out)@ =~= old(out)@ + array_values_text(*av));
    }
}

/// Appends a whole array.
pub fn render_array(a: &Array, out: &mut String)
    ensures
        final(out)@ == old(out)@ + array_text(*a),
    decreases *a, 1int,
{
    crate::text::append_ch(out, '[');
    out.append(a.ws.ws1.as_str());
    match &a.values {
        Option::Some(avs) => {
            render_array_values(avs, out);
        },
        Option::None => {},
    }
    out.append(a.ws.ws2.as_str());
    crate::text::append_ch(out, ']');
    proof {
        assert(final(out)@ =~= old(out)@ + array_text(*a));
    }
}

/// Appends an inline table's entry chain.
pub fn render_table_keyvals(kv: &TableKeyVals, out: &mut String)
    ensures
        final(out)@ == old(out)@ + table_keyvals_text(*kv),
    decreases *kv, 3int,
{
    out.append(kv.key.as_str());
    render_wssep(&kv.keyval_sep, '=', out);
    render_value(&kv.val, out);
    render_opt_sep(&kv.table_sep, ',', out);
    match &kv.keyvals {
        Option::Some(next) => {
            render_table_keyvals(next, out);
        },
        Option::None => {},
    }
    proof {
        assert(final(out)@ =~= old(out)@ + table_keyvals_text(*kv));
    }
}

/// Appends a whole inline table.
pub fn render_inline_table(t: &InlineTable, out: &mut String)
    ensures
        final(out)@ == old(out)@ + inline_table_text(*t),
    decreases *t, 1int,
{
    crate::text::append_ch(out, '{');
    out.append(t.ws.ws1.as_str());
    render_table_keyvals(&t.keyvals, out);
    out.append(t.ws.ws2.as_str());
    crate::text::append_ch(out, '}');
    proof {
        assert(final(out)@ =~= old(out)@ + inline_table_text(*t));
    }
}

/// Appends a table header's exact text, brackets included.
pub fn render_table_type(tt: &TableType, out: &mut String)
    ensures
        final(out)@ == old(out)@ + table_type_text(*tt),
{
    match tt {
        TableType::Standard(t) => {
            crate::text::append_ch(out, '[');
            render_table_core(t, out);
            crate::text::append_ch(out, ']');
            proof {
                assert(final(out)@ =~= old(out)@ + table_type_text(*tt));
            }
        },
        TableType::Array(t) => {
            crate::text::append_ch(out, '[');
            crate::text::append_ch(out, '[');
            render_table_core(t, out);
            crate::text::append_ch(out, ']');
            crate::text::append_ch(out, ']');
            proof {
                assert(final(out)@ =~= old(out)@ + table_type_text(*tt));
            }
        },
    }
}

/// Appends the dotted path between a header's brackets.
pub fn render_table_core(t: &Table, out: &mut String)
    ensures
        final(out)@ == old(out)@ + table_core_text(*t),
{
    out.append(t.ws.ws1.as_str());
    out.append(t.key.as_str());
    let mut i: usize = 0;
    proof {
        assert(t.subkeys@.take(0int) =~= Seq::<WSKeySep>::empty());
        assert(out@ =~= old(out)@ + t.ws.ws1@ + t.key@ + subkeys_text(t.subkeys@.take(0int)));
    }
    while i < t.subkeys.len()
        invariant
            0 <= i <= t.subkeys@.len(),
            out@ == old(out)@ + t.ws.ws1@ + t.key@ + subkeys_text(t.subkeys@.take(i as int)),
        decreases t.subkeys@.len() - i,
    {
        let sk = &t.subkeys[i];
        out.append(sk.ws.ws1.as_str());
        crate::text::append_ch(out, '.');
        out.append(sk.ws.ws2.as_str());
        out.append(sk.key.as_str());
        proof {
            assert(t.subkeys@.take(i as int + 1) =~= t.subkeys@.take(i as int).push(
                t.subkeys@[i as int],
            ));
            lemma_subkeys_text_push(t.subkeys@.take(i as int), t.subkeys@[i as int]);
            assert(out@ =~= old(out)@ + t.ws.ws1@ + t.key@ + subkeys_text(
                t.subkeys@.take(i as int + 1),
            ));
        }
        i = i + 1;
    }
    proof {
        assert(t.subkeys@.take(t.subkeys@.len() as int) =~= t.subkeys@);
    }
    out.append(t.ws.ws2.as_str());
    proof {
        assert(final(out)@ =~= old(out)@ + table_core_text(*t));
    }
}

} // verus!
