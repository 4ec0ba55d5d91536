//! The document parser and model: a single pass builds the list of retained
//! statements (each with its surrounding trivia), a shared arena of value
//! cells, and a flat path index with accumulated duplicate/invalid-table
//! errors. Get/set by path mutate one arena slot; serialization renders the
//! statement list back, byte-identical to the source when unmodified.

use vstd::prelude::*;
use vstd::string::StringExecFns;
use crate::ast::{
    KeyVal, Table, TableType, Value, WSKeySep, WSSep, render_table_type, render_value,
    render_wssep, table_type_text, value_text, wssep_text,
};
use crate::objects::{keyval_at, spec_keyval, spec_table, table_at};
use crate::text::{capture, comment_end, count_newlines, dec_string, dec_text, newline_count,
    scan_comment_body, scan_ws_nl, str_to_chars, ws_nl_end};

verus! {

/// One retained statement: a key-value (its value lives in the arena) or a
/// table header.
pub enum DocNode {
    KV { key: String, keyval_sep: WSSep, handle: usize },
    Tbl(TableType),
}

/// One document statement together with the whitespace/comment run before it.
pub struct DocItem {
    pub pre: String,
    pub node: DocNode,
}

/// An index entry: a fully qualified path mapping to a value's arena slot,
/// or to nothing for a table-header placeholder.
pub struct IndexEntry {
    pub path: String,
    pub value: Option<usize>,
}

/// A recoverable parse error. Both kinds reference the offending value by
/// its arena slot, the same cell the document tree renders.
#[derive(Debug)]
pub enum ParseError {
    /// A key-value or header whose path was already bound; the original
    /// binding is kept and the newcomer's value recorded here.
    DuplicateKey { path: String, handle: usize },
    /// A table header that failed to resolve a valid container; key-values
    /// under it are diverted into this side list instead of the index.
    InvalidTable { path: String, keyvals: Vec<(String, usize)> },
}

/// A fatal grammar failure: the statement starting at the reported line did
/// not match any production.
#[derive(Debug, PartialEq, Eq)]
pub struct ParseFailure {
    pub line: usize,
}

/// Failure of the path-based lookup/mutation surface.
#[derive(Debug, PartialEq, Eq)]
pub enum PathError {
    NotFound,
}

/// One open array-of-tables scope: its dotted path, the last path segment
/// (used when printing qualified paths), and its occurrence index.
pub struct ArrayStackEntry {
    pub path: String,
    pub last_key: String,
    pub index: usize,
}

/// What the most recent table header opened: a standard table (with its
/// dotted path relative to the enclosing array scopes) or an array table.
pub enum OpenTable {
    Standard { path: String },
    ArrayT,
}

/// Exact text a statement stands for, given the value arena.
pub open spec fn node_text(n: DocNode, arena: Seq<Value>) -> Seq<char> {
    match n {
        DocNode::KV { key, keyval_sep, handle } => key@ + wssep_text(keyval_sep, '=') + (if handle
            < arena.len() {
            value_text(arena[handle as int])
        } else {
            Seq::empty()
        }),
        DocNode::Tbl(tt) => table_type_text(tt),
    }
}

/// Exact text of a statement with its leading trivia.
pub open spec fn item_text(it: DocItem, arena: Seq<Value>) -> Seq<char> {
    it.pre@ + node_text(it.node, arena)
}

/// Exact text of a statement list.
pub open spec fn items_text(items: Seq<DocItem>, arena: Seq<Value>) -> Seq<char>
    decreases items.len(),
{
    if items.len() == 0 {
        Seq::empty()
    } else {
        item_text(items[0], arena) + items_text(items.drop_first(), arena)
    }
}

/// Every key-value statement's handle points into the arena.
pub open spec fn handles_ok(items: Seq<DocItem>, n: int) -> bool {
    forall|i: int|
        0 <= i < items.len() ==> match (#[trigger] items[i]).node {
            DocNode::KV { handle, .. } => handle < n,
            DocNode::Tbl(_) => true,
        }
}

/// Appending a statement appends its text.
pub proof fn lemma_items_text_push(items: Seq<DocItem>, arena: Seq<Value>, it: DocItem)
    ensures
        items_text(items.push(it), arena) == items_text(items, arena) + item_text(it, arena),
    decreases items.len(),
{
    if items.len() == 0 {
        assert(items.push(it)[0] == it);
        assert(items.push(it).drop_first() =~= Seq::<DocItem>::empty());
        assert(items_text(items.push(it).drop_first(), arena) == Seq::<char>::empty());
        assert(items_text(items.push(it), arena) =~= items_text(items, arena) + item_text(
            it,
            arena,
        ));
    } else {
        assert(items.push(it)[0] == items[0]);
        assert(items.push(it).drop_first() =~= items.drop_first().push(it));
        lemma_items_text_push(items.drop_first(), arena, it);
        assert(items_text(items.push(it), arena) =~= items_text(items, arena) + item_text(
            it,
            arena,
        ));
    }
}

/// Growing the arena does not change the text of statements whose handles
/// already pointed into it.
pub proof fn lemma_items_text_arena_grow(items: Seq<DocItem>, arena1: Seq<Value>, arena2: Seq<Value>)
    requires
        handles_ok(items, arena1.len() as int),
        arena1.len() <= arena2.len(),
        forall|h: int| 0 <= h < arena1.len() ==> arena2[h] == arena1[h],
    ensures
        items_text(items, arena2) == items_text(items, arena1),
    decreases items.len(),
{
    if items.len() > 0 {
        assert(handles_ok(items.drop_first(), arena1.len() as int)) by {
            assert(forall|i: int|
                0 <= i < items.drop_first().len() ==> items.drop_first()[i] == items[i + 1]);
        }
        lemma_items_text_arena_grow(items.drop_first(), arena1, arena2);
        assert(item_text(items[0], arena2) == item_text(items[0], arena1));
    }
}

/// The dotted rendering of a header's trailing segments, without whitespace.
pub open spec fn dotted_subkeys(s: Seq<WSKeySep>) -> Seq<char>
    decreases s.len(),
{
    if s.len() == 0 {
        Seq::empty()
    } else {
        seq!['.'] + s[0].key@ + dotted_subkeys(s.drop_first())
    }
}

/// The dotted path of a table header, without whitespace.
pub open spec fn dotted(t: Table) -> Seq<char> {
    t.key@ + dotted_subkeys(t.subkeys@)
}

pub proof fn lemma_dotted_subkeys_push(s: Seq<WSKeySep>, x: WSKeySep)
    ensures
        dotted_subkeys(s.push(x)) == dotted_subkeys(s) + seq!['.'] + x.key@,
    decreases s.len(),
{
    if s.len() == 0 {
        assert(s.push(x)[0] == x);
        assert(s.push(x).drop_first() =~= Seq::<WSKeySep>::empty());
        assert(dotted_subkeys(s.push(x).drop_first()) == Seq::<char>::empty());
        assert(dotted_subkeys(s.push(x)) =~= dotted_subkeys(s) + seq!['.'] + x.key@);
    } else {
        assert(s.push(x)[0] == s[0]);
        assert(s.push(x).drop_first() =~= s.drop_first().push(x));
        lemma_dotted_subkeys_push(s.drop_first(), x);
        assert(dotted_subkeys(s.push(x)) =~= dotted_subkeys(s) + seq!['.'] + x.key@);
    }
}

/// The last segment of a header's dotted path.
pub open spec fn last_key_of(t: Table) -> Seq<char> {
    if t.subkeys@.len() == 0 {
        t.key@
    } else {
        t.subkeys@.last().key@
    }
}

/// The qualified prefix contributed by the open array-of-tables scopes:
/// `last_key[occurrence].` for each, outermost first.
pub open spec fn stack_prefix(s: Seq<ArrayStackEntry>) -> Seq<char>
    decreases s.len(),
{
    if s.len() == 0 {
        Seq::empty()
    } else {
        s[0].last_key@ + seq!['['] + dec_text(s[0].index as int) + seq![']', '.'] + stack_prefix(
            s.drop_first(),
        )
    }
}

pub proof fn lemma_stack_prefix_push(s: Seq<ArrayStackEntry>, x: ArrayStackEntry)
    ensures
        stack_prefix(s.push(x)) == stack_prefix(s) + (x.last_key@ + seq!['['] + dec_text(
            x.index as int,
        ) + seq![']', '.']),
    decreases s.len(),
{
    if s.len() == 0 {
        assert(s.push(x)[0] == x);
        assert(s.push(x).drop_first() =~= Seq::<ArrayStackEntry>::empty());
        assert(stack_prefix(s.push(x).drop_first()) == Seq::<char>::empty());
        assert(stack_prefix(s.push(x)) =~= stack_prefix(s) + (x.last_key@ + seq!['['] + dec_text(
            x.index as int,
        ) + seq![']', '.']));
    } else {
        assert(s.push(x)[0] == s[0]);
        assert(s.push(x).drop_first() =~= s.drop_first().push(x));
        lemma_stack_prefix_push(s.drop_first(), x);
        assert(stack_prefix(s.push(x)) =~= stack_prefix(s) + (x.last_key@ + seq!['['] + dec_text(
            x.index as int,
        ) + seq![']', '.']));
    }
}


/// A proper dotted prefix: `a` followed by a dot begins `b`.
pub open spec fn spec_dotted_prefix(a: Seq<char>, b: Seq<char>) -> bool {
    a.len() < b.len() && b.subrange(0, a.len() as int) == a && b[a.len() as int] == '.'
}

fn is_dotted_prefix(a: &String, b: &String) -> (r: bool)
    ensures
        r == spec_dotted_prefix(a@, b@),
{
    let ca = str_to_chars(a.as_str());
    let cb = str_to_chars(b.as_str());
    if ca.len() < cb.len() && cb[ca.len()] == '.' {
        let mut i: usize = 0;
        while i < ca.len()
            invariant
                0 <= i <= ca@.len() < cb@.len(),
                ca@ == a@,
                cb@ == b@,
                forall|j: int| 0 <= j < i ==> ca@[j] == cb@[j],
            decreases ca@.len() - i,
        {
            if ca[i] != cb[i] {
                proof {
                    assert(b@.subrange(0, a@.len() as int)[i as int] != a@[i as int]);
                }
                return false;
            }
            i = i + 1;
        }
        proof {
            assert(b@.subrange(0, a@.len() as int) =~= a@);
        }
        true
    } else {
        proof {
            if a@.len() < b@.len() {
                assert(b@[a@.len() as int] != '.');
            }
        }
        false
    }
}

/// Formats a header's dotted path without its whitespace.
pub fn format_keys(t: &Table) -> (r: String)
    ensures
        r@ == dotted(*t),
{
    let mut out: String = t.key.clone();
    let mut i: usize = 0;
    proof {
        assert(t.subkeys@.take(0int) =~= Seq::<WSKeySep>::empty());
        assert(out@ =~= t.key@ + dotted_subkeys(t.subkeys@.take(0int)));
    }
    while i < t.subkeys.len()
        invariant
            0 <= i <= t.subkeys@.len(),
            out@ == t.key@ + dotted_subkeys(t.subkeys@.take(i as int)),
        decreases t.subkeys@.len() - i,
    {
        crate::text::append_ch(&mut out, '.');
        out.append(t.subkeys[i].key.as_str());
        proof {
            assert(t.subkeys@.take(i as int + 1) =~= t.subkeys@.take(i as int).push(
                t.subkeys@[i as int],
            ));
            lemma_dotted_subkeys_push(t.subkeys@.take(i as int), t.subkeys@[i as int]);
            assert(out@ =~= t.key@ + dotted_subkeys(t.subkeys@.take(i as int + 1)));
        }
        i = i + 1;
    }
    proof {
        assert(t.subkeys@.take(t.subkeys@.len() as int) =~= t.subkeys@);
    }
    out
}

/// The last segment of a header's dotted path.
pub fn get_last_key(t: &Table) -> (r: String)
    ensures
        r@ == last_key_of(*t),
{
    if t.subkeys.len() == 0 {
        t.key.clone()
    } else {
        t.subkeys[t.subkeys.len() - 1].key.clone()
    }
}

/// The qualified prefix contributed by the open array-table scopes,
/// `last_key[occurrence].` for each, outermost first.
pub fn get_array_table_key(stack: &Vec<ArrayStackEntry>) -> (r: String)
    ensures
        r@ == stack_prefix(stack@),
{
    let mut out = String::new();
    let mut i: usize = 0;
    proof {
        assert(stack@.take(0int) =~= Seq::<ArrayStackEntry>::empty());
        assert(out@ =~= stack_prefix(stack@.take(0int)));
    }
    while i < stack.len()
        invariant
            0 <= i <= stack@.len(),
            out@ == stack_prefix(stack@.take(i as int)),
        decreases stack@.len() - i,
    {
        out.append(stack[i].last_key.as_str());
        crate::text::append_ch(&mut out, '[');
        let d = dec_string(stack[i].index);
        out.append(d.as_str());
        crate::text::append_ch(&mut out, ']');
        crate::text::append_ch(&mut out, '.');
        proof {
            assert(stack@.take(i as int + 1) =~= stack@.take(i as int).push(stack@[i as int]));
            lemma_stack_prefix_push(stack@.take(i as int), stack@[i as int]);
            assert(out@ =~= stack_prefix(stack@.take(i as int + 1)));
        }
        i = i + 1;
    }
    proof {
        assert(stack@.take(stack@.len() as int) =~= stack@);
    }
    out
}

/// Finds the position of the first index entry with the given path.
fn find_entry(index: &Vec<IndexEntry>, path: &String) -> (r: Option<usize>)
    ensures
        r is Some ==> r->0 < index@.len() && index@[r->0 as int].path@ == path@,
        r is None ==> forall|j: int| 0 <= j < index@.len() ==> index@[j].path@ != path@,
{
    let mut i: usize = 0;
    while i < index.len()
        invariant
            0 <= i <= index@.len(),
            forall|j: int| 0 <= j < i ==> index@[j].path@ != path@,
        decreases index@.len() - i,
    {
        if index[i].path == *path {
            return Some(i);
        }
        i = i + 1;
    }
    None
}

/// How one opening of the array-table path `q` changes the occurrence map:
/// the first entry for `q` yields its prior count `idx` and is incremented
/// (its count never decreases; it saturates only at the machine limit), or
/// no entry exists, `idx` is zero, and a fresh entry with count one is
/// appended. Every other entry is untouched.
pub open spec fn occurrence_outcome(
    pre: Seq<(String, usize)>,
    post: Seq<(String, usize)>,
    q: Seq<char>,
    idx: usize,
) -> bool {
    ||| (exists|j: int|
        {
            &&& 0 <= j < pre.len()
            &&& (#[trigger] pre[j]).0@ == q
            &&& (forall|l: int| 0 <= l < j ==> pre[l].0@ != q)
            &&& idx == pre[j].1
            &&& post.len() == pre.len()
            &&& post[j].0@ == q
            &&& (idx < usize::MAX ==> post[j].1 == idx + 1)
            &&& (idx == usize::MAX ==> post[j].1 == idx)
            &&& (forall|l: int| 0 <= l < pre.len() && l != j ==> post[l] == pre[l])
        })
    ||| ((forall|j: int| 0 <= j < pre.len() ==> (#[trigger] pre[j]).0@ != q) && idx == 0
        && post.len() == pre.len() + 1 && post.last().0@ == q && post.last().1 == 1 && (forall|
        j: int,
    | 0 <= j < pre.len() ==> post[j] == pre[j]))
}

/// Bumps the occurrence count for an array-table path; returns the
/// zero-based occurrence index of this opening.
fn bump_occurrence(occ: &mut Vec<(String, usize)>, path: &String) -> (r: usize)
    ensures
        occurrence_outcome(old(occ)@, final(occ)@, path@, r),
{
    let mut i: usize = 0;
    while i < occ.len()
        invariant
            0 <= i <= occ@.len(),
            occ == old(occ),
            forall|l: int| 0 <= l < i ==> (#[trigger] occ@[l]).0@ != path@,
        decreases occ@.len() - i,
    {
        if occ[i].0 == *path {
            let c = occ[i].1;
            let bumped: usize = if c < usize::MAX {
                c + 1
            } else {
                c
            };
            occ.set(i, (path.clone(), bumped));
            return c;
        }
        i = i + 1;
    }
    occ.push((path.clone(), 1));
    0
}


/// Key-value statements keep pairwise-distinct handles when a statement
/// with a fresh handle is appended.
proof fn lemma_distinct_handles_push(items: Seq<DocItem>, it: DocItem, bound: int)
    requires
        handles_ok(items, bound),
        forall|i: int, j: int|
            #![trigger items[i], items[j]]
            0 <= i < j < items.len() ==> match (items[i].node, items[j].node) {
                (DocNode::KV { handle: h1, .. }, DocNode::KV { handle: h2, .. }) => h1 != h2,
                _ => true,
            },
        match it.node {
            DocNode::KV { handle, .. } => handle >= bound,
            DocNode::Tbl(_) => true,
        },
    ensures
        forall|i: int, j: int|
            #![trigger items.push(it)[i], items.push(it)[j]]
            0 <= i < j < items.push(it).len() ==> match (
                items.push(it)[i].node,
                items.push(it)[j].node,
            ) {
                (DocNode::KV { handle: h1, .. }, DocNode::KV { handle: h2, .. }) => h1 != h2,
                _ => true,
            },
{
    let n = items.len() as int;
    assert forall|i: int, j: int|
        0 <= i < j < items.push(it).len() implies match (
        (#[trigger] items.push(it)[i]).node,
        (#[trigger] items.push(it)[j]).node,
    ) {
        (DocNode::KV { handle: h1, .. }, DocNode::KV { handle: h2, .. }) => h1 != h2,
        _ => true,
    } by {
        if j < n {
            assert(items.push(it)[i] == items[i]);
            assert(items.push(it)[j] == items[j]);
        } else {
            assert(items.push(it)[i] == items[i]);
            assert(items.push(it)[j] == it);
        }
    }
}

/// Every indexed value handle still names some statement after a statement
/// is appended.
proof fn lemma_index_witness_push(items: Seq<DocItem>, index: Seq<IndexEntry>, it: DocItem)
    requires
        forall|e: int|
            0 <= e < index.len() && (#[trigger] index[e]).value is Some ==> exists|i: int|
                0 <= i < items.len() && match (#[trigger] items[i]).node {
                    DocNode::KV { handle, .. } => handle == index[e].value->0,
                    DocNode::Tbl(_) => false,
                },
    ensures
        forall|e: int|
            0 <= e < index.len() && (#[trigger] index[e]).value is Some ==> exists|i: int|
                0 <= i < items.push(it).len() && match (#[trigger] items.push(it)[i]).node {
                    DocNode::KV { handle, .. } => handle == index[e].value->0,
                    DocNode::Tbl(_) => false,
                },
{
    assert forall|e: int|
        0 <= e < index.len() && (#[trigger] index[e]).value is Some implies exists|i: int|
            0 <= i < items.push(it).len() && match (#[trigger] items.push(it)[i]).node {
                DocNode::KV { handle, .. } => handle == index[e].value->0,
                DocNode::Tbl(_) => false,
            } by {
        let i = choose|i: int|
            0 <= i < items.len() && match (#[trigger] items[i]).node {
                DocNode::KV { handle, .. } => handle == index[e].value->0,
                DocNode::Tbl(_) => false,
            };
        assert(items.push(it)[i] == items[i]);
    }
}

/// Number of index entries bound to a value.
pub open spec fn n_bound(index: Seq<IndexEntry>) -> int
    decreases index.len(),
{
    if index.len() == 0 {
        0
    } else {
        n_bound(index.drop_last()) + if index.last().value is Some {
            1int
        } else {
            0int
        }
    }
}

/// Number of duplicate-key errors.
pub open spec fn n_dup(errors: Seq<ParseError>) -> int
    decreases errors.len(),
{
    if errors.len() == 0 {
        0
    } else {
        n_dup(errors.drop_last()) + match errors.last() {
            ParseError::DuplicateKey { .. } => 1int,
            ParseError::InvalidTable { .. } => 0int,
        }
    }
}

/// Number of key-values diverted into invalid-table side lists.
pub open spec fn n_side(errors: Seq<ParseError>) -> int
    decreases errors.len(),
{
    if errors.len() == 0 {
        0
    } else {
        n_side(errors.drop_last()) + match errors.last() {
            ParseError::DuplicateKey { .. } => 0int,
            ParseError::InvalidTable { keyvals, .. } => keyvals@.len() as int,
        }
    }
}

/// Number of key-value statements in the document.
pub open spec fn n_kv(items: Seq<DocItem>) -> int
    decreases items.len(),
{
    if items.len() == 0 {
        0
    } else {
        n_kv(items.drop_last()) + match items.last().node {
            DocNode::KV { .. } => 1int,
            DocNode::Tbl(_) => 0int,
        }
    }
}

/// Filling one unbound entry with a value raises the bound count by one.
pub proof fn lemma_n_bound_fill(index: Seq<IndexEntry>, i: int, e: IndexEntry)
    requires
        0 <= i < index.len(),
        index[i].value is None,
        e.value is Some,
    ensures
        n_bound(index.update(i, e)) == n_bound(index) + 1,
    decreases index.len(),
{
    if i == index.len() - 1 {
        assert(index.update(i, e).drop_last() =~= index.drop_last());
        assert(index.update(i, e).last() == e);
    } else {
        assert(index.update(i, e).drop_last() =~= index.drop_last().update(i, e));
        assert(index.update(i, e).last() == index.last());
        lemma_n_bound_fill(index.drop_last(), i, e);
    }
}

/// The paths of the value-bound index entries, in index order.
pub open spec fn value_paths(index: Seq<IndexEntry>) -> Seq<Seq<char>>
    decreases index.len(),
{
    if index.len() == 0 {
        Seq::empty()
    } else {
        value_paths(index.drop_last()) + (if index.last().value is Some {
            seq![index.last().path@]
        } else {
            Seq::empty()
        })
    }
}

/// `value_paths` lists exactly the value-bound entries.
pub proof fn lemma_value_paths_len(index: Seq<IndexEntry>)
    ensures
        value_paths(index).len() == n_bound(index),
    decreases index.len(),
{
    if index.len() > 0 {
        lemma_value_paths_len(index.drop_last());
    }
}

/// Every value-bound entry's path occurs in `value_paths`.
pub proof fn lemma_value_paths_member(index: Seq<IndexEntry>, e: int)
    requires
        0 <= e < index.len(),
        index[e].value is Some,
    ensures
        exists|k: int|
            0 <= k < value_paths(index).len() && #[trigger] value_paths(index)[k]
                == index[e].path@,
    decreases index.len(),
{
    if e == index.len() - 1 {
        let k = value_paths(index.drop_last()).len() as int;
        assert(value_paths(index)[k] == index[e].path@);
    } else {
        assert(index.drop_last()[e] == index[e]);
        lemma_value_paths_member(index.drop_last(), e);
        let k = choose|k: int|
            0 <= k < value_paths(index.drop_last()).len() && #[trigger] value_paths(
                index.drop_last(),
            )[k] == index.drop_last()[e].path@;
        assert(value_paths(index)[k] == index[e].path@);
    }
}

/// The parsed document: the retained statement list, the shared value
/// arena, the path index, accumulated recoverable errors, and the table
/// context the parse pass threads through.
pub struct Parser {
    items: Vec<DocItem>,
    trailing: String,
    arena: Vec<Value>,
    index: Vec<IndexEntry>,
    errors: Vec<ParseError>,
    last_table: Option<OpenTable>,
    array_stack: Vec<ArrayStackEntry>,
    occurrences: Vec<(String, usize)>,
    line_count: usize,
    invalid_flag: bool,
}

impl Parser {
    /// The exact text this document renders to.
    pub closed spec fn doc_text(self) -> Seq<char> {
        items_text(self.items@, self.arena@) + self.trailing@
    }

    /// Well-formedness: all handles point into the arena, index paths are
    /// unique, and while the invalid-table flag is set the newest error is
    /// the invalid-table record that side-collects key-values.
    pub closed spec fn wf(self) -> bool {
        &&& handles_ok(self.items@, self.arena@.len() as int)
        &&& forall|i: int, j: int|
            #![trigger self.index@[i], self.index@[j]]
            0 <= i < j < self.index@.len() ==> self.index@[i].path@ != self.index@[j].path@
        &&& forall|i: int|
            0 <= i < self.index@.len() ==> match (#[trigger] self.index@[i]).value {
                Option::Some(h) => h < self.arena@.len(),
                Option::None => true,
            }
        &&& (self.invalid_flag ==> self.errors@.len() > 0 && self.errors@.last() is InvalidTable)
        &&& forall|i: int, j: int|
            #![trigger self.items@[i], self.items@[j]]
            0 <= i < j < self.items@.len() ==> match (self.items@[i].node, self.items@[j].node) {
                (DocNode::KV { handle: h1, .. }, DocNode::KV { handle: h2, .. }) => h1 != h2,
                _ => true,
            }
        &&& forall|e: int|
            0 <= e < self.index@.len() && (#[trigger] self.index@[e]).value is Some ==> exists|
                i: int,
            |
                0 <= i < self.items@.len() && match (#[trigger] self.items@[i]).node {
                    DocNode::KV { handle, .. } => handle == self.index@[e].value->0,
                    DocNode::Tbl(_) => false,
                }
    }

    /// A freshly created document with nothing parsed yet.
    pub closed spec fn is_fresh(self) -> bool {
        &&& self.items@.len() == 0
        &&& self.trailing@.len() == 0
        &&& self.arena@.len() == 0
        &&& self.index@.len() == 0
        &&& self.errors@.len() == 0
        &&& self.last_table is None
        &&& self.array_stack@.len() == 0
        &&& self.occurrences@.len() == 0
        &&& self.line_count == 1
        &&& !self.invalid_flag
    }

    /// Some index entry carries this path.
    pub closed spec fn has_path(self, p: Seq<char>) -> bool {
        exists|i: int| 0 <= i < self.index@.len() && (#[trigger] self.index@[i]).path@ == p
    }

    /// The position of the entry carrying `p` (unique when well-formed).
    pub closed spec fn path_pos(self, p: Seq<char>) -> int {
        choose|i: int| 0 <= i < self.index@.len() && (#[trigger] self.index@[i]).path@ == p
    }

    /// The path is indexed and bound to a value (not a table placeholder).
    pub closed spec fn has_value(self, p: Seq<char>) -> bool {
        self.has_path(p) && self.index@[self.path_pos(p)].value is Some
    }

    /// The arena slot bound at `p`.
    pub closed spec fn value_handle(self, p: Seq<char>) -> usize {
        self.index@[self.path_pos(p)].value->0
    }

    /// The value bound at `p`.
    pub closed spec fn value_at(self, p: Seq<char>) -> Value {
        self.arena@[self.value_handle(p) as int]
    }

    /// The fully qualified path a key resolves to in the current table
    /// context: bare under no table; under a standard table, the array-scope
    /// prefix plus the table's dotted path plus the key; under an array
    /// table, the array-scope prefix (which already ends with that table's
    /// own `name[occurrence].` component) plus the key.
    pub closed spec fn kv_path(self, key: Seq<char>) -> Seq<char> {
        match self.last_table {
            Option::None => key,
            Option::Some(OpenTable::Standard { path }) => stack_prefix(self.array_stack@) + path@
                + seq!['.'] + key,
            Option::Some(OpenTable::ArrayT) => stack_prefix(self.array_stack@) + key,
        }
    }

    /// In a well-formed document each indexed path names exactly one entry:
    /// any entry found to carry `p` is the entry every lookup resolves to.
    proof fn lemma_found(self, p: Seq<char>, i: int)
        requires
            self.wf(),
            0 <= i < self.index@.len(),
            self.index@[i].path@ == p,
        ensures
            self.has_path(p),
            self.path_pos(p) == i,
    {
        assert(self.has_path(p));
        let c = self.path_pos(p);
        if c < i {
            assert(self.index@[c].path@ != self.index@[i].path@);
        } else if c > i {
            assert(self.index@[i].path@ != self.index@[c].path@);
        }
    }

    /// Creates an empty document.
    pub fn new() -> (r: Parser)
        ensures
            r.wf(),
            r.is_fresh(),
            r.doc_text() == Seq::<char>::empty(),
    {
        let r = Parser {
            items: Vec::new(),
            trailing: String::new(),
            arena: Vec::new(),
            index: Vec::new(),
            errors: Vec::new(),
            last_table: Option::None,
            array_stack: Vec::new(),
            occurrences: Vec::new(),
            line_count: 1,
            invalid_flag: false,
        };
        proof {
            assert(r.doc_text() =~= Seq::<char>::empty());
        }
        r
    }

    /// Computes the fully qualified path for a key in the current context.
    fn compute_kv_path(&self, key: &String) -> (r: String)
        ensures
            r@ == self.kv_path(key@),
    {
        match &self.last_table {
            Option::None => key.clone(),
            Option::Some(OpenTable::Standard { path }) => {
                let mut s = get_array_table_key(&self.array_stack);
                s.append(path.as_str());
                crate::text::append_ch(&mut s, '.');
                s.append(key.as_str());
                s
            },
            Option::Some(OpenTable::ArrayT) => {
                let mut s = get_array_table_key(&self.array_stack);
                s.append(key.as_str());
                s
            },
        }
    }

    /// Resolves a parsed key-value's fully qualified path and attempts to
    /// index its arena slot. A fresh path is inserted; a path bound to a
    /// table placeholder is filled in; a path already bound to a value is
    /// recorded as a duplicate-key error and the original binding kept.
    fn insert_keyval_into_map(&mut self, key: &String, handle: usize)
        requires
            old(self).wf(),
            handle < old(self).arena@.len(),
            !old(self).invalid_flag,
            old(self).items@.len() > 0,
            match old(self).items@.last().node {
                DocNode::KV { handle: h2, .. } => h2 == handle,
                DocNode::Tbl(_) => false,
            },
        ensures
            final(self).wf(),
            final(self).items == old(self).items,
            final(self).arena == old(self).arena,
            final(self).trailing == old(self).trailing,
            final(self).last_table == old(self).last_table,
            final(self).array_stack == old(self).array_stack,
            final(self).occurrences == old(self).occurrences,
            final(self).line_count == old(self).line_count,
            final(self).invalid_flag == old(self).invalid_flag,
            n_bound(final(self).index@) + n_dup(final(self).errors@) == n_bound(old(self).index@)
                + n_dup(old(self).errors@) + 1,
            n_side(final(self).errors@) == n_side(old(self).errors@),
            !old(self).has_path(old(self).kv_path(key@)) ==> {
                &&& final(self).index@.len() == old(self).index@.len() + 1
                &&& final(self).index@.last().path@ == old(self).kv_path(key@)
                &&& final(self).index@.last().value == Some(handle)
                &&& forall|i: int|
                    0 <= i < old(self).index@.len() ==> final(self).index@[i] == old(self).index@[i]
                &&& final(self).errors == old(self).errors
                &&& final(self).has_value(old(self).kv_path(key@))
                &&& final(self).value_handle(old(self).kv_path(key@)) == handle
            },
            old(self).has_path(old(self).kv_path(key@)) && !old(self).has_value(
                old(self).kv_path(key@),
            ) ==> {
                &&& final(self).index@.len() == old(self).index@.len()
                &&& final(self).index@[old(self).path_pos(old(self).kv_path(key@))].path@ == old(
                    self,
                ).kv_path(key@)
                &&& final(self).index@[old(self).path_pos(old(self).kv_path(key@))].value == Some(handle)
                &&& forall|i: int|
                    0 <= i < old(self).index@.len() && i != old(self).path_pos(
                        old(self).kv_path(key@),
                    ) ==> final(self).index@[i] == old(self).index@[i]
                &&& final(self).errors == old(self).errors
                &&& final(self).has_value(old(self).kv_path(key@))
                &&& final(self).value_handle(old(self).kv_path(key@)) == handle
            },
            old(self).has_value(old(self).kv_path(key@)) ==> {
                &&& final(self).index == old(self).index
                &&& final(self).errors@.len() == old(self).errors@.len() + 1
                &&& forall|i: int|
                    0 <= i < old(self).errors@.len() ==> final(self).errors@[i] == old(self).errors@[i]
                &&& match final(self).errors@.last() {
                    ParseError::DuplicateKey { path, handle: h } => path@ == old(self).kv_path(
                        key@,
                    ) && h == handle,
                    _ => false,
                }
            },
    {
        let full = self.compute_kv_path(key);
        match find_entry(&self.index, &full) {
            Option::None => {
                proof {
                    if old(self).has_path(full@) {
                        let i = old(self).path_pos(full@);
                        assert(old(self).index@[i].path@ == full@);
                    }
                }
                self.index.push(IndexEntry { path: full, value: Option::Some(handle) });
                proof {
                    self.lemma_found(old(self).kv_path(key@), self.index@.len() - 1);
                    assert(self.index@.drop_last() =~= old(self).index@);
                }
            },
            Option::Some(i) => {
                proof {
                    old(self).lemma_found(full@, i as int);
                }
                match self.index[i].value {
                    Option::Some(_) => {
                        self.errors.push(
                            ParseError::DuplicateKey { path: full, handle },
                        );
                        proof {
                            assert(self.errors@.drop_last() =~= old(self).errors@);
                        }
                    },
                    Option::None => {
                        self.index.set(i, IndexEntry { path: full, value: Option::Some(handle) });
                        proof {
                            self.lemma_found(old(self).kv_path(key@), i as int);
                            lemma_n_bound_fill(old(self).index@, i as int, self.index@[i as int]);
                        }
                    },
                }
            },
        }
    }
}


impl Parser {
    /// Indexes a table header's own qualified path as a placeholder. A
    /// collision with any existing entry makes the header invalid: an
    /// invalid-table error starts collecting the key-values under it.
    fn insert_table_path(&mut self, full: String)
        requires
            old(self).wf(),
        ensures
            final(self).wf(),
            final(self).items == old(self).items,
            final(self).arena == old(self).arena,
            final(self).trailing == old(self).trailing,
            final(self).last_table == old(self).last_table,
            final(self).array_stack == old(self).array_stack,
            final(self).occurrences == old(self).occurrences,
            final(self).line_count == old(self).line_count,
            n_bound(final(self).index@) == n_bound(old(self).index@),
            n_dup(final(self).errors@) == n_dup(old(self).errors@),
            n_side(final(self).errors@) == n_side(old(self).errors@),
            !old(self).has_path(full@) ==> {
                &&& final(self).index@.len() == old(self).index@.len() + 1
                &&& final(self).index@.last().path@ == full@
                &&& final(self).index@.last().value is None
                &&& forall|i: int|
                    0 <= i < old(self).index@.len() ==> final(self).index@[i] == old(self).index@[i]
                &&& final(self).errors == old(self).errors
                &&& !final(self).invalid_flag
            },
            old(self).has_path(full@) ==> {
                &&& final(self).index == old(self).index
                &&& final(self).errors@.len() == old(self).errors@.len() + 1
                &&& forall|i: int|
                    0 <= i < old(self).errors@.len() ==> final(self).errors@[i] == old(self).errors@[i]
                &&& match final(self).errors@.last() {
                    ParseError::InvalidTable { path, keyvals } => path@ == full@ && keyvals@.len()
                        == 0,
                    _ => false,
                }
                &&& final(self).invalid_flag
            },
    {
        match find_entry(&self.index, &full) {
            Option::None => {
                proof {
                    if old(self).has_path(full@) {
                        let i = old(self).path_pos(full@);
                        assert(old(self).index@[i].path@ == full@);
                    }
                }
                self.index.push(IndexEntry { path: full, value: Option::None });
                self.invalid_flag = false;
                proof {
                    assert(self.index@.drop_last() =~= old(self).index@);
                }
            },
            Option::Some(i) => {
                proof {
                    old(self).lemma_found(full@, i as int);
                }
                self.errors.push(ParseError::InvalidTable { path: full, keyvals: Vec::new() });
                self.invalid_flag = true;
                proof {
                    assert(self.errors@.drop_last() =~= old(self).errors@);
                }
            },
        }
    }

    /// Diverts a key-value parsed under an invalid header into the side
    /// list of the pending invalid-table error.
    fn attach_invalid_keyval(&mut self, key: String, handle: usize)
        requires
            old(self).wf(),
            old(self).invalid_flag,
            handle < old(self).arena@.len(),
        ensures
            final(self).wf(),
            final(self).items == old(self).items,
            final(self).arena == old(self).arena,
            final(self).trailing == old(self).trailing,
            final(self).last_table == old(self).last_table,
            final(self).array_stack == old(self).array_stack,
            final(self).occurrences == old(self).occurrences,
            final(self).line_count == old(self).line_count,
            final(self).invalid_flag == old(self).invalid_flag,
            final(self).index == old(self).index,
            final(self).errors@.len() == old(self).errors@.len(),
            n_dup(final(self).errors@) == n_dup(old(self).errors@),
            n_side(final(self).errors@) == n_side(old(self).errors@) + 1,
            forall|i: int|
                0 <= i < old(self).errors@.len() - 1 ==> final(self).errors@[i] == old(
                    self,
                ).errors@[i],
            match (old(self).errors@.last(), final(self).errors@.last()) {
                (
                    ParseError::InvalidTable { path: p0, keyvals: k0 },
                    ParseError::InvalidTable { path: p1, keyvals: k1 },
                ) => p1@ == p0@ && k1@.len() == k0@.len() + 1 && k1@.last().0@ == key@
                    && k1@.last().1 == handle && forall|i: int|
                    0 <= i < k0@.len() ==> k1@[i] == k0@[i],
                _ => false,
            },
    {
        match self.errors.pop() {
            Option::Some(ParseError::InvalidTable { path, mut keyvals }) => {
                keyvals.push((key, handle));
                self.errors.push(ParseError::InvalidTable { path, keyvals });
                proof {
                    assert(self.errors@.drop_last() =~= old(self).errors@.drop_last());
                }
            },
            Option::Some(other) => {
                self.errors.push(other);
                proof {
                    assert(false);
                }
            },
            Option::None => {
                proof {
                    assert(false);
                }
            },
        }
    }

    /// How indexing a header's own qualified path `p` turns out: a fresh
    /// path gains a placeholder entry and the header is valid; a collision
    /// leaves the index alone, records an invalid-table error carrying `p`,
    /// and raises the flag that diverts the following key-values.
    spec fn placeholder_outcome(pre: Parser, post: Parser, p: Seq<char>) -> bool {
        &&& (!pre.has_path(p) ==> {
            &&& post.index@.len() == pre.index@.len() + 1
            &&& post.index@.last().path@ == p
            &&& post.index@.last().value is None
            &&& (forall|i: int| 0 <= i < pre.index@.len() ==> post.index@[i] == pre.index@[i])
            &&& post.errors == pre.errors
            &&& !post.invalid_flag
        })
        &&& (pre.has_path(p) ==> {
            &&& post.index == pre.index
            &&& post.errors@.len() == pre.errors@.len() + 1
            &&& (forall|i: int| 0 <= i < pre.errors@.len() ==> post.errors@[i] == pre.errors@[i])
            &&& (match post.errors@.last() {
                ParseError::InvalidTable { path, keyvals } => path@ == p && keyvals@.len() == 0,
                _ => false,
            })
            &&& post.invalid_flag
        })
    }

    /// Applies a table header to the document state, as the open-table
    /// context for the key-values that follow it. Array-table scopes that do
    /// not enclose the header's dotted path are closed; an array header
    /// bumps its path's occurrence count and opens a new scope; the
    /// header's own qualified path is indexed as a placeholder (or reported
    /// as an invalid table on collision).
    fn process_table(&mut self, tt: &TableType)
        requires
            old(self).wf(),
        ensures
            final(self).wf(),
            final(self).items == old(self).items,
            final(self).arena == old(self).arena,
            final(self).trailing == old(self).trailing,
            final(self).line_count == old(self).line_count,
            n_bound(final(self).index@) == n_bound(old(self).index@),
            n_dup(final(self).errors@) == n_dup(old(self).errors@),
            n_side(final(self).errors@) == n_side(old(self).errors@),
            tt matches TableType::Standard(t0) ==> final(self).occurrences == old(
                self,
            ).occurrences && (match final(self).last_table {
                Option::Some(OpenTable::Standard { path }) => exists|m: int|
                    {
                        &&& 0 <= m <= old(self).array_stack@.len()
                        &&& final(self).array_stack@ == #[trigger] old(self).array_stack@.take(m)
                        &&& (m > 0 ==> spec_dotted_prefix(
                            old(self).array_stack@[m - 1].path@,
                            dotted(*t0),
                        ))
                        &&& (forall|j: int|
                            m <= j < old(self).array_stack@.len() ==> !spec_dotted_prefix(
                                (#[trigger] old(self).array_stack@[j]).path@,
                                dotted(*t0),
                            ))
                        &&& path@ == (if m > 0 {
                            dotted(*t0).subrange(
                                old(self).array_stack@[m - 1].path@.len() as int + 1,
                                dotted(*t0).len() as int,
                            )
                        } else {
                            dotted(*t0)
                        })
                        &&& Self::placeholder_outcome(
                            *old(self),
                            *final(self),
                            stack_prefix(final(self).array_stack@) + path@,
                        )
                    },
                _ => false,
            }),
            tt matches TableType::Array(t0) ==> final(self).last_table == Option::Some(
                OpenTable::ArrayT,
            ) && exists|m: int|
                {
                    &&& 0 <= m <= old(self).array_stack@.len()
                    &&& final(self).array_stack@.len() == m + 1
                    &&& final(self).array_stack@.drop_last() == #[trigger] old(
                        self,
                    ).array_stack@.take(m)
                    &&& (m > 0 ==> spec_dotted_prefix(
                        old(self).array_stack@[m - 1].path@,
                        dotted(*t0),
                    ))
                    &&& (forall|j: int|
                        m <= j < old(self).array_stack@.len() ==> !spec_dotted_prefix(
                            (#[trigger] old(self).array_stack@[j]).path@,
                            dotted(*t0),
                        ))
                    &&& final(self).array_stack@.last().path@ == dotted(*t0)
                    &&& final(self).array_stack@.last().last_key@ == last_key_of(*t0)
                    &&& occurrence_outcome(
                        old(self).occurrences@,
                        final(self).occurrences@,
                        dotted(*t0),
                        final(self).array_stack@.last().index,
                    )
                    &&& Self::placeholder_outcome(
                        *old(self),
                        *final(self),
                        stack_prefix(old(self).array_stack@.take(m)) + last_key_of(*t0) + seq!['[']
                            + dec_text(final(self).array_stack@.last().index as int) + seq![']'],
                    )
                },
    {
        let t = match tt {
            TableType::Standard(t) => t,
            TableType::Array(t) => t,
        };
        let q = format_keys(t);
        loop
            invariant
                self.wf(),
                self.items == old(self).items,
                self.arena == old(self).arena,
                self.trailing == old(self).trailing,
                self.line_count == old(self).line_count,
                self.index == old(self).index,
                self.errors == old(self).errors,
                self.occurrences == old(self).occurrences,
                self.last_table == old(self).last_table,
                self.invalid_flag == old(self).invalid_flag,
                self.array_stack@.len() <= old(self).array_stack@.len(),
                self.array_stack@ == old(self).array_stack@.take(self.array_stack@.len() as int),
                forall|j: int|
                    self.array_stack@.len() <= j < old(self).array_stack@.len()
                        ==> !spec_dotted_prefix((#[trigger] old(self).array_stack@[j]).path@, q@),
            ensures
                self.array_stack@.len() == 0 || spec_dotted_prefix(
                    self.array_stack@.last().path@,
                    q@,
                ),
            decreases self.array_stack@.len(),
        {
            let n = self.array_stack.len();
            if n == 0 {
                break;
            }
            if is_dotted_prefix(&self.array_stack[n - 1].path, &q) {
                break;
            }
            proof {
                assert(old(self).array_stack@.take(n as int).drop_last() =~= old(
                    self,
                ).array_stack@.take(n as int - 1));
            }
            self.array_stack.pop();
        }
        let ghost m = self.array_stack@.len() as int;
        proof {
            assert(q@ == dotted(*t));
            assert(0 <= m <= old(self).array_stack@.len());
            assert(m > 0 ==> old(self).array_stack@.take(m)[m - 1] == old(self).array_stack@[m
                - 1]);
        }
        match tt {
            TableType::Standard(_) => {
                let eff: String;
                let n = self.array_stack.len();
                if n > 0 {
                    let pc = str_to_chars(self.array_stack[n - 1].path.as_str());
                    let qc = str_to_chars(q.as_str());
                    let qn = qc.len();
                    proof {
                        assert(self.array_stack@.last() == self.array_stack@[n as int - 1]);
                        assert(pc@.len() < qc@.len());
                    }
                    eff = capture(&qc, pc.len() + 1, qn);
                } else {
                    eff = q;
                }
                let ghost effv = eff@;
                let mut full = get_array_table_key(&self.array_stack);
                full.append(eff.as_str());
                let ghost fullv = full@;
                self.insert_table_path(full);
                self.last_table = Option::Some(OpenTable::Standard { path: eff });
                proof {
                    assert(self.array_stack@ == old(self).array_stack@.take(m));
                    assert(m > 0 ==> old(self).array_stack@.take(m).last() == old(
                        self,
                    ).array_stack@[m - 1]);
                    assert(fullv == stack_prefix(self.array_stack@) + effv);
                    assert(Self::placeholder_outcome(*old(self), *self, fullv));
                }
            },
            TableType::Array(_) => {
                let occ = bump_occurrence(&mut self.occurrences, &q);
                let lk = get_last_key(t);
                let mut full = get_array_table_key(&self.array_stack);
                full.append(lk.as_str());
                crate::text::append_ch(&mut full, '[');
                let d = dec_string(occ);
                full.append(d.as_str());
                crate::text::append_ch(&mut full, ']');
                let ghost fullv = full@;
                self.array_stack.push(ArrayStackEntry { path: q, last_key: lk, index: occ });
                self.insert_table_path(full);
                self.last_table = Option::Some(OpenTable::ArrayT);
                proof {
                    assert(self.array_stack@.drop_last() =~= old(self).array_stack@.take(m));
                    assert(self.array_stack@.last().path@ == dotted(*t));
                    assert(self.array_stack@.last().index == occ);
                    assert(m > 0 ==> old(self).array_stack@.take(m).last() == old(
                        self,
                    ).array_stack@[m - 1]);
                    assert(fullv == stack_prefix(old(self).array_stack@.take(m)) + last_key_of(*t)
                        + seq!['['] + dec_text(occ as int) + seq![']']);
                    assert(Self::placeholder_outcome(*old(self), *self, fullv));
                }
            },
        }
    }
}


/// End of the whitespace, line breaks and whole comment lines before the
/// next statement.
pub open spec fn spec_trivia(s: Seq<char>, pos: int) -> int
    decreases s.len() - pos,
{
    if !(0 <= pos <= s.len()) {
        pos
    } else {
        let p = ws_nl_end(s, pos);
        if pos <= p && p < s.len() && s[p] == '#' {
            let b = comment_end(s, p + 1);
            if p + 1 <= b <= s.len() {
                spec_trivia(s, b)
            } else {
                b
            }
        } else {
            p
        }
    }
}

/// The whole input from `pos` on parses as statements: trivia, then a table
/// header or a key-value, repeated, ending in trivia. This is the document
/// grammar; a parse is owed success exactly on inputs satisfying it.
pub open spec fn spec_statements(s: Seq<char>, pos: int) -> bool
    decreases s.len() - pos,
{
    if !(0 <= pos <= s.len()) {
        false
    } else {
        let t = spec_trivia(s, pos);
        if !(pos <= t <= s.len()) {
            false
        } else if t == s.len() {
            true
        } else {
            match spec_table(s, t) {
                Option::Some(e) => if t < e <= s.len() {
                    spec_statements(s, e)
                } else {
                    false
                },
                Option::None => match spec_keyval(s, t) {
                    Option::Some(e) => if t < e <= s.len() {
                        spec_statements(s, e)
                    } else {
                        false
                    },
                    Option::None => false,
                },
            }
        }
    }
}

/// The start of the first statement that matches no production; the input
/// length when every statement parses.
pub open spec fn first_bad(s: Seq<char>, pos: int) -> int
    decreases s.len() - pos,
{
    if !(0 <= pos <= s.len()) {
        pos
    } else {
        let t = spec_trivia(s, pos);
        if !(pos <= t <= s.len()) {
            t
        } else if t == s.len() {
            t
        } else {
            match spec_table(s, t) {
                Option::Some(e) => if t < e <= s.len() {
                    first_bad(s, e)
                } else {
                    t
                },
                Option::None => match spec_keyval(s, t) {
                    Option::Some(e) => if t < e <= s.len() {
                        first_bad(s, e)
                    } else {
                        t
                    },
                    Option::None => t,
                },
            }
        }
    }
}

/// Consumes the whitespace, line breaks and whole comment lines before the
/// next statement; the text is retained verbatim by the caller.
fn scan_trivia(input: &Vec<char>, pos: usize) -> (end: usize)
    requires
        pos <= input@.len(),
    ensures
        end == spec_trivia(input@, pos as int),
        pos <= end <= input@.len(),
{
    let mut cur: usize = pos;
    loop
        invariant
            pos <= cur <= input@.len(),
            spec_trivia(input@, pos as int) == spec_trivia(input@, cur as int),
        decreases input@.len() - cur,
    {
        let p = scan_ws_nl(input, cur);
        if p < input.len() && input[p] == '#' {
            cur = scan_comment_body(input, p + 1);
        } else {
            proof {
                assert(spec_trivia(input@, cur as int) == p as int);
            }
            return p;
        }
    }
}

impl Parser {
    /// The line the parse pass ended on (line feeds seen, plus one).
    pub closed spec fn spec_line_count(self) -> usize {
        self.line_count
    }

    /// The accumulated recoverable errors, in the order they were found.
    pub closed spec fn spec_errors(self) -> Seq<ParseError> {
        self.errors@
    }

    /// Parses a whole document. It succeeds exactly on inputs matching the
    /// statement grammar (`spec_statements`); a statement that matches no
    /// production is fatal, and the failure reports the line the statement
    /// starts on. On success the returned document is well-formed, renders
    /// back to exactly the input text, and accounts for every key-value
    /// statement exactly once: bound at a path, recorded as a duplicate-key
    /// error, or diverted into an invalid-table side list.
    #[verifier::rlimit(80)]
    pub fn parse(self, input: &str) -> (r: Result<Parser, ParseFailure>)
        requires
            self.is_fresh(),
        ensures
            r is Ok ==> r->Ok_0.wf(),
            r is Ok ==> r->Ok_0.doc_text() == input@,
            r is Ok ==> newline_count(input@) < usize::MAX ==> r->Ok_0.spec_line_count()
                == newline_count(input@) + 1,
            (r is Ok) == spec_statements(input@, 0),
            r is Err ==> newline_count(input@.subrange(0, first_bad(input@, 0))) < usize::MAX
                ==> r->Err_0.line == newline_count(input@.subrange(0, first_bad(input@, 0))) + 1,
            r is Ok ==> r->Ok_0.spec_value_paths().len() + n_dup(r->Ok_0.spec_errors()) + n_side(
                r->Ok_0.spec_errors(),
            ) == r->Ok_0.spec_kv_count(),
    {
        let mut p = self;
        let chars = str_to_chars(input);
        let len = chars.len();
        let mut cur: usize = 0;
        proof {
            assert(items_text(p.items@, p.arena@) + p.trailing@ =~= input@.subrange(0, 0));
            assert(n_bound(p.index@) == 0 && n_dup(p.errors@) == 0 && n_side(p.errors@) == 0
                && n_kv(p.items@) == 0);
        }
        while cur < len
            invariant
                p.wf(),
                cur <= len,
                len == chars@.len(),
                chars@ == input@,
                items_text(p.items@, p.arena@) + p.trailing@ == input@.subrange(0, cur as int),
                cur < len ==> p.trailing@.len() == 0,
                spec_statements(input@, 0) == spec_statements(input@, cur as int),
                first_bad(input@, 0) == first_bad(input@, cur as int),
                n_bound(p.index@) + n_dup(p.errors@) + n_side(p.errors@) == n_kv(p.items@),
            decreases len - cur,
        {
            let t_end = scan_trivia(&chars, cur);
            if t_end == len {
                p.trailing = capture(&chars, cur, len);
                proof {
                    assert(items_text(p.items@, p.arena@) + p.trailing@ =~= input@.subrange(
                        0,
                        len as int,
                    ));
                    assert(ws_nl_end(input@, len as int) == len as int);
                    assert(spec_trivia(input@, len as int) == len as int);
                    assert(spec_statements(input@, len as int));
                    assert(first_bad(input@, cur as int) == len as int);
                    assert(first_bad(input@, len as int) == len as int);
                }
                cur = len;
            } else {
                match table_at(&chars, t_end) {
                    Option::Some((tt, e)) => {
                        let pre = capture(&chars, cur, t_end);
                        p.process_table(&tt);
                        let ghost items_pre = p.items@;
                        let item = DocItem { pre, node: DocNode::Tbl(tt) };
                        proof {
                            lemma_items_text_push(p.items@, p.arena@, item);
                            assert(item_text(item, p.arena@) =~= input@.subrange(
                                cur as int,
                                e as int,
                            ));
                            assert(items_text(p.items@.push(item), p.arena@) + p.trailing@
                                =~= input@.subrange(0, e as int));
                            lemma_distinct_handles_push(p.items@, item, p.arena@.len() as int);
                            lemma_index_witness_push(p.items@, p.index@, item);
                        }
                        p.items.push(item);
                        proof {
                            assert(spec_statements(input@, cur as int) == spec_statements(
                                input@,
                                e as int,
                            ));
                            assert(first_bad(input@, cur as int) == first_bad(input@, e as int));
                            assert(p.items@.drop_last() =~= items_pre);
                            assert(n_kv(p.items@) == n_kv(items_pre));
                        }
                        cur = e;
                    },
                    Option::None => {
                        match keyval_at(&chars, t_end) {
                            Option::Some((kv, e)) => {
                                let handle = p.arena.len();
                                let KeyVal { key, keyval_sep, val } = kv;
                                proof {
                                    lemma_items_text_arena_grow(
                                        p.items@,
                                        p.arena@,
                                        p.arena@.push(val),
                                    );
                                }
                                p.arena.push(val);
                                let ghost items_pre = p.items@;
                                let pre = capture(&chars, cur, t_end);
                                let key2 = key.clone();
                                let item = DocItem {
                                    pre,
                                    node: DocNode::KV { key, keyval_sep, handle },
                                };
                                proof {
                                    lemma_items_text_push(p.items@, p.arena@, item);
                                    assert(item_text(item, p.arena@) =~= input@.subrange(
                                        cur as int,
                                        e as int,
                                    ));
                                    assert(items_text(p.items@.push(item), p.arena@) + p.trailing@
                                        =~= input@.subrange(0, e as int));
                                    lemma_distinct_handles_push(
                                        p.items@,
                                        item,
                                        p.arena@.len() as int - 1,
                                    );
                                    lemma_index_witness_push(p.items@, p.index@, item);
                                }
                                p.items.push(item);
                                proof {
                                    assert(p.items@.drop_last() =~= items_pre);
                                    assert(n_kv(p.items@) == n_kv(items_pre) + 1);
                                }
                                if p.invalid_flag {
                                    p.attach_invalid_keyval(key2, handle);
                                } else {
                                    p.insert_keyval_into_map(&key2, handle);
                                }
                                proof {
                                    assert(spec_statements(input@, cur as int) == spec_statements(
                                        input@,
                                        e as int,
                                    ));
                                    assert(first_bad(input@, cur as int) == first_bad(
                                        input@,
                                        e as int,
                                    ));
                                }
                                cur = e;
                            },
                            Option::None => {
                                proof {
                                    assert(!spec_statements(input@, cur as int));
                                    assert(first_bad(input@, cur as int) == t_end as int);
                                }
                                let nl = count_newlines(&chars, 0, t_end);
                                let line: usize = if nl < usize::MAX {
                                    nl + 1
                                } else {
                                    nl
                                };
                                return Result::Err(ParseFailure { line });
                            },
                        }
                    },
                }
            }
        }
        proof {
            assert(input@.subrange(0, len as int) =~= input@);
        }
        let nl = count_newlines(&chars, 0, len);
        p.line_count = if nl < usize::MAX {
            nl + 1
        } else {
            nl
        };
        proof {
            assert(chars@.subrange(0, len as int) =~= input@);
            lemma_value_paths_len(p.index@);
        }
        Result::Ok(p)
    }
}


impl Parser {
    /// Number of index entries (table placeholders included).
    pub closed spec fn index_len(self) -> nat {
        self.index@.len()
    }

    /// The path of the index entry at position `i`.
    pub closed spec fn path_at(self, i: int) -> Seq<char> {
        self.index@[i].path@
    }

    /// Path uniqueness: in a well-formed document no two index entries
    /// carry the same fully qualified path, so at any path at most one
    /// value is reachable.
    pub proof fn lemma_path_uniqueness(self, i: int, j: int)
        requires
            self.wf(),
            0 <= i < j < self.index_len(),
        ensures
            self.path_at(i) != self.path_at(j),
    {
    }

    /// Mutation preserves structure: `other` differs from `self` only in
    /// the one value slot `h`, which now holds `v`. The statement list,
    /// every piece of retained text, the whole index and the error list are
    /// identical, so a re-serialization differs from the old one only
    /// inside the region that slot renders to.
    pub closed spec fn same_but_value(self, other: Parser, h: usize, v: Value) -> bool {
        &&& other.items == self.items
        &&& other.trailing == self.trailing
        &&& other.index == self.index
        &&& other.errors == self.errors
        &&& other.last_table == self.last_table
        &&& other.array_stack == self.array_stack
        &&& other.occurrences == self.occurrences
        &&& other.line_count == self.line_count
        &&& other.invalid_flag == self.invalid_flag
        &&& other.arena@ == self.arena@.update(h as int, v)
    }

    /// Looks up the value bound at a fully qualified path. A path that is
    /// absent, or indexed only as a table placeholder, reports NotFound.
    pub fn get_value(&self, path: &str) -> (r: Result<&Value, PathError>)
        requires
            self.wf(),
        ensures
            (r is Ok) == self.has_value(path@),
            r is Ok ==> *r->Ok_0 == self.value_at(path@),
            r is Err ==> r->Err_0 == PathError::NotFound,
    {
        let owned = path.to_owned();
        match find_entry(&self.index, &owned) {
            Option::Some(i) => {
                proof {
                    self.lemma_found(path@, i as int);
                }
                match self.index[i].value {
                    Option::Some(h) => Result::Ok(&self.arena[h]),
                    Option::None => Result::Err(PathError::NotFound),
                }
            },
            Option::None => {
                proof {
                    if self.has_path(path@) {
                        let i = self.path_pos(path@);
                        assert(self.index@[i].path@ == path@);
                    }
                }
                Result::Err(PathError::NotFound)
            },
        }
    }

    /// Replaces the value bound at an existing path, in place: only that
    /// arena slot changes; every statement, every retained piece of text
    /// and the whole index are untouched. A path that is absent or bound to
    /// no value reports NotFound and changes nothing.
    pub fn set_value(&mut self, path: &str, val: Value) -> (r: Result<(), PathError>)
        requires
            old(self).wf(),
        ensures
            final(self).wf(),
            (r is Ok) == old(self).has_value(path@),
            r is Ok ==> old(self).same_but_value(
                *final(self),
                old(self).value_handle(path@),
                val,
            ),
            r is Ok ==> final(self).has_value(path@) && final(self).value_at(path@) == val,
            r is Err ==> *final(self) == *old(self) && r->Err_0 == PathError::NotFound,
    {
        let owned = path.to_owned();
        match find_entry(&self.index, &owned) {
            Option::Some(i) => {
                proof {
                    self.lemma_found(path@, i as int);
                }
                match self.index[i].value {
                    Option::Some(h) => {
                        self.arena.set(h, val);
                        proof {
                            self.lemma_found(path@, i as int);
                        }
                        Result::Ok(())
                    },
                    Option::None => Result::Err(PathError::NotFound),
                }
            },
            Option::None => {
                proof {
                    if self.has_path(path@) {
                        let i = self.path_pos(path@);
                        assert(self.index@[i].path@ == path@);
                    }
                }
                Result::Err(PathError::NotFound)
            },
        }
    }

    /// The accumulated recoverable errors.
    pub fn errors(&self) -> (r: &Vec<ParseError>)
        ensures
            r@ == self.spec_errors(),
    {
        &self.errors
    }

    /// The line the parse pass ended on.
    pub fn line_count(&self) -> (r: usize)
        ensures
            r == self.spec_line_count(),
    {
        self.line_count
    }

    /// The value stored in an arena slot, as referenced by an error record.
    pub fn value_at_handle(&self, h: usize) -> (r: Option<&Value>)
        ensures
            r is Some <==> h < self.spec_arena().len(),
            r is Some ==> *r->0 == self.spec_arena()[h as int],
    {
        if h < self.arena.len() {
            Option::Some(&self.arena[h])
        } else {
            Option::None
        }
    }

    /// The value arena, as referenced by handles in errors.
    pub closed spec fn spec_arena(self) -> Seq<Value> {
        self.arena@
    }
}


impl Parser {
    /// Renders the document back to text: every statement in original order,
    /// every retained whitespace/comment run verbatim, every value from its
    /// kept literal text (or the fresh text of a replacement). Together with
    /// `parse`, this is the round-trip law: an unmodified document
    /// serializes to exactly the text it was parsed from.
    pub fn serialize(&self) -> (r: String)
        requires
            self.wf(),
        ensures
            r@ == self.doc_text(),
    {
        let mut out = String::new();
        let mut i: usize = 0;
        proof {
            assert(self.items@.take(0int) =~= Seq::<DocItem>::empty());
            assert(out@ =~= items_text(self.items@.take(0int), self.arena@));
        }
        while i < self.items.len()
            invariant
                self.wf(),
                0 <= i <= self.items@.len(),
                out@ == items_text(self.items@.take(i as int), self.arena@),
            decreases self.items@.len() - i,
        {
            let it = &self.items[i];
            out.append(it.pre.as_str());
            match &it.node {
                DocNode::KV { key, keyval_sep, handle } => {
                    proof {
                        assert(handles_ok(self.items@, self.arena@.len() as int));
                        assert(self.items@[i as int] == *it);
                    }
                    out.append(key.as_str());
                    render_wssep(keyval_sep, '=', &mut out);
                    render_value(&self.arena[*handle], &mut out);
                },
                DocNode::Tbl(tt) => {
                    render_table_type(tt, &mut out);
                },
            }
            proof {
                assert(self.items@.take(i as int + 1) =~= self.items@.take(i as int).push(
                    self.items@[i as int],
                ));
                lemma_items_text_push(self.items@.take(i as int), self.arena@, self.items@[i as int]);
                assert(out@ =~= items_text(self.items@.take(i as int + 1), self.arena@));
            }
            i = i + 1;
        }
        proof {
            assert(self.items@.take(self.items@.len() as int) =~= self.items@);
        }
        out.append(self.trailing.as_str());
        out
    }

    /// The paths of the value-bound index entries, in index order.
    pub closed spec fn spec_value_paths(self) -> Seq<Seq<char>> {
        value_paths(self.index@)
    }

    /// Number of key-value statements the document holds.
    pub closed spec fn spec_kv_count(self) -> int {
        n_kv(self.items@)
    }

    /// The fully qualified paths currently bound to values, in index order:
    /// exactly the value-bound entries' paths (`spec_value_paths`), so every
    /// listed path is bound, every bound path is listed, and no path is
    /// listed twice.
    pub fn keys(&self) -> (r: Vec<String>)
        requires
            self.wf(),
        ensures
            r@.len() == self.spec_value_paths().len(),
            forall|k: int| 0 <= k < r@.len() ==> (#[trigger] r@[k])@ == self.spec_value_paths()[k],
            forall|k: int| 0 <= k < r@.len() ==> self.has_value((#[trigger] r@[k])@),
            forall|p: Seq<char>| self.has_value(p) ==> exists|k: int|
                0 <= k < r@.len() && (#[trigger] r@[k])@ == p,
            forall|k: int, l: int|
                #![trigger r@[k], r@[l]]
                0 <= k < l < r@.len() ==> r@[k]@ != r@[l]@,
    {
        let mut out: Vec<String> = Vec::new();
        let mut i: usize = 0;
        while i < self.index.len()
            invariant
                self.wf(),
                0 <= i <= self.index@.len(),
                out@.len() == value_paths(self.index@.take(i as int)).len(),
                forall|k: int|
                    0 <= k < out@.len() ==> (#[trigger] out@[k])@ == value_paths(
                        self.index@.take(i as int),
                    )[k],
                forall|k: int|
                    0 <= k < out@.len() ==> self.has_value((#[trigger] out@[k])@)
                        && self.path_pos(out@[k]@) < i,
                forall|k: int, l: int|
                    #![trigger out@[k], out@[l]]
                    0 <= k < l < out@.len() ==> out@[k]@ != out@[l]@,
            decreases self.index@.len() - i,
        {
            let ghost pre = out@;
            proof {
                assert(self.index@.take(i as int + 1).drop_last() =~= self.index@.take(i as int));
                assert(self.index@.take(i as int + 1).last() == self.index@[i as int]);
            }
            if self.index[i].value.is_some() {
                let pc = self.index[i].path.clone();
                out.push(pc);
                proof {
                    let n = pre.len() as int;
                    self.lemma_found(self.index@[i as int].path@, i as int);
                    assert(out@[n]@ == self.index@[i as int].path@);
                    assert(forall|k: int| 0 <= k < n ==> out@[k] == pre[k]);
                    assert(value_paths(self.index@.take(i as int + 1)) == value_paths(
                        self.index@.take(i as int),
                    ) + seq![self.index@[i as int].path@]);
                    assert(out@.len() == value_paths(self.index@.take(i as int + 1)).len());
                    assert forall|k: int| 0 <= k < out@.len() implies (#[trigger] out@[k])@
                        == value_paths(self.index@.take(i as int + 1))[k] by {
                        if k < n {
                            assert(out@[k] == pre[k]);
                            assert(value_paths(self.index@.take(i as int + 1))[k] == value_paths(
                                self.index@.take(i as int),
                            )[k]);
                        } else {
                            assert(value_paths(self.index@.take(i as int + 1))[n]
                                == self.index@[i as int].path@);
                        }
                    }
                    assert forall|k: int, l: int|
                        0 <= k < l < out@.len() implies (#[trigger] out@[k])@ != (
                    #[trigger] out@[l])@ by {
                        if l == n {
                            assert(self.has_value(pre[k]@) && self.path_pos(pre[k]@) < i);
                            if out@[k]@ == out@[l]@ {
                                assert(self.path_pos(out@[k]@) == i);
                            }
                        }
                    }
                }
            } else {
                proof {
                    assert(value_paths(self.index@.take(i as int + 1)) =~= value_paths(
                        self.index@.take(i as int),
                    ));
                }
            }
            i = i + 1;
        }
        proof {
            assert(self.index@.take(self.index@.len() as int) =~= self.index@);
            assert forall|p: Seq<char>| self.has_value(p) implies exists|k: int|
                0 <= k < out@.len() && (#[trigger] out@[k])@ == p by {
                let j = self.path_pos(p);
                lemma_value_paths_member(self.index@, j);
                let k = choose|k: int|
                    0 <= k < value_paths(self.index@).len() && #[trigger] value_paths(
                        self.index@,
                    )[k] == self.index@[j].path@;
                assert(out@[k]@ == p);
            }
        }
        out
    }
}


impl Parser {
    /// Round-trip identity: a document that parses cleanly serializes back
    /// to exactly the text it was parsed from, byte for byte. This follows
    /// from `parse` (the model renders to the input) composed with
    /// `serialize` (the output is the model's rendering).
    pub fn round_trip(input: &str) -> (r: Option<String>)
        ensures
            (r is Some) == spec_statements(input@, 0),
            r is Some ==> r->0@ == input@,
    {
        match Parser::new().parse(input) {
            Result::Ok(p) => Option::Some(p.serialize()),
            Result::Err(_) => Option::None,
        }
    }
}

/// Splitting a statement list splits its text.
pub proof fn lemma_items_text_concat(s1: Seq<DocItem>, s2: Seq<DocItem>, arena: Seq<Value>)
    ensures
        items_text(s1 + s2, arena) == items_text(s1, arena) + items_text(s2, arena),
    decreases s1.len(),
{
    if s1.len() == 0 {
        assert(s1 + s2 =~= s2);
        assert(items_text(s1, arena) + items_text(s2, arena) =~= items_text(s2, arena));
    } else {
        assert((s1 + s2).len() > 0);
        assert((s1 + s2)[0] == s1[0]);
        assert((s1 + s2).drop_first() =~= s1.drop_first() + s2);
        lemma_items_text_concat(s1.drop_first(), s2, arena);
        assert(items_text(s1 + s2, arena) =~= items_text(s1, arena) + items_text(s2, arena));
    }
}

/// Changing arena slots that no statement references leaves the text alone.
pub proof fn lemma_items_text_arena_frame(
    items: Seq<DocItem>,
    arena1: Seq<Value>,
    arena2: Seq<Value>,
)
    requires
        arena1.len() == arena2.len(),
        forall|i: int|
            0 <= i < items.len() ==> match (#[trigger] items[i]).node {
                DocNode::KV { handle, .. } => handle < arena1.len() && arena2[handle as int]
                    == arena1[handle as int],
                DocNode::Tbl(_) => true,
            },
    ensures
        items_text(items, arena2) == items_text(items, arena1),
    decreases items.len(),
{
    if items.len() > 0 {
        assert(forall|i: int|
            0 <= i < items.drop_first().len() ==> items.drop_first()[i] == items[i + 1]);
        lemma_items_text_arena_frame(items.drop_first(), arena1, arena2);
        assert(item_text(items[0], arena2) == item_text(items[0], arena1));
    }
}

/// Replacing the one value a statement references changes the rendering only
/// inside that statement's value region: the text splits into a prefix (all
/// statements before it, its own trivia, key and separator), the value's
/// text, and a suffix (all statements after it), and only the middle part
/// depends on which value the slot holds.
#[verifier::rlimit(50)]
pub proof fn lemma_value_region(items: Seq<DocItem>, arena: Seq<Value>, k: int, h: usize, v: Value)
    requires
        handles_ok(items, arena.len() as int),
        0 <= k < items.len(),
        match items[k].node {
            DocNode::KV { handle, .. } => handle == h,
            DocNode::Tbl(_) => false,
        },
        forall|i: int|
            0 <= i < items.len() && i != k ==> match (#[trigger] items[i]).node {
                DocNode::KV { handle, .. } => handle != h,
                DocNode::Tbl(_) => true,
            },
    ensures
        ({
            let before = items_text(items.take(k), arena) + items[k].pre@ + (match items[k].node {
                DocNode::KV { key, keyval_sep, .. } => key@ + wssep_text(keyval_sep, '='),
                DocNode::Tbl(_) => Seq::<char>::empty(),
            });
            let after = items_text(items.skip(k + 1), arena);
            &&& items_text(items, arena) == before + value_text(arena[h as int]) + after
            &&& items_text(items, arena.update(h as int, v)) == before + value_text(v) + after
        }),
{
    let arena2 = arena.update(h as int, v);
    let left = items.take(k);
    let mid = seq![items[k]];
    let right = items.skip(k + 1);
    assert(items =~= left + mid + right);
    lemma_items_text_concat(left + mid, right, arena);
    lemma_items_text_concat(left, mid, arena);
    lemma_items_text_concat(left + mid, right, arena2);
    lemma_items_text_concat(left, mid, arena2);
    assert(items_text(items, arena) == items_text(left + mid + right, arena));
    assert(items_text(items, arena2) == items_text(left + mid + right, arena2));
    assert(mid.drop_first() =~= Seq::<DocItem>::empty());
    assert(mid[0] == items[k]);
    assert(items_text(mid.drop_first(), arena) == Seq::<char>::empty());
    assert(items_text(mid.drop_first(), arena2) == Seq::<char>::empty());
    assert(items_text(mid, arena) =~= item_text(items[k], arena));
    assert(items_text(mid, arena2) =~= item_text(items[k], arena2));
    assert(arena2.len() == arena.len());
    assert(forall|i: int| 0 <= i < left.len() ==> left[i] == items[i]);
    lemma_items_text_arena_frame(left, arena, arena2);
    assert(forall|i: int| 0 <= i < right.len() ==> right[i] == items[i + k + 1]);
    lemma_items_text_arena_frame(right, arena, arena2);
    let before = items_text(items.take(k), arena) + items[k].pre@ + (match items[k].node {
        DocNode::KV { key, keyval_sep, .. } => key@ + wssep_text(keyval_sep, '='),
        DocNode::Tbl(_) => Seq::<char>::empty(),
    });
    let after = items_text(items.skip(k + 1), arena);
    assert(item_text(items[k], arena) =~= items[k].pre@ + (match items[k].node {
        DocNode::KV { key, keyval_sep, .. } => key@ + wssep_text(keyval_sep, '='),
        DocNode::Tbl(_) => Seq::<char>::empty(),
    }) + value_text(arena[h as int]));
    assert(item_text(items[k], arena2) =~= items[k].pre@ + (match items[k].node {
        DocNode::KV { key, keyval_sep, .. } => key@ + wssep_text(keyval_sep, '='),
        DocNode::Tbl(_) => Seq::<char>::empty(),
    }) + value_text(v));
    assert(items_text(items, arena) =~= before + value_text(arena[h as int]) + after);
    assert(items_text(items, arena2) =~= before + value_text(v) + after);
}


impl Parser {
    /// Idempotent re-serialization after mutation: replacing the value at a
    /// bound path changes the rendered document only inside that value's
    /// region. The old and new renderings share a common prefix and suffix;
    /// between them stands the old value's text in the one and the
    /// replacement's text in the other.
    pub proof fn lemma_mutation_locality(self, other: Parser, path: Seq<char>, v: Value)
        requires
            self.wf(),
            self.has_value(path),
            self.same_but_value(other, self.value_handle(path), v),
        ensures
            exists|before: Seq<char>, after: Seq<char>|
                self.doc_text() == before + value_text(self.value_at(path)) + after
                    && #[trigger] (before + value_text(v) + after) == other.doc_text(),
    {
        let h = self.value_handle(path);
        let e = self.path_pos(path);
        assert(self.index@[e].value is Some && self.index@[e].value->0 == h);
        let k = choose|i: int|
            0 <= i < self.items@.len() && match (#[trigger] self.items@[i]).node {
                DocNode::KV { handle, .. } => handle == h,
                DocNode::Tbl(_) => false,
            };
        assert(0 <= k < self.items@.len());
        assert forall|i: int|
            0 <= i < self.items@.len() && i != k implies match (#[trigger] self.items@[i]).node {
            DocNode::KV { handle, .. } => handle != h,
            DocNode::Tbl(_) => true,
        } by {
            if i < k {
                assert(self.items@[i] == self.items@[i] && self.items@[k] == self.items@[k]);
            }
        }
        assert(h < self.arena@.len());
        lemma_value_region(self.items@, self.arena@, k, h, v);
        let before = items_text(self.items@.take(k), self.arena@) + self.items@[k].pre@ + (
        match self.items@[k].node {
            DocNode::KV { key, keyval_sep, .. } => key@ + wssep_text(keyval_sep, '='),
            DocNode::Tbl(_) => Seq::<char>::empty(),
        });
        let after = items_text(self.items@.skip(k + 1), self.arena@) + self.trailing@;
        assert(self.doc_text() =~= before + value_text(self.arena@[h as int]) + after);
        assert(self.value_at(path) == self.arena@[h as int]);
        assert(other.doc_text() == items_text(self.items@, self.arena@.update(h as int, v))
            + self.trailing@);
        assert(before + value_text(v) + after =~= other.doc_text());
        assert(self.doc_text() == before + value_text(self.value_at(path)) + after && (before
            + value_text(v) + after) == other.doc_text());
    }
}

} // verus!
