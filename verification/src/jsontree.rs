//! The response viewer's JSON tree: a JSON value flattened into one row
//! per line, the rows left visible by collapsed nodes or a search, and the
//! summary shown for a collapsed node.
use vstd::prelude::*;
use crate::history::hex_digit;
use crate::text::{
    chars_of, contains_chars, decimal, extend_str, spec_contains, spec_decimal, spec_to_lowercase,
    string_from, to_lowercase,
};

verus! {

/// A parsed JSON value.
#[derive(Debug)]
pub enum JsonValue {
    Null,
    Bool(bool),
    /// A number, in the text the parser writes for it.
    Number(String),
    String(String),
    Array(Vec<JsonValue>),
    /// The members, in the order the parser hands them out.
    Object(Vec<(String, JsonValue)>),
}

/// What a row of the tree shows.
#[derive(Debug)]
pub enum LineKind {
    /// The opening bracket of an object or array with `count` members,
    /// under the key it has as a member of an object, shown quoted.
    Open { id: usize, key: Option<String>, is_array: bool, count: usize, trailing_comma: bool },
    /// The closing bracket of node `id`.
    Close { id: usize, is_array: bool, trailing_comma: bool },
    /// A scalar member of an object.
    Kv { key: Option<String>, value: String, class: &'static str, trailing_comma: bool },
    /// A scalar item of an array, or a scalar at the top.
    Item { value: String, class: &'static str, trailing_comma: bool },
}

/// One row of the tree.
#[derive(Debug)]
pub struct Line {
    pub depth: usize,
    /// The ids of the enclosing nodes, outermost first.
    pub ancestors: Vec<usize>,
    pub kind: LineKind,
}

/// The mathematical form of a `LineKind`.
pub enum KindView {
    Open { id: usize, key: Option<Seq<char>>, is_array: bool, count: int, trailing_comma: bool },
    Close { id: usize, is_array: bool, trailing_comma: bool },
    Kv { key: Option<Seq<char>>, value: Seq<char>, class: Seq<char>, trailing_comma: bool },
    Item { value: Seq<char>, class: Seq<char>, trailing_comma: bool },
}

/// The mathematical form of a `Line`.
pub struct LineView {
    pub depth: int,
    pub ancestors: Seq<usize>,
    pub kind: KindView,
}

/// The mathematical form of a row kind.
pub open spec fn kind_view(k: LineKind) -> KindView {
    match k {
        LineKind::Open { id, key, is_array, count, trailing_comma } => KindView::Open {
            id,
            key: string_opt(key),
            is_array,
            count: count as int,
            trailing_comma,
        },
        LineKind::Close { id, is_array, trailing_comma } => KindView::Close {
            id,
            is_array,
            trailing_comma,
        },
        LineKind::Kv { key, value, class, trailing_comma } => KindView::Kv {
            key: match key {
                Some(k) => Some(k@),
                None => None,
            },
            value: value@,
            class: class@,
            trailing_comma,
        },
        LineKind::Item { value, class, trailing_comma } => KindView::Item {
            value: value@,
            class: class@,
            trailing_comma,
        },
    }
}

/// The mathematical form of a row.
pub open spec fn line_view(l: Line) -> LineView {
    LineView { depth: l.depth as int, ancestors: l.ancestors@, kind: kind_view(l.kind) }
}

/// The mathematical form of a list of rows.
pub open spec fn line_views(ls: Seq<Line>) -> Seq<LineView> {
    ls.map_values(|l: Line| line_view(l))
}

/// How many members a value has: items of an array, members of an object.
pub open spec fn child_count(v: JsonValue) -> int {
    match v {
        JsonValue::Array(a) => a@.len() as int,
        JsonValue::Object(o) => o@.len() as int,
        _ => 0,
    }
}

/// The member of `v` at position `i`.
pub open spec fn child_at(v: JsonValue, i: int) -> JsonValue {
    match v {
        JsonValue::Array(a) => a@[i],
        JsonValue::Object(o) => o@[i].1,
        _ => JsonValue::Null,
    }
}

/// The key of the member of `v` at position `i`: its name in an object,
/// none in an array.
pub open spec fn child_key(v: JsonValue, i: int) -> Option<Seq<char>> {
    match v {
        JsonValue::Object(o) => Some(o@[i].0@),
        _ => None,
    }
}

/// A member is smaller than the value that holds it.
pub proof fn lemma_child_decreases(v: JsonValue, i: int)
    requires
        0 <= i < child_count(v),
    ensures
        decreases_to!(v => child_at(v, i)),
{
    match v {
        JsonValue::Array(a) => {
            assert(decreases_to!(a => a@));
            assert(decreases_to!(a@ => a@[i]));
        },
        JsonValue::Object(o) => {
            assert(decreases_to!(o => o@));
            assert(decreases_to!(o@ => o@[i]));
            assert(decreases_to!(o@[i] => o@[i].1));
        },
        _ => {},
    }
}

/// The number of values in `v`, `v` itself included.
pub open spec fn size(v: JsonValue) -> int
    decreases v, child_count(v) + 1,
{
    1 + size_from(v, 0)
}

/// The number of values in the members of `v` from position `i` on.
pub open spec fn size_from(v: JsonValue, i: int) -> int
    decreases v, child_count(v) - i,
{
    if i < 0 || i >= child_count(v) {
        0
    } else {
        proof {
            lemma_child_decreases(v, i);
        }
        size(child_at(v, i)) + size_from(v, i + 1)
    }
}

/// How a character is written inside a JSON string literal: `"` and `\\`
/// behind a backslash, the control characters that have a short escape
/// with it, the other characters below U+0020 as `\\u00` and two lowercase
/// hex digits, every other character as it is.
pub open spec fn json_escape_char(c: char) -> Seq<char> {
    let n = c as int;
    if c == '"' {
        seq!['\\', '"']
    } else if c == '\\' {
        seq!['\\', '\\']
    } else if n == 8 {
        seq!['\\', 'b']
    } else if n == 9 {
        seq!['\\', 't']
    } else if n == 10 {
        seq!['\\', 'n']
    } else if n == 12 {
        seq!['\\', 'f']
    } else if n == 13 {
        seq!['\\', 'r']
    } else if n < 32 {
        seq!['\\', 'u', '0', '0', hex_digit(n / 16), hex_digit(n % 16)]
    } else {
        seq![c]
    }
}

/// The characters of `s`, each written as in a JSON string literal.
pub open spec fn json_escaped(s: Seq<char>) -> Seq<char>
    decreases s.len(),
{
    if s.len() == 0 {
        Seq::empty()
    } else {
        json_escaped(s.drop_last()) + json_escape_char(s.last())
    }
}

/// A string as it is shown: its JSON string literal.
pub open spec fn quoted(s: Seq<char>) -> Seq<char> {
    seq!['"'] + json_escaped(s) + seq!['"']
}

/// The row of a scalar with the key as shown: a key/value row under a
/// key, an item row without.
pub open spec fn row_of(
    depth: int,
    anc: Seq<usize>,
    shown_key: Option<Seq<char>>,
    value: Seq<char>,
    class: Seq<char>,
    trailing: bool,
) -> LineView {
    LineView {
        depth,
        ancestors: anc,
        kind: match shown_key {
            Some(k) => KindView::Kv { key: Some(k), value, class, trailing_comma: trailing },
            None => KindView::Item { value, class, trailing_comma: trailing },
        },
    }
}

/// The row of a scalar under the raw key `key`, if any.
pub open spec fn leaf_view(
    depth: int,
    anc: Seq<usize>,
    key: Option<Seq<char>>,
    value: Seq<char>,
    class: Seq<char>,
    trailing: bool,
) -> LineView {
    row_of(
        depth,
        anc,
        match key {
            Some(k) => Some(quoted(k)),
            None => None,
        },
        value,
        class,
        trailing,
    )
}

/// The view of an optional string slice.
pub open spec fn str_opt(key: Option<&str>) -> Option<Seq<char>> {
    match key {
        Some(k) => Some(k@),
        None => None,
    }
}

/// The view of an optional string.
pub open spec fn string_opt(key: Option<String>) -> Option<Seq<char>> {
    match key {
        Some(k) => Some(k@),
        None => None,
    }
}

/// The rows of `v` and the next unused node id, for `v` at `depth` under
/// the nodes `anc`, with the given key, last among its siblings or not,
/// numbering compound nodes from `next` on.
pub open spec fn walk_spec(
    v: JsonValue,
    depth: int,
    anc: Seq<usize>,
    key: Option<Seq<char>>,
    is_last: bool,
    next: int,
) -> (Seq<LineView>, int)
    decreases v, child_count(v) + 1,
{
    match v {
        JsonValue::Null => (seq![leaf_view(depth, anc, key, "null"@, "j-null"@, !is_last)], next),
        JsonValue::Bool(b) => (
            seq![
                leaf_view(
                    depth,
                    anc,
                    key,
                    if b {
                        "true"@
                    } else {
                        "false"@
                    },
                    "j-bool"@,
                    !is_last,
                ),
            ],
            next,
        ),
        JsonValue::Number(n) => (seq![leaf_view(depth, anc, key, n@, "j-num"@, !is_last)], next),
        JsonValue::String(s) => (
            seq![leaf_view(depth, anc, key, quoted(s@), "j-str"@, !is_last)],
            next,
        ),
        _ => {
            let is_array = v is Array;
            let id = next as usize;
            let open = LineView {
                depth,
                ancestors: anc,
                kind: KindView::Open {
                    id,
                    key: match key {
                        Some(k) => Some(quoted(k)),
                        None => None,
                    },
                    is_array,
                    count: child_count(v),
                    trailing_comma: false,
                },
            };
            let close = LineView {
                depth,
                ancestors: anc,
                kind: KindView::Close { id, is_array, trailing_comma: !is_last },
            };
            let inner = walk_from(v, 0, depth + 1, anc.push(id), next + 1);
            (seq![open] + inner.0 + seq![close], inner.1)
        },
    }
}

/// The rows of the members of `v` from position `i` on, at `depth` under
/// the nodes `anc`, numbering from `next` on; and the next unused id.
pub open spec fn walk_from(v: JsonValue, i: int, depth: int, anc: Seq<usize>, next: int) -> (
    Seq<LineView>,
    int,
)
    decreases v, child_count(v) - i,
{
    if i < 0 || i >= child_count(v) {
        (Seq::empty(), next)
    } else {
        proof {
            lemma_child_decreases(v, i);
        }
        let first = walk_spec(
            child_at(v, i),
            depth,
            anc,
            child_key(v, i),
            i + 1 == child_count(v),
            next,
        );
        let rest = walk_from(v, i + 1, depth, anc, first.1);
        (first.0 + rest.0, rest.1)
    }
}

/// `walk_spec` hands out ids from `next` on, at most one per value.
pub proof fn lemma_walk_ids(
    v: JsonValue,
    depth: int,
    anc: Seq<usize>,
    key: Option<Seq<char>>,
    is_last: bool,
    next: int,
)
    ensures
        next <= walk_spec(v, depth, anc, key, is_last, next).1 <= next + size(v),
        size(v) >= 1,
    decreases v, child_count(v) + 1,
{
    lemma_walk_from_ids(v, 0, depth + 1, anc.push(next as usize), next + 1);
}

/// `walk_from` hands out ids from `next` on, at most one per value.
pub proof fn lemma_walk_from_ids(v: JsonValue, i: int, depth: int, anc: Seq<usize>, next: int)
    requires
        0 <= i,
    ensures
        next <= walk_from(v, i, depth, anc, next).1 <= next + size_from(v, i),
        size_from(v, i) >= 0,
    decreases v, child_count(v) - i,
{
    if i < child_count(v) {
        lemma_child_decreases(v, i);
        let c = child_at(v, i);
        lemma_walk_ids(c, depth, anc, child_key(v, i), i + 1 == child_count(v), next);
        let n1 = walk_spec(c, depth, anc, child_key(v, i), i + 1 == child_count(v), next).1;
        lemma_walk_from_ids(v, i + 1, depth, anc, n1);
    }
}

/// A copy of a list of ids.
fn copy_ids(a: &[usize]) -> (r: Vec<usize>)
    ensures
        r@ == a@,
{
    let mut r: Vec<usize> = Vec::new();
    let mut i: usize = 0;
    while i < a.len()
        invariant
            i <= a@.len(),
            r@ == a@.take(i as int),
        decreases a@.len() - i,
    {
        r.push(a[i]);
        assert(a@.take(i + 1) == a@.take(i as int).push(a@[i as int]));
        i = i + 1;
    }
    assert(a@.take(a@.len() as int) == a@);
    r
}

/// Calls `serde_json::to_string` on a string. Its source writes a string
/// into a byte vector, which cannot fail, as a double quote, each
/// character escaped by its table of escapes, and a double quote: the
/// contract claims that result, `quoted`. The error arm never runs.
#[verifier::external_body]
fn json_to_string(s: &str) -> (r: String)
    ensures
        r@ == quoted(s@),
{
    match serde_json::to_string(s) {
        Ok(q) => q,
        Err(_) => String::new(),
    }
}

/// A string as it is shown in the tree: its JSON string literal.
pub fn quote(s: &str) -> (r: String)
    ensures
        r@ == quoted(s@),
{
    json_to_string(s)
}

/// The row of a scalar.
fn leaf(
    depth: usize,
    ancestors: &[usize],
    key_str: &Option<String>,
    value: String,
    class: &'static str,
    trailing: bool,
) -> (l: Line)
    ensures
        line_view(l) == row_of(
            depth as int,
            ancestors@,
            string_opt(*key_str),
            value@,
            class@,
            trailing,
        ),
{
    let kind = match key_str {
        Some(k) => LineKind::Kv {
            key: Some(k.clone()),
            value,
            class,
            trailing_comma: trailing,
        },
        None => LineKind::Item { value, class, trailing_comma: trailing },
    };
    Line { depth, ancestors: copy_ids(ancestors), kind }
}

/// Appends the rows of `v` to `out`, numbering its compound nodes from
/// `*next_id` on.
pub fn walk(
    v: &JsonValue,
    depth: usize,
    ancestors: &[usize],
    key: Option<&str>,
    is_last: bool,
    next_id: &mut usize,
    out: &mut Vec<Line>,
)
    requires
        *old(next_id) + size(*v) <= usize::MAX,
        depth + size(*v) <= usize::MAX,
    ensures
        line_views(final(out)@) == line_views(old(out)@) + walk_spec(
            *v,
            depth as int,
            ancestors@,
            str_opt(key),
            is_last,
            *old(next_id) as int,
        ).0,
        *final(next_id) as int == walk_spec(
            *v,
            depth as int,
            ancestors@,
            str_opt(key),
            is_last,
            *old(next_id) as int,
        ).1,
    decreases *v,
{
    let ghost kv: Option<Seq<char>> = str_opt(key);
    let ghost start = *next_id as int;
    let ghost before = line_views(out@);
    let key_str: Option<String> = match key {
        Some(k) => Some(quote(k)),
        None => None,
    };
    let trailing = !is_last;
    proof {
        lemma_walk_ids(*v, depth as int, ancestors@, kv, is_last, start);
    }
    match v {
        JsonValue::Null => {
            let l = leaf(depth, ancestors, &key_str, String::from_str("null"), "j-null", trailing);
            out.push(l);
            assert(line_views(out@) =~= before + seq![line_view(l)]);
        },
        JsonValue::Bool(b) => {
            let val = if *b {
                String::from_str("true")
            } else {
                String::from_str("false")
            };
            let l = leaf(depth, ancestors, &key_str, val, "j-bool", trailing);
            out.push(l);
            assert(line_views(out@) =~= before + seq![line_view(l)]);
        },
        JsonValue::Number(n) => {
            let l = leaf(depth, ancestors, &key_str, n.clone(), "j-num", trailing);
            out.push(l);
            assert(line_views(out@) =~= before + seq![line_view(l)]);
        },
        JsonValue::String(s) => {
            let l = leaf(depth, ancestors, &key_str, quote(s.as_str()), "j-str", trailing);
            out.push(l);
            assert(line_views(out@) =~= before + seq![line_view(l)]);
        },
        JsonValue::Array(arr) => {
            let id = *next_id;
            *next_id = *next_id + 1;
            let mut new_ancestors = copy_ids(ancestors);
            let n = arr.len();
            let open = Line {
                depth,
                ancestors: copy_ids(ancestors),
                kind: LineKind::Open { id, key: key_str, is_array: true, count: n, trailing_comma: false },
            };
            out.push(open);
            new_ancestors.push(id);
            let ghost anc2 = new_ancestors@;
            let ghost after_open = line_views(out@);
            assert(after_open =~= before + seq![line_view(open)]);
            let mut i: usize = 0;
            proof {
                lemma_walk_from_ids(*v, 0, depth + 1, anc2, start + 1);
            }
            while i < n
                invariant
                    i <= n,
                    n == child_count(*v),
                    *v == JsonValue::Array(*arr),
                    anc2 == new_ancestors@,
                    start + 1 <= *next_id,
                    *next_id + size_from(*v, i as int) <= start + size(*v),
                    start + size(*v) <= usize::MAX,
                    depth + size(*v) <= usize::MAX,
                    walk_from(*v, i as int, depth + 1, anc2, *next_id as int).1 == walk_from(
                        *v,
                        0,
                        depth + 1,
                        anc2,
                        start + 1,
                    ).1,
                    line_views(out@) + walk_from(*v, i as int, depth + 1, anc2, *next_id as int).0
                        == after_open + walk_from(*v, 0, depth + 1, anc2, start + 1).0,
                decreases n - i,
            {
                proof {
                    lemma_child_decreases(*v, i as int);
                    lemma_walk_from_ids(*v, i + 1, depth + 1, anc2, *next_id as int);
                    lemma_walk_ids(arr@[i as int], depth + 1, anc2, None, i + 1 == n, *next_id as int);
                }
                let ghost pre = line_views(out@);
                let ghost nid = *next_id as int;
                walk(&arr[i], depth + 1, new_ancestors.as_slice(), None, i + 1 == n, next_id, out);
                proof {
                    let first = walk_spec(arr@[i as int], depth + 1, anc2, None, i + 1 == n, nid);
                    assert(line_views(out@) == pre + first.0);
                    lemma_walk_from_ids(*v, i + 1, depth + 1, anc2, first.1);
                }
                i = i + 1;
            }
            let close = Line {
                depth,
                ancestors: copy_ids(ancestors),
                kind: LineKind::Close { id, is_array: true, trailing_comma: trailing },
            };
            let ghost pre = line_views(out@);
            out.push(close);
            assert(line_views(out@) =~= pre + seq![line_view(close)]);
            assert(walk_from(*v, n as int, depth + 1, anc2, *next_id as int).0 =~= Seq::<LineView>::empty());
        },
        JsonValue::Object(obj) => {
            let id = *next_id;
            *next_id = *next_id + 1;
            let mut new_ancestors = copy_ids(ancestors);
            let n = obj.len();
            let open = Line {
                depth,
                ancestors: copy_ids(ancestors),
                kind: LineKind::Open { id, key: key_str, is_array: false, count: n, trailing_comma: false },
            };
            out.push(open);
            new_ancestors.push(id);
            let ghost anc2 = new_ancestors@;
            let ghost after_open = line_views(out@);
            assert(after_open =~= before + seq![line_view(open)]);
            let mut i: usize = 0;
            proof {
                lemma_walk_from_ids(*v, 0, depth + 1, anc2, start + 1);
            }
            while i < n
                invariant
                    i <= n,
                    n == child_count(*v),
                    *v == JsonValue::Object(*obj),
                    anc2 == new_ancestors@,
                    start + 1 <= *next_id,
                    *next_id + size_from(*v, i as int) <= start + size(*v),
                    start + size(*v) <= usize::MAX,
                    depth + size(*v) <= usize::MAX,
                    walk_from(*v, i as int, depth + 1, anc2, *next_id as int).1 == walk_from(
                        *v,
                        0,
                        depth + 1,
                        anc2,
                        start + 1,
                    ).1,
                    line_views(out@) + walk_from(*v, i as int, depth + 1, anc2, *next_id as int).0
                        == after_open + walk_from(*v, 0, depth + 1, anc2, start + 1).0,
                decreases n - i,
            {
                proof {
                    lemma_child_decreases(*v, i as int);
                    lemma_walk_from_ids(*v, i + 1, depth + 1, anc2, *next_id as int);
                    lemma_walk_ids(
                        obj@[i as int].1,
                        depth + 1,
                        anc2,
                        Some(obj@[i as int].0@),
                        i + 1 == n,
                        *next_id as int,
                    );
                }
                let ghost pre = line_views(out@);
                let ghost nid = *next_id as int;
                let member = &obj[i];
                walk(
                    &member.1,
                    depth + 1,
                    new_ancestors.as_slice(),
                    Some(member.0.as_str()),
                    i + 1 == n,
                    next_id,
                    out,
                );
                proof {
                    let first = walk_spec(
                        obj@[i as int].1,
                        depth + 1,
                        anc2,
                        Some(obj@[i as int].0@),
                        i + 1 == n,
                        nid,
                    );
                    assert(line_views(out@) == pre + first.0);
                    lemma_walk_from_ids(*v, i + 1, depth + 1, anc2, first.1);
                }
                i = i + 1;
            }
            let close = Line {
                depth,
                ancestors: copy_ids(ancestors),
                kind: LineKind::Close { id, is_array: false, trailing_comma: trailing },
            };
            let ghost pre = line_views(out@);
            out.push(close);
            assert(line_views(out@) =~= pre + seq![line_view(close)]);
            assert(walk_from(*v, n as int, depth + 1, anc2, *next_id as int).0 =~= Seq::<LineView>::empty());
        },
    }
}

/// The rows of a JSON value, its compound nodes numbered from 0.
pub fn flatten(v: &JsonValue) -> (r: Vec<Line>)
    requires
        size(*v) <= usize::MAX,
    ensures
        line_views(r@) == walk_spec(*v, 0, Seq::empty(), None, true, 0).0,
{
    let mut out: Vec<Line> = Vec::new();
    let mut next_id: usize = 0;
    let empty: Vec<usize> = Vec::new();
    walk(v, 0, empty.as_slice(), None, true, &mut next_id, &mut out);
    assert(line_views(Seq::<Line>::empty()) =~= Seq::<LineView>::empty());
    assert(empty@ =~= Seq::<usize>::empty());
    out
}

} // verus!

verus! {

broadcast use vstd::std_specs::hash::group_hash_axioms;

/// Whether a row matches the lower-cased search text `needle`: a key or a
/// value of a scalar row holds it once lower-cased.
pub open spec fn spec_line_matches(l: LineView, needle: Seq<char>) -> bool {
    match l.kind {
        KindView::Kv { key, value, .. } => (key matches Some(k) && spec_contains(
            spec_to_lowercase(k),
            needle,
        )) || spec_contains(spec_to_lowercase(value), needle),
        KindView::Item { value, .. } => spec_contains(spec_to_lowercase(value), needle),
        _ => false,
    }
}

/// Whether a row matches the lower-cased search text `needle_lower`.
pub fn line_matches(line: &Line, needle_lower: &str) -> (r: bool)
    ensures
        r == spec_line_matches(line_view(*line), needle_lower@),
{
    let nv = chars_of(needle_lower);
    match &line.kind {
        LineKind::Kv { key, value, .. } => {
            let in_key = match key {
                Some(k) => {
                    let kl = to_lowercase(k.as_str());
                    let kc = chars_of(kl.as_str());
                    contains_chars(kc.as_slice(), nv.as_slice())
                },
                None => false,
            };
            if in_key {
                return true;
            }
            let vl = to_lowercase(value.as_str());
            let vc = chars_of(vl.as_str());
            contains_chars(vc.as_slice(), nv.as_slice())
        },
        LineKind::Item { value, .. } => {
            let vl = to_lowercase(value.as_str());
            let vc = chars_of(vl.as_str());
            contains_chars(vc.as_slice(), nv.as_slice())
        },
        _ => false,
    }
}

/// The node id of an opening or closing row.
pub open spec fn bracket_id(k: KindView) -> Option<usize> {
    match k {
        KindView::Open { id, .. } => Some(id),
        KindView::Close { id, .. } => Some(id),
        _ => None,
    }
}

/// Whether `a` is an ancestor of some row among the first `k` that
/// matches `needle`.
pub open spec fn matched_ancestor(ls: Seq<LineView>, k: int, needle: Seq<char>, a: usize) -> bool {
    exists|i: int|
        0 <= i < k && spec_line_matches(#[trigger] ls[i], needle) && ls[i].ancestors.contains(a)
}

/// Whether search keeps row `l`: it matches, or it opens or closes a node
/// that encloses a matching row.
pub open spec fn search_keeps(ls: Seq<LineView>, l: LineView, needle: Seq<char>) -> bool {
    spec_line_matches(l, needle) || (bracket_id(l.kind) matches Some(id) && matched_ancestor(
        ls,
        ls.len() as int,
        needle,
        id,
    ))
}

/// The indices, among the first `k` rows, that search keeps.
pub open spec fn search_visible(ls: Seq<LineView>, k: int, needle: Seq<char>) -> Seq<usize>
    decreases k,
{
    if k <= 0 {
        Seq::empty()
    } else if search_keeps(ls, ls[k - 1], needle) {
        search_visible(ls, k - 1, needle).push((k - 1) as usize)
    } else {
        search_visible(ls, k - 1, needle)
    }
}

/// Whether some id of `hide` is among `ancestors`.
pub open spec fn under_hidden(hide: Seq<usize>, ancestors: Seq<usize>) -> bool {
    exists|j: int| 0 <= j < hide.len() && ancestors.contains(#[trigger] hide[j])
}

/// One step of the walk that hides collapsed subtrees: row `l` at index
/// `i`, with the indices `out` kept so far and the stack `hide` of
/// collapsed nodes that are open.
pub open spec fn collapse_step(
    st: (Seq<usize>, Seq<usize>),
    l: LineView,
    i: usize,
    collapsed: Set<usize>,
) -> (Seq<usize>, Seq<usize>) {
    let (out, hide) = st;
    let inside = under_hidden(hide, l.ancestors);
    let shown = if !inside {
        out.push(i)
    } else {
        out
    };
    match l.kind {
        KindView::Open { id, .. } => if collapsed.contains(id) {
            (shown, hide.push(id))
        } else {
            (shown, hide)
        },
        KindView::Close { id, .. } => if hide.contains(id) {
            (out, hide.remove(hide.index_of_first(id)->0))
        } else {
            (shown, hide)
        },
        _ => (shown, hide),
    }
}

/// The walk that hides collapsed subtrees, over the first `k` rows.
pub open spec fn collapse_fold(ls: Seq<LineView>, k: int, collapsed: Set<usize>) -> (
    Seq<usize>,
    Seq<usize>,
)
    decreases k,
{
    if k <= 0 {
        (Seq::empty(), Seq::empty())
    } else {
        collapse_step(collapse_fold(ls, k - 1, collapsed), ls[k - 1], (k - 1) as usize, collapsed)
    }
}

/// The indices of the rows to show: with a search text, the rows that
/// match it and the brackets of the nodes around them; without one, every
/// row outside a collapsed node, a collapsed node showing only its opening
/// row.
pub open spec fn spec_compute_visible(
    ls: Seq<LineView>,
    collapsed: Set<usize>,
    query: Seq<char>,
) -> Seq<usize> {
    if query.len() > 0 {
        search_visible(ls, ls.len() as int, spec_to_lowercase(query))
    } else {
        collapse_fold(ls, ls.len() as int, collapsed).0
    }
}

/// Whether `x` is in `v`.
fn has_id(v: &[usize], x: usize) -> (r: bool)
    ensures
        r == v@.contains(x),
{
    let mut i: usize = 0;
    while i < v.len()
        invariant
            i <= v@.len(),
            forall|j: int| 0 <= j < i ==> v@[j] != x,
        decreases v@.len() - i,
    {
        if v[i] == x {
            assert(v@[i as int] == x);
            return true;
        }
        i = i + 1;
    }
    false
}

/// Whether some id of `hide` is in `ancestors`.
fn any_hidden(hide: &Vec<usize>, ancestors: &Vec<usize>) -> (r: bool)
    ensures
        r == under_hidden(hide@, ancestors@),
{
    let mut j: usize = 0;
    while j < hide.len()
        invariant
            j <= hide@.len(),
            forall|k: int| 0 <= k < j ==> !ancestors@.contains(#[trigger] hide@[k]),
        decreases hide@.len() - j,
    {
        if has_id(ancestors.as_slice(), hide[j]) {
            return true;
        }
        j = j + 1;
    }
    false
}

/// The first position of `x` in `v`, if any.
fn position_of(v: &Vec<usize>, x: usize) -> (r: Option<usize>)
    ensures
        match r {
            Some(p) => v@.contains(x) && p < v@.len() && p as int == v@.index_of_first(x)->0,
            None => !v@.contains(x),
        },
{
    let mut i: usize = 0;
    while i < v.len()
        invariant
            i <= v@.len(),
            forall|j: int| 0 <= j < i ==> v@[j] != x,
        decreases v@.len() - i,
    {
        if v[i] == x {
            proof {
                v@.index_of_first_ensures(x);
                assert(v@[i as int] == x);
            }
            return Some(i);
        }
        i = i + 1;
    }
    None
}

/// The indices of the rows to show under the collapsed nodes and the
/// search text.
pub fn compute_visible(
    lines: &[Line],
    collapsed: &std::collections::HashSet<usize>,
    query: &str,
) -> (r: Vec<usize>)
    ensures
        r@ == spec_compute_visible(line_views(lines@), collapsed@, query@),
{
    let ghost ls = line_views(lines@);
    let n = lines.len();
    if !query.is_empty() {
        let needle = to_lowercase(query);
        let mut keep_ancestors: std::collections::HashSet<usize> = std::collections::HashSet::new();
        let mut i: usize = 0;
        while i < n
            invariant
                i <= n,
                n == lines@.len(),
                ls == line_views(lines@),
                forall|a: usize|
                    #[trigger] keep_ancestors@.contains(a) <==> matched_ancestor(
                        ls,
                        i as int,
                        needle@,
                        a,
                    ),
            decreases n - i,
        {
            let line = &lines[i];
            assert(ls[i as int] == line_view(*line));
            if line_matches(line, needle.as_str()) {
                let mut j: usize = 0;
                let ghost before = keep_ancestors@;
                while j < line.ancestors.len()
                    invariant
                        j <= line.ancestors@.len(),
                        forall|a: usize|
                            #[trigger] keep_ancestors@.contains(a) <==> (before.contains(a) || (
                            exists|t: int| 0 <= t < j && line.ancestors@[t] == a)),
                    decreases line.ancestors@.len() - j,
                {
                    keep_ancestors.insert(line.ancestors[j]);
                    j = j + 1;
                }
                assert forall|a: usize| #[trigger] keep_ancestors@.contains(a) <==> matched_ancestor(
                    ls,
                    i + 1,
                    needle@,
                    a,
                ) by {
                    if keep_ancestors@.contains(a) && !before.contains(a) {
                        let t = choose|t: int| 0 <= t < j && line.ancestors@[t] == a;
                        assert(ls[i as int].ancestors.contains(a)) by {
                            assert(ls[i as int].ancestors[t] == a);
                        }
                    }
                    if matched_ancestor(ls, i + 1, needle@, a) && !matched_ancestor(
                        ls,
                        i as int,
                        needle@,
                        a,
                    ) {
                        let w = choose|w: int|
                            0 <= w < i + 1 && spec_line_matches(#[trigger] ls[w], needle@)
                                && ls[w].ancestors.contains(a);
                        assert(w == i);
                        let t = choose|t: int|
                            0 <= t < ls[w].ancestors.len() && ls[w].ancestors[t] == a;
                        assert(line.ancestors@[t] == a);
                    }
                }
            } else {
                assert forall|a: usize| #[trigger] keep_ancestors@.contains(a) <==> matched_ancestor(
                    ls,
                    i + 1,
                    needle@,
                    a,
                ) by {
                    if matched_ancestor(ls, i + 1, needle@, a) {
                        let w = choose|w: int|
                            0 <= w < i + 1 && spec_line_matches(#[trigger] ls[w], needle@)
                                && ls[w].ancestors.contains(a);
                        assert(w != i);
                    }
                }
            }
            i = i + 1;
        }
        let mut out: Vec<usize> = Vec::new();
        let mut i: usize = 0;
        while i < n
            invariant
                i <= n,
                n == lines@.len(),
                ls == line_views(lines@),
                needle@ == spec_to_lowercase(query@),
                forall|a: usize|
                    #[trigger] keep_ancestors@.contains(a) <==> matched_ancestor(
                        ls,
                        n as int,
                        needle@,
                        a,
                    ),
                out@ == search_visible(ls, i as int, needle@),
            decreases n - i,
        {
            let line = &lines[i];
            assert(ls[i as int] == line_view(*line));
            let keep = line_matches(line, needle.as_str()) || match &line.kind {
                LineKind::Open { id, .. } => keep_ancestors.contains(id),
                LineKind::Close { id, .. } => keep_ancestors.contains(id),
                _ => false,
            };
            if keep {
                out.push(i);
            }
            i = i + 1;
        }
        return out;
    }
    let mut out: Vec<usize> = Vec::new();
    let mut hide_ids: Vec<usize> = Vec::new();
    let mut i: usize = 0;
    while i < n
        invariant
            i <= n,
            n == lines@.len(),
            ls == line_views(lines@),
            (out@, hide_ids@) == collapse_fold(ls, i as int, collapsed@),
        decreases n - i,
    {
        let line = &lines[i];
        assert(ls[i as int] == line_view(*line));
        let inside_hidden = any_hidden(&hide_ids, &line.ancestors);
        let ghost out0 = out@;
        if !inside_hidden {
            out.push(i);
        }
        match &line.kind {
            LineKind::Open { id, .. } => {
                if collapsed.contains(id) {
                    hide_ids.push(*id);
                }
            },
            LineKind::Close { id, .. } => {
                if let Some(pos) = position_of(&hide_ids, *id) {
                    hide_ids.remove(pos);
                    if !inside_hidden {
                        out.pop();
                        assert(out@ =~= out0);
                    }
                }
            },
            _ => {},
        }
        i = i + 1;
    }
    out
}

/// The label of a collapsed node: `[ …n items ]` for an array,
/// `{ …n keys }` for an object, and nothing for another row.
pub open spec fn spec_collapsed_summary(k: KindView) -> Seq<char> {
    match k {
        KindView::Open { is_array, count, .. } => if is_array {
            "[ …"@ + spec_decimal(count as nat) + " items ]"@
        } else {
            "{ …"@ + spec_decimal(count as nat) + " keys }"@
        },
        _ => Seq::empty(),
    }
}

/// The label of a collapsed node.
pub fn collapsed_summary(kind: &LineKind) -> (r: String)
    ensures
        r@ == spec_collapsed_summary(kind_view(*kind)),
{
    match kind {
        LineKind::Open { is_array, count, .. } => {
            let mut v = if *is_array {
                chars_of("[ …")
            } else {
                chars_of("{ …")
            };
            let d = decimal(*count);
            extend_str(&mut v, d.as_str());
            if *is_array {
                extend_str(&mut v, " items ]");
            } else {
                extend_str(&mut v, " keys }");
            }
            string_from(v.as_slice())
        },
        _ => String::new(),
    }
}

/// Whether a row opens a node that starts collapsed: below depth 2, or an
/// array of more than 20 items.
pub open spec fn starts_collapsed(l: LineView) -> bool {
    match l.kind {
        KindView::Open { is_array, count, .. } => l.depth >= 2 || (is_array && count > 20),
        _ => false,
    }
}

/// The nodes that start collapsed.
pub fn initial_collapsed(lines: &[Line]) -> (r: std::collections::HashSet<usize>)
    ensures
        forall|id: usize|
            #[trigger] r@.contains(id) <==> exists|i: int|
                0 <= i < lines@.len() && starts_collapsed(line_views(lines@)[i]) && bracket_id(
                    line_views(lines@)[i].kind,
                ) == Some(id) && line_views(lines@)[i].kind is Open,
{
    let ghost ls = line_views(lines@);
    let mut r: std::collections::HashSet<usize> = std::collections::HashSet::new();
    let mut i: usize = 0;
    while i < lines.len()
        invariant
            i <= lines@.len(),
            ls == line_views(lines@),
            forall|id: usize|
                #[trigger] r@.contains(id) <==> exists|j: int|
                    0 <= j < i && starts_collapsed(ls[j]) && bracket_id(ls[j].kind) == Some(id)
                        && ls[j].kind is Open,
        decreases lines@.len() - i,
    {
        let line = &lines[i];
        assert(ls[i as int] == line_view(*line));
        let ghost before = r@;
        match &line.kind {
            LineKind::Open { id, is_array, count, .. } => {
                if line.depth >= 2 || (*is_array && *count > 20) {
                    r.insert(*id);
                }
            },
            _ => {},
        }
        assert forall|id: usize| #[trigger] r@.contains(id) <==> exists|j: int|
            0 <= j < i + 1 && starts_collapsed(ls[j]) && bracket_id(ls[j].kind) == Some(id)
                && ls[j].kind is Open by {
            if r@.contains(id) && !before.contains(id) {
                assert(starts_collapsed(ls[i as int]) && bracket_id(ls[i as int].kind) == Some(id));
            }
        }
        i = i + 1;
    }
    r
}

/// The number of rows that match the search text; none for an empty one.
pub fn match_count(lines: &[Line], query: &str) -> (r: usize)
    ensures
        r == if query@.len() == 0 {
            0
        } else {
            line_views(lines@).filter(|l: LineView| spec_line_matches(l, spec_to_lowercase(query@))).len()
        },
{
    if query.is_empty() {
        return 0;
    }
    let ghost ls = line_views(lines@);
    let needle = to_lowercase(query);
    let ghost pred = |l: LineView| spec_line_matches(l, needle@);
    let mut c: usize = 0;
    let mut i: usize = 0;
    while i < lines.len()
        invariant
            i <= lines@.len(),
            ls == line_views(lines@),
            pred == (|l: LineView| spec_line_matches(l, needle@)),
            c == ls.take(i as int).filter(pred).len(),
            c <= i,
        decreases lines@.len() - i,
    {
        assert(ls[i as int] == line_view(lines@[i as int]));
        assert(ls.take(i + 1).drop_last() =~= ls.take(i as int));
        proof {
            reveal(Seq::filter);
        }
        if line_matches(&lines[i], needle.as_str()) {
            c = c + 1;
        }
        i = i + 1;
    }
    assert(ls.take(lines@.len() as int) =~= ls);
    c
}

/// The collapsed nodes with node `id` toggled.
pub open spec fn toggled(s: Set<usize>, id: usize) -> Set<usize> {
    if s.contains(id) {
        s.remove(id)
    } else {
        s.insert(id)
    }
}

/// Collapses node `id` if it is open, opens it if it is collapsed.
pub fn toggle_collapsed(collapsed: &mut std::collections::HashSet<usize>, id: usize)
    ensures
        final(collapsed)@ == toggled(old(collapsed)@, id),
{
    if !collapsed.insert(id) {
        collapsed.remove(&id);
    }
}

} // verus!

verus! {

proof fn lemma_collapse_fold_none(ls: Seq<LineView>, k: int)
    requires
        0 <= k <= ls.len(),
    ensures
        collapse_fold(ls, k, Set::empty()).1 == Seq::<usize>::empty(),
        collapse_fold(ls, k, Set::empty()).0 == Seq::new(k as nat, |i: int| i as usize),
    decreases k,
{
    if k > 0 {
        lemma_collapse_fold_none(ls, k - 1);
        let prev = collapse_fold(ls, k - 1, Set::empty());
        assert(!under_hidden(prev.1, ls[k - 1].ancestors));
        assert(!prev.1.contains(0usize) && forall|id: usize| !prev.1.contains(id));
        assert(collapse_fold(ls, k, Set::empty()).0 =~= Seq::new(k as nat, |i: int| i as usize));
    }
}

/// With nothing collapsed and no search text, every row is shown, in
/// order.
pub proof fn law_nothing_collapsed_shows_all(ls: Seq<LineView>)
    ensures
        spec_compute_visible(ls, Set::empty(), Seq::empty()) == Seq::new(
            ls.len(),
            |i: int| i as usize,
        ),
{
    lemma_collapse_fold_none(ls, ls.len() as int);
}

proof fn lemma_search_keeps_matches(ls: Seq<LineView>, k: int, needle: Seq<char>, i: int)
    requires
        0 <= i < k <= ls.len(),
        spec_line_matches(ls[i], needle),
    ensures
        search_visible(ls, k, needle).contains(i as usize),
    decreases k,
{
    if i == k - 1 {
        let s = search_visible(ls, k, needle);
        assert(s.last() == i as usize);
        assert(s[s.len() - 1] == i as usize);
    } else {
        lemma_search_keeps_matches(ls, k - 1, needle, i);
        let prev = search_visible(ls, k - 1, needle);
        let j = choose|j: int| 0 <= j < prev.len() && prev[j] == i as usize;
        if search_keeps(ls, ls[k - 1], needle) {
            assert(search_visible(ls, k, needle)[j] == i as usize);
        }
    }
}

/// With a search text, every row that matches it is shown.
pub proof fn law_search_shows_every_match(
    ls: Seq<LineView>,
    collapsed: Set<usize>,
    query: Seq<char>,
    i: int,
)
    requires
        query.len() > 0,
        0 <= i < ls.len(),
        spec_line_matches(ls[i], spec_to_lowercase(query)),
    ensures
        spec_compute_visible(ls, collapsed, query).contains(i as usize),
{
    lemma_search_keeps_matches(ls, ls.len() as int, spec_to_lowercase(query), i);
}

/// The rows of an object or array begin with its opening row and end with
/// its closing row, both under the same fresh id, the opening row giving
/// the number of members and showing the node's key, quoted, when it is a
/// member of an object.
pub proof fn law_walk_brackets(
    v: JsonValue,
    depth: int,
    anc: Seq<usize>,
    key: Option<Seq<char>>,
    is_last: bool,
    next: int,
)
    requires
        v is Array || v is Object,
    ensures
        walk_spec(v, depth, anc, key, is_last, next).0[0].kind == (KindView::Open {
            id: next as usize,
            key: match key {
                Some(k) => Some(quoted(k)),
                None => None,
            },
            is_array: v is Array,
            count: child_count(v),
            trailing_comma: false,
        }),
        walk_spec(v, depth, anc, key, is_last, next).0.last().kind == (KindView::Close {
            id: next as usize,
            is_array: v is Array,
            trailing_comma: !is_last,
        }),
{
}

} // verus!

verus! {

/// Whether row `l` closes node `id`.
pub open spec fn closes(l: LineView, id: usize) -> bool {
    l.kind matches KindView::Close { id: cid, .. } && cid == id
}

/// The walk keeps only indices of rows it has passed.
proof fn lemma_fold_indices_below(ls: Seq<LineView>, k: int, c: Set<usize>)
    requires
        0 <= k <= ls.len(),
        ls.len() <= usize::MAX,
    ensures
        forall|t: int|
            0 <= t < collapse_fold(ls, k, c).0.len() ==> (#[trigger] collapse_fold(ls, k, c).0[t])
                < k,
    decreases k,
{
    if k > 0 {
        lemma_fold_indices_below(ls, k - 1, c);
        let prev = collapse_fold(ls, k - 1, c).0;
        let next = collapse_fold(ls, k, c).0;
        assert(next == prev || next == prev.push((k - 1) as usize));
        assert forall|t: int| 0 <= t < next.len() implies #[trigger] next[t] < k by {
            if t < prev.len() {
                assert(next[t] == prev[t]);
            }
        }
    }
}

/// Past row `j`, the walk never adds `j` again.
proof fn lemma_fold_no_new(ls: Seq<LineView>, j: int, m: int, c: Set<usize>)
    requires
        0 <= j < m <= ls.len(),
        ls.len() <= usize::MAX,
    ensures
        collapse_fold(ls, m, c).0.contains(j as usize) == collapse_fold(ls, j + 1, c).0.contains(
            j as usize,
        ),
    decreases m - j,
{
    if m > j + 1 {
        lemma_fold_no_new(ls, j, m - 1, c);
        let prev = collapse_fold(ls, m - 1, c).0;
        let next = collapse_fold(ls, m, c).0;
        assert((m - 1) as usize != j as usize);
        if next.len() > prev.len() {
            assert(next == prev.push((m - 1) as usize));
            if next.contains(j as usize) {
                let t = choose|t: int| 0 <= t < next.len() && next[t] == j as usize;
                if t < prev.len() {
                    assert(prev[t] == j as usize);
                }
            }
            if prev.contains(j as usize) {
                let t = choose|t: int| 0 <= t < prev.len() && prev[t] == j as usize;
                assert(next[t] == j as usize);
            }
        }
    }
}

/// Once a collapsed node is opened, its id stays on the stack until a row
/// closes it.
proof fn lemma_hide_persists(ls: Seq<LineView>, c: Set<usize>, i: int, k: int, id: usize)
    requires
        0 <= i < k <= ls.len(),
        ls[i].kind matches KindView::Open { id: oid, .. } && oid == id,
        c.contains(id),
        forall|t: int| i < t < k ==> !closes(#[trigger] ls[t], id),
    ensures
        collapse_fold(ls, k, c).1.contains(id),
    decreases k - i,
{
    if k == i + 1 {
        let h = collapse_fold(ls, i, c).1;
        assert(h.push(id)[h.len() as int] == id);
    } else {
        lemma_hide_persists(ls, c, i, k - 1, id);
        let h = collapse_fold(ls, k - 1, c).1;
        let l = ls[k - 1];
        assert(!closes(l, id));
        match l.kind {
            KindView::Open { id: oid, .. } => {
                if c.contains(oid) {
                    let p = choose|p: int| 0 <= p < h.len() && h[p] == id;
                    assert(h.push(oid)[p] == id);
                }
            },
            KindView::Close { id: cid, .. } => {
                if h.contains(cid) {
                    h.index_of_first_ensures(cid);
                    let q = h.index_of_first(cid)->0;
                    let p = choose|p: int| 0 <= p < h.len() && h[p] == id;
                    assert(p != q);
                    if p < q {
                        assert(h.remove(q)[p] == id);
                    } else {
                        assert(h.remove(q)[p - 1] == id);
                    }
                }
            },
            _ => {},
        }
    }
}

/// Collapsing a node hides its subtree: with no search text, a row under
/// a collapsed node, before any row that closes it, is not shown.
pub proof fn law_collapsed_node_hides_its_rows(
    ls: Seq<LineView>,
    collapsed: Set<usize>,
    i: int,
    j: int,
    id: usize,
)
    requires
        0 <= i < j < ls.len(),
        ls.len() <= usize::MAX,
        ls[i].kind matches KindView::Open { id: oid, .. } && oid == id,
        collapsed.contains(id),
        ls[j].ancestors.contains(id),
        forall|t: int| i < t < j ==> !closes(#[trigger] ls[t], id),
    ensures
        !spec_compute_visible(ls, collapsed, Seq::empty()).contains(j as usize),
{
    lemma_hide_persists(ls, collapsed, i, j, id);
    let st = collapse_fold(ls, j, collapsed);
    let p = choose|p: int| 0 <= p < st.1.len() && st.1[p] == id;
    assert(under_hidden(st.1, ls[j].ancestors)) by {
        assert(ls[j].ancestors.contains(st.1[p]));
    }
    lemma_fold_indices_below(ls, j, collapsed);
    assert(!st.0.contains(j as usize)) by {
        if st.0.contains(j as usize) {
            let t = choose|t: int| 0 <= t < st.0.len() && st.0[t] == j as usize;
            assert(st.0[t] < j);
        }
    }
    assert(collapse_fold(ls, j + 1, collapsed).0 == st.0);
    lemma_fold_no_new(ls, j, ls.len() as int, collapsed);
}

/// Toggling a node twice gives back the set of collapsed nodes.
pub proof fn law_toggle_twice(s: Set<usize>, id: usize)
    ensures
        toggled(toggled(s, id), id) == s,
{
    if s.contains(id) {
        assert(s.remove(id).insert(id) =~= s);
    } else {
        assert(s.insert(id).remove(id) =~= s);
    }
}

} // verus!

verus! {

/// The member of `v` at position `i`.
fn child_ref(v: &JsonValue, i: usize) -> (c: &JsonValue)
    requires
        i < child_count(*v),
    ensures
        *c == child_at(*v, i as int),
{
    match v {
        JsonValue::Array(a) => &a[i],
        JsonValue::Object(o) => &o[i].1,
        _ => v,
    }
}

/// The number of members of `v`.
fn count_of(v: &JsonValue) -> (n: usize)
    ensures
        n == child_count(*v),
{
    match v {
        JsonValue::Array(a) => a.len(),
        JsonValue::Object(o) => o.len(),
        _ => 0,
    }
}

/// The number of values in `v`, `v` itself included, where it fits in a
/// `usize`.
pub fn value_size(v: &JsonValue) -> (r: Option<usize>)
    ensures
        match r {
            Some(n) => n == size(*v),
            None => size(*v) > usize::MAX,
        },
    decreases *v,
{
    let n = count_of(v);
    let mut acc: usize = 0;
    let mut i: usize = n;
    proof {
        lemma_walk_from_ids(*v, n as int, 0, Seq::empty(), 0);
    }
    while i > 0
        invariant
            i <= n,
            n == child_count(*v),
            acc == size_from(*v, i as int),
        decreases i,
    {
        i = i - 1;
        proof {
            lemma_child_decreases(*v, i as int);
            lemma_walk_from_ids(*v, i + 1, 0, Seq::empty(), 0);
        }
        let c = child_ref(v, i);
        match value_size(c) {
            Some(k) => {
                if k > usize::MAX - acc {
                    proof {
                        lemma_walk_from_ids(*v, 0, 0, Seq::empty(), 0);
                        lemma_size_from_grows(*v, 0, i as int);
                    }
                    return None;
                }
                acc = acc + k;
            },
            None => {
                proof {
                    lemma_size_from_grows(*v, 0, i as int);
                    lemma_walk_from_ids(*v, i + 1, 0, Seq::empty(), 0);
                }
                return None;
            },
        }
    }
    if acc == usize::MAX {
        return None;
    }
    Some(acc + 1)
}

/// Counting from an earlier position counts at least as many values.
proof fn lemma_size_from_grows(v: JsonValue, i: int, j: int)
    requires
        0 <= i <= j,
    ensures
        size_from(v, i) >= size_from(v, j),
    decreases j - i,
{
    if i < j {
        lemma_size_from_grows(v, i + 1, j);
        lemma_walk_from_ids(v, i, 0, Seq::empty(), 0);
        if i < child_count(v) {
            lemma_child_decreases(v, i);
            lemma_size_positive(child_at(v, i));
        }
    }
}

/// A value counts at least itself.
proof fn lemma_size_positive(v: JsonValue)
    ensures
        size(v) >= 1,
{
    lemma_walk_from_ids(v, 0, 0, Seq::empty(), 0);
}

/// The value `serde_json` parses from `text`, in the library's form, or
/// none where the text is not JSON.
pub uninterp spec fn spec_json_value(text: Seq<char>) -> Option<JsonValue>;

/// Parses `text` with `serde_json::from_str::<serde_json::Value>` and
/// turns the value into the library's form, one variant for one: numbers
/// keep the text `serde_json` writes for them, object members keep the
/// order of its map. The value is named, not stated.
#[verifier::external_body]
fn parse_json_value(text: &str) -> (r: Option<JsonValue>)
    ensures
        match r {
            Some(v) => spec_json_value(text@) == Some(v),
            None => spec_json_value(text@) is None,
        },
{
    match serde_json::from_str::<serde_json::Value>(text) {
        Ok(v) => Some(json_value_of(&v)),
        Err(_) => None,
    }
}

#[verifier::external_type_specification]
#[verifier::external_body]
pub struct ExJsonDocumentValue(serde_json::Value);

/// A `serde_json::Value` in the library's form.
#[verifier::external_body]
fn json_value_of(v: &serde_json::Value) -> JsonValue {
    match v {
        serde_json::Value::Null => JsonValue::Null,
        serde_json::Value::Bool(b) => JsonValue::Bool(*b),
        serde_json::Value::Number(n) => JsonValue::Number(n.to_string()),
        serde_json::Value::String(s) => JsonValue::String(s.clone()),
        serde_json::Value::Array(a) => JsonValue::Array(a.iter().map(|x| json_value_of(x)).collect()),
        serde_json::Value::Object(o) => {
            JsonValue::Object(o.iter().map(|(k, x)| (k.clone(), json_value_of(x))).collect())
        },
    }
}

/// The rows of the tree for a response body: none where it is not JSON
/// or holds more values than a `usize` counts.
pub fn tree_of_text(text: &str) -> (r: Option<Vec<Line>>)
    ensures
        match r {
            Some(ls) => spec_json_value(text@) matches Some(v) && line_views(ls@) == walk_spec(
                v,
                0,
                Seq::empty(),
                None,
                true,
                0,
            ).0,
            None => spec_json_value(text@) matches Some(v) ==> size(v) > usize::MAX,
        },
{
    match parse_json_value(text) {
        Some(v) => match value_size(&v) {
            Some(_) => Some(flatten(&v)),
            None => None,
        },
        None => None,
    }
}

} // verus!
