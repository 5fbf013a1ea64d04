//! The request editor and the list of requests: query parameters split off
//! a URL, the text a body editor starts with, the search over requests,
//! and `//` comments toggled on lines of a body.
use vstd::prelude::*;
use crate::curl::{join_lines, spec_join};
use crate::model::{Body, BodyView, KV, KVView, Request, body_view, kv_view, kv_views, opt_str};
use crate::text::{
    chars_of, contains_chars, extend_chars, find_from, lemma_find_sound, slice_chars,
    spec_contains, spec_find, spec_split, spec_starts_with, spec_to_lowercase, spec_trim_start,
    split_chars, starts_with, string_from, to_lowercase, trim_start_chars,
};

verus! {

/// The query row for one `name=value` piece of a query string: split at
/// the first `=`, an empty value where there is none; kind `query`,
/// enabled.
pub open spec fn pair_row(p: Seq<char>) -> KVView {
    match spec_find(p, seq!['=']) {
        Some(e) => KVView {
            name: p.take(e),
            value: p.skip(e + 1),
            kind: Some("query"@),
            description: None,
            enabled: Some(true),
        },
        None => KVView {
            name: p,
            value: Seq::empty(),
            kind: Some("query"@),
            description: None,
            enabled: Some(true),
        },
    }
}

/// The rows for the pieces of a query string, empty pieces skipped.
pub open spec fn rows_of(pieces: Seq<Seq<char>>) -> Seq<KVView>
    decreases pieces.len(),
{
    if pieces.len() == 0 {
        Seq::empty()
    } else if pieces.last().len() == 0 {
        rows_of(pieces.drop_last())
    } else {
        rows_of(pieces.drop_last()).push(pair_row(pieces.last()))
    }
}

/// A URL split at its first `?`: what comes before, and the rows of the
/// `&`-separated pairs after it, values as they stand.
pub open spec fn spec_split_url(url: Seq<char>) -> (Seq<char>, Seq<KVView>) {
    match spec_find(url, seq!['?']) {
        None => (url, Seq::empty()),
        Some(q) => (url.take(q), rows_of(spec_split(url.skip(q + 1), '&'))),
    }
}

/// What `find_from` at position 0 gives, against the first occurrence.
pub open spec fn shift_none(f: Option<usize>, found: Option<int>) -> bool {
    match f {
        Some(i) => found == Some(i as int),
        None => found is None,
    }
}

/// The query row for one piece.
fn pair_kv(p: &[char]) -> (r: KV)
    ensures
        kv_view(r) == pair_row(p@),
{
    let eq: Vec<char> = vec!['='];
    assert(eq@ == seq!['=']);
    let f = find_from(p, 0, eq.as_slice());
    assert(p@.skip(0) == p@);
    assert(shift_none(f, spec_find(p@, eq@)));
    let (name, value) = match f {
        Some(e) => {
            let n = p.len();
            assert(e + 1 <= n);
            (slice_chars(p, 0, e), slice_chars(p, e + 1, n))
        },
        None => (slice_chars(p, 0, p.len()), Vec::new()),
    };
    assert(p@.subrange(0, p@.len() as int) == p@);
    KV {
        name: string_from(name.as_slice()),
        value: string_from(value.as_slice()),
        kind: Some(String::from_str("query")),
        description: None,
        enabled: Some(true),
    }
}

/// Splits a URL at its first `?`: the part before stays the URL, the
/// `&`-separated pairs after it become enabled query rows, in order, not
/// decoded; empty pairs are skipped.
pub fn split_url_and_params(url: &str) -> (r: (String, Vec<KV>))
    ensures
        r.0@ == spec_split_url(url@).0,
        kv_views(r.1@) == spec_split_url(url@).1,
{
    let v = chars_of(url);
    let q: Vec<char> = vec!['?'];
    assert(q@ == seq!['?']);
    assert(v@.skip(0) == v@);
    let f = find_from(v.as_slice(), 0, q.as_slice());
    assert(shift_none(f, spec_find(v@, q@)));
    match f {
        None => {
            let out: Vec<KV> = Vec::new();
            assert(kv_views(out@) =~= Seq::<KVView>::empty());
            (string_from(v.as_slice()), out)
        },
        Some(p) => {
            let base = slice_chars(v.as_slice(), 0, p);
            let n = v.len();
            assert(p + 1 <= n);
            let query = slice_chars(v.as_slice(), p + 1, n);
            let pieces = split_chars(query.as_slice(), '&');
            let ghost pv = pieces@.map_values(|x: Vec<char>| x@);
            let mut out: Vec<KV> = Vec::new();
            let mut i: usize = 0;
            assert(pv.take(0) =~= Seq::<Seq<char>>::empty());
            while i < pieces.len()
                invariant
                    i <= pieces@.len(),
                    pv == pieces@.map_values(|x: Vec<char>| x@),
                    kv_views(out@) == rows_of(pv.take(i as int)),
                decreases pieces@.len() - i,
            {
                let ghost before = kv_views(out@);
                assert(pv.take(i + 1).drop_last() =~= pv.take(i as int));
                assert(pv.take(i + 1).last() == pieces@[i as int]@);
                if pieces[i].len() > 0 {
                    let row = pair_kv(pieces[i].as_slice());
                    out.push(row);
                    assert(kv_views(out@) =~= before.push(kv_view(row)));
                }
                i = i + 1;
            }
            assert(pv.take(pieces@.len() as int) =~= pv);
            (string_from(base.as_slice()), out)
        },
    }
}

/// The names of rows.
pub open spec fn names_of(rows: Seq<KVView>) -> Seq<Seq<char>> {
    rows.map_values(|r: KVView| r.name)
}

/// The rows of `extras` whose names are not among `taken`, in order.
pub open spec fn fresh_rows(extras: Seq<KVView>, taken: Seq<Seq<char>>) -> Seq<KVView>
    decreases extras.len(),
{
    if extras.len() == 0 {
        Seq::empty()
    } else if taken.contains(extras.last().name) {
        fresh_rows(extras.drop_last(), taken)
    } else {
        fresh_rows(extras.drop_last(), taken).push(extras.last())
    }
}

/// A copy of a row.
pub fn copy_kv(k: &KV) -> (r: KV)
    ensures
        kv_view(r) == kv_view(*k),
{
    KV {
        name: k.name.clone(),
        value: k.value.clone(),
        kind: crate::model::copy_opt(&k.kind),
        description: crate::model::copy_opt(&k.description),
        enabled: k.enabled,
    }
}

/// Whether some row of `rows` is named `name`.
fn has_name(rows: &Vec<KV>, name: &String) -> (r: bool)
    ensures
        r == names_of(kv_views(rows@)).contains(name@),
{
    let mut i: usize = 0;
    while i < rows.len()
        invariant
            i <= rows@.len(),
            forall|j: int| 0 <= j < i ==> rows@[j].name@ != name@,
        decreases rows@.len() - i,
    {
        if rows[i].name == *name {
            assert(names_of(kv_views(rows@))[i as int] == name@);
            return true;
        }
        i = i + 1;
    }
    assert forall|j: int| 0 <= j < names_of(kv_views(rows@)).len() implies names_of(
        kv_views(rows@),
    )[j] != name@ by {
        assert(names_of(kv_views(rows@))[j] == rows@[j].name@);
    }
    false
}

/// Appends to `cur` the rows of `extras` whose names `cur` did not have
/// before.
fn append_fresh(cur: &mut Vec<KV>, extras: &Vec<KV>, taken: &Vec<KV>)
    ensures
        kv_views(final(cur)@) == kv_views(old(cur)@) + fresh_rows(
            kv_views(extras@),
            names_of(kv_views(taken@)),
        ),
{
    let ghost ev = kv_views(extras@);
    let ghost start = kv_views(cur@);
    let mut i: usize = 0;
    assert(ev.take(0) =~= Seq::<KVView>::empty());
    while i < extras.len()
        invariant
            i <= extras@.len(),
            ev == kv_views(extras@),
            kv_views(cur@) == start + fresh_rows(ev.take(i as int), names_of(kv_views(taken@))),
        decreases extras@.len() - i,
    {
        let ghost before = kv_views(cur@);
        assert(ev.take(i + 1).drop_last() =~= ev.take(i as int));
        assert(ev.take(i + 1).last() == kv_view(extras@[i as int]));
        if !has_name(taken, &extras[i].name) {
            let row = copy_kv(&extras[i]);
            cur.push(row);
            assert(kv_views(cur@) =~= before.push(kv_view(row)));
        }
        i = i + 1;
    }
    assert(ev.take(extras@.len() as int) =~= ev);
}

/// The rows the params tab starts with: the rows taken from the URL whose
/// names the request's own rows do not have, then the request's rows.
pub fn merge_url_params(url_rows: &Vec<KV>, params: &Vec<KV>) -> (r: Vec<KV>)
    ensures
        kv_views(r@) == fresh_rows(kv_views(url_rows@), names_of(kv_views(params@))) + kv_views(
            params@,
        ),
{
    let mut merged: Vec<KV> = Vec::new();
    assert(kv_views(merged@) =~= Seq::<KVView>::empty());
    append_fresh(&mut merged, url_rows, params);
    let empty: Vec<KV> = Vec::new();
    let ghost mid = kv_views(merged@);
    let mut i: usize = 0;
    while i < params.len()
        invariant
            i <= params@.len(),
            kv_views(merged@) == mid + kv_views(params@).take(i as int),
        decreases params@.len() - i,
    {
        let ghost before = kv_views(merged@);
        let row = copy_kv(&params[i]);
        merged.push(row);
        assert(kv_views(merged@) =~= before.push(kv_view(row)));
        assert(kv_views(merged@) =~= mid + kv_views(params@).take(i + 1));
        i = i + 1;
    }
    assert(kv_views(params@).take(params@.len() as int) =~= kv_views(params@));
    merged
}

/// The params tab after a URL with a `?` was typed: the rows taken from
/// it whose names the tab did not have are added at the end.
pub fn add_url_params(params: &mut Vec<KV>, url_rows: &Vec<KV>)
    ensures
        kv_views(final(params)@) == kv_views(old(params)@) + fresh_rows(
            kv_views(url_rows@),
            names_of(kv_views(old(params)@)),
        ),
{
    let mut before: Vec<KV> = Vec::new();
    let mut i: usize = 0;
    while i < params.len()
        invariant
            i <= params@.len(),
            kv_views(before@) == kv_views(params@).take(i as int),
        decreases params@.len() - i,
    {
        let ghost b0 = kv_views(before@);
        let row = copy_kv(&params[i]);
        before.push(row);
        assert(kv_views(before@) =~= b0.push(kv_view(row)));
        assert(kv_views(before@) =~= kv_views(params@).take(i + 1));
        i = i + 1;
    }
    assert(kv_views(params@).take(params@.len() as int) =~= kv_views(params@));
    append_fresh(params, url_rows, &before);
}

/// The first of the candidate texts that is present and not empty, else
/// the empty text.
pub open spec fn first_filled(c: Seq<Option<Seq<char>>>) -> Seq<char>
    decreases c.len(),
{
    if c.len() == 0 {
        Seq::empty()
    } else if c[0] matches Some(t) && t.len() > 0 {
        c[0]->0
    } else {
        first_filled(c.drop_first())
    }
}

/// The text a body editor starts with: for kind `json` the first filled of
/// `json`, `data`, `text`; for `text` of `text`, `data`, `json`; otherwise
/// of `data`, `json`, `text`.
pub open spec fn spec_body_text(b: Body) -> Seq<char> {
    let kind = match b.kind {
        Some(k) => k@,
        None => Seq::empty(),
    };
    if kind == "json"@ {
        first_filled(seq![opt_str(b.json), opt_str(b.data), opt_str(b.text)])
    } else if kind == "text"@ {
        first_filled(seq![opt_str(b.text), opt_str(b.data), opt_str(b.json)])
    } else {
        first_filled(seq![opt_str(b.data), opt_str(b.json), opt_str(b.text)])
    }
}

/// The first of three candidate texts that is present and not empty.
fn pick_filled(a: &Option<String>, b: &Option<String>, c: &Option<String>) -> (r: String)
    ensures
        r@ == first_filled(seq![opt_str(*a), opt_str(*b), opt_str(*c)]),
{
    let ghost s = seq![opt_str(*a), opt_str(*b), opt_str(*c)];
    reveal_with_fuel(first_filled, 4);
    assert(s.drop_first() =~= seq![opt_str(*b), opt_str(*c)]);
    assert(s.drop_first().drop_first() =~= seq![opt_str(*c)]);
    assert(s.drop_first().drop_first().drop_first() =~= Seq::<Option<Seq<char>>>::empty());
    if let Some(t) = a {
        if !t.as_str().is_empty() {
            return t.clone();
        }
    }
    if let Some(t) = b {
        if !t.as_str().is_empty() {
            return t.clone();
        }
    }
    if let Some(t) = c {
        if !t.as_str().is_empty() {
            return t.clone();
        }
    }
    String::new()
}

/// The text a body editor starts with.
pub fn initial_body_text(b: &Body) -> (r: String)
    ensures
        r@ == spec_body_text(*b),
{
    let kind = match &b.kind {
        Some(k) => k.clone(),
        None => String::new(),
    };
    let kc = chars_of(kind.as_str());
    let j = chars_of("json");
    let t = chars_of("text");
    if crate::text::chars_eq(kc.as_slice(), j.as_slice()) {
        pick_filled(&b.json, &b.data, &b.text)
    } else if crate::text::chars_eq(kc.as_slice(), t.as_slice()) {
        pick_filled(&b.text, &b.data, &b.json)
    } else {
        pick_filled(&b.data, &b.json, &b.text)
    }
}

/// The body the editor saves for a body type and text: no kind for the
/// empty type (`none`); the text under `data` only when both the type and
/// the text are not empty; `json` and `text` left out.
pub open spec fn saved_body_view(body_type: Seq<char>, body_text: Seq<char>) -> BodyView {
    BodyView {
        kind: if body_type.len() == 0 {
            None
        } else {
            Some(body_type)
        },
        json: None,
        text: None,
        data: if body_type.len() > 0 && body_text.len() > 0 {
            Some(body_text)
        } else {
            None
        },
    }
}

/// The body the editor saves for the chosen type and the edited text.
pub fn saved_body(body_type: &str, body_text: &str) -> (b: Body)
    ensures
        body_view(b) == saved_body_view(body_type@, body_text@),
{
    let has_type = !body_type.is_empty();
    Body {
        kind: if has_type {
            Some(body_type.to_owned())
        } else {
            None
        },
        json: None,
        text: None,
        data: if has_type && !body_text.is_empty() {
            Some(body_text.to_owned())
        } else {
            None
        },
    }
}

/// A body saved with a type reopens in the editor with the text it was
/// saved with.
pub proof fn law_saved_body_reopens(body_type: Seq<char>, body_text: Seq<char>, b: Body)
    requires
        body_type.len() > 0,
        body_view(b) == saved_body_view(body_type, body_text),
    ensures
        spec_body_text(b) == body_text,
{
    reveal_with_fuel(first_filled, 4);
    let s = seq![opt_str(b.json), opt_str(b.data), opt_str(b.text)];
    assert(s.drop_first() =~= seq![opt_str(b.data), opt_str(b.text)]);
    assert(s.drop_first().drop_first() =~= seq![opt_str(b.text)]);
    assert(s.drop_first().drop_first().drop_first() =~= Seq::<Option<Seq<char>>>::empty());
    let s2 = seq![opt_str(b.text), opt_str(b.data), opt_str(b.json)];
    assert(s2.drop_first() =~= seq![opt_str(b.data), opt_str(b.json)]);
    assert(s2.drop_first().drop_first() =~= seq![opt_str(b.json)]);
    assert(s2.drop_first().drop_first().drop_first() =~= Seq::<Option<Seq<char>>>::empty());
    let s3 = seq![opt_str(b.data), opt_str(b.json), opt_str(b.text)];
    assert(s3.drop_first() =~= seq![opt_str(b.json), opt_str(b.text)]);
    assert(s3.drop_first().drop_first() =~= seq![opt_str(b.text)]);
    assert(s3.drop_first().drop_first().drop_first() =~= Seq::<Option<Seq<char>>>::empty());
}

/// How many matching requests the list shows at most.
pub const RENDER_CAP: usize = 300;

/// Whether request `r` matches the lower-cased search text `q`: its name,
/// URL, relative path or method holds it once lower-cased.
pub open spec fn request_matches(r: Request, q: Seq<char>) -> bool {
    spec_contains(spec_to_lowercase(r.info.name@), q) || spec_contains(
        spec_to_lowercase(r.http.url@),
        q,
    ) || spec_contains(spec_to_lowercase(r.rel_path@), q) || spec_contains(
        spec_to_lowercase(r.http.method@),
        q,
    )
}

/// The indices of the requests among the first `k` that the search text
/// `q` keeps: all of them for an empty text.
pub open spec fn matching_upto(rs: Seq<Request>, k: int, q: Seq<char>) -> Seq<usize>
    decreases k,
{
    if k <= 0 {
        Seq::empty()
    } else if q.len() == 0 || request_matches(rs[k - 1], q) {
        matching_upto(rs, k - 1, q).push((k - 1) as usize)
    } else {
        matching_upto(rs, k - 1, q)
    }
}

/// The indices of the requests the list shows for the search text
/// `filter`: the first `RENDER_CAP` that match it once lower-cased, every
/// request matching an empty text.
pub open spec fn spec_filter_requests(rs: Seq<Request>, filter: Seq<char>) -> Seq<usize> {
    let all = matching_upto(rs, rs.len() as int, spec_to_lowercase(filter));
    if all.len() > RENDER_CAP {
        all.take(RENDER_CAP as int)
    } else {
        all
    }
}

/// Whether `hay`, lower-cased, holds `needle`.
fn lower_contains(hay: &str, needle: &[char]) -> (r: bool)
    ensures
        r == spec_contains(spec_to_lowercase(hay@), needle@),
{
    let l = to_lowercase(hay);
    let c = chars_of(l.as_str());
    contains_chars(c.as_slice(), needle)
}

proof fn lemma_matching_len(rs: Seq<Request>, k: int, q: Seq<char>)
    requires
        0 <= k,
    ensures
        matching_upto(rs, k, q).len() <= k,
    decreases k,
{
    if k > 0 {
        lemma_matching_len(rs, k - 1, q);
    }
}

proof fn lemma_matching_prefix(rs: Seq<Request>, k: int, m: int, q: Seq<char>)
    requires
        0 <= k <= m,
    ensures
        matching_upto(rs, m, q).len() >= matching_upto(rs, k, q).len(),
        matching_upto(rs, m, q).take(matching_upto(rs, k, q).len() as int) == matching_upto(
            rs,
            k,
            q,
        ),
    decreases m - k,
{
    if k < m {
        lemma_matching_prefix(rs, k, m - 1, q);
        let a = matching_upto(rs, k, q);
        let b = matching_upto(rs, m - 1, q);
        let c = matching_upto(rs, m, q);
        if c.len() > b.len() {
            assert(c.take(a.len() as int) =~= b.take(a.len() as int));
        }
    }
}

/// The indices of the requests the list shows for the search text.
pub fn filter_requests(requests: &Vec<Request>, filter: &str) -> (r: Vec<usize>)
    ensures
        r@ == spec_filter_requests(requests@, filter@),
{
    let q = to_lowercase(filter);
    let qc = chars_of(q.as_str());
    let n = requests.len();
    let mut out: Vec<usize> = Vec::new();
    let mut i: usize = 0;
    while i < n && out.len() < RENDER_CAP
        invariant
            i <= n,
            n == requests@.len(),
            qc@ == spec_to_lowercase(filter@),
            out@ == matching_upto(requests@, i as int, qc@),
            out@.len() <= RENDER_CAP,
        decreases n - i,
    {
        let r = &requests[i];
        let keep = qc.len() == 0 || lower_contains(r.info.name.as_str(), qc.as_slice())
            || lower_contains(r.http.url.as_str(), qc.as_slice()) || lower_contains(
            r.rel_path.as_str(),
            qc.as_slice(),
        ) || lower_contains(r.http.method.as_str(), qc.as_slice());
        if keep {
            out.push(i);
        }
        i = i + 1;
    }
    proof {
        let all = matching_upto(requests@, n as int, qc@);
        lemma_matching_prefix(requests@, i as int, n as int, qc@);
        lemma_matching_len(requests@, i as int, qc@);
        if out@.len() < RENDER_CAP {
            assert(i == n);
        } else {
            assert(out@.len() == RENDER_CAP);
            assert(all.take(RENDER_CAP as int) == out@);
            if all.len() <= RENDER_CAP {
                assert(all.take(all.len() as int) =~= all);
            }
        }
    }
    out
}

} // verus!

verus! {

/// Where the line holding position `p` of `t` begins.
pub open spec fn line_begin(t: Seq<char>, p: int) -> int
    decreases p,
{
    if p > 0 && t[p - 1] != '\n' {
        line_begin(t, p - 1)
    } else {
        p
    }
}

/// `line_begin` does not go forward.
proof fn lemma_line_begin_bounds(t: Seq<char>, p: int)
    requires
        0 <= p <= t.len(),
    ensures
        0 <= line_begin(t, p) <= p,
    decreases p,
{
    if p > 0 && t[p - 1] != '\n' {
        lemma_line_begin_bounds(t, p - 1);
    }
}

/// A piece of the block as `str::lines` sees it: a piece that a newline
/// follows loses one trailing carriage return.
pub open spec fn piece_core(l: Seq<char>, is_last: bool) -> Seq<char> {
    if !is_last && l.len() > 0 && l.last() == '\r' {
        l.drop_last()
    } else {
        l
    }
}

/// Whether a piece counts as commented: empty, or `//` after its leading
/// whitespace.
pub open spec fn piece_commented(l: Seq<char>, is_last: bool) -> bool {
    piece_core(l, is_last).len() == 0 || spec_starts_with(
        spec_trim_start(piece_core(l, is_last)),
        "//"@,
    )
}

/// Whether every line of a non-empty block counts as commented.
pub open spec fn all_commented(block: Seq<char>) -> bool {
    let ps = spec_split(block, '\n');
    block.len() > 0 && forall|k: int|
        0 <= k < ps.len() ==> piece_commented(#[trigger] ps[k], k == ps.len() - 1)
}

/// A line without its first `//` and one space after it, if any.
pub open spec fn uncomment_line(l: Seq<char>) -> Seq<char> {
    match spec_find(l, "//"@) {
        Some(i) => {
            let rest = l.skip(i + 2);
            l.take(i) + if rest.len() > 0 && rest[0] == ' ' {
                rest.drop_first()
            } else {
                rest
            }
        },
        None => l,
    }
}

/// A non-empty line with `// ` before it; an empty line as it is.
pub open spec fn comment_line(l: Seq<char>) -> Seq<char> {
    if l.len() > 0 {
        "// "@ + l
    } else {
        l
    }
}

/// A line, uncommented or commented.
pub open spec fn toggle_line(l: Seq<char>, uncomment: bool) -> Seq<char> {
    if uncomment {
        uncomment_line(l)
    } else {
        comment_line(l)
    }
}

/// The lines of a block, each toggled the same way.
pub open spec fn toggled_lines(ps: Seq<Seq<char>>, uncomment: bool) -> Seq<Seq<char>> {
    ps.map_values(|l: Seq<char>| toggle_line(l, uncomment))
}

/// How much the lines grow in all when toggled.
pub open spec fn sum_deltas(ps: Seq<Seq<char>>, uncomment: bool) -> int
    decreases ps.len(),
{
    if ps.len() == 0 {
        0
    } else {
        sum_deltas(ps.drop_last(), uncomment) + toggle_line(ps.last(), uncomment).len()
            - ps.last().len()
    }
}

/// The first line of the range, the end of the last one, and the block
/// between them.
pub open spec fn toggle_block(t: Seq<char>, start: int, end: int) -> (int, int) {
    let s0 = if start < t.len() {
        start
    } else {
        t.len() as int
    };
    let e0 = if end < t.len() {
        end
    } else {
        t.len() as int
    };
    (line_begin(t, s0), crate::http::line_end(t, e0))
}

/// How many bytes UTF-8 takes for `c`.
pub open spec fn utf8_len(c: char) -> int {
    let u = c as int;
    if u < 0x80 {
        1
    } else if u < 0x800 {
        2
    } else if u < 0x10000 {
        3
    } else {
        4
    }
}

/// How many characters of `t` begin before byte offset `b` of its UTF-8
/// form: the character position that byte offset falls in, rounded up.
pub open spec fn chars_before(t: Seq<char>, b: int) -> int
    decreases t.len(),
{
    if t.len() == 0 || b <= 0 {
        0
    } else {
        1 + chars_before(t.drop_first(), b - utf8_len(t[0]))
    }
}

/// What toggling comments on the lines of the byte range `[start, end]`
/// of the UTF-8 text gives: the text with those lines commented (all of
/// them), or uncommented when each is commented already; and the range
/// moved by how many bytes its first line, and all its lines, grew (the
/// marks added or taken are ASCII, one byte each). A position that would
/// fall before 0 becomes 0.
pub open spec fn spec_toggle_comment(t: Seq<char>, start: int, end: int) -> (Seq<char>, int, int) {
    let (ls, le) = toggle_block(t, chars_before(t, start), chars_before(t, end));
    let block = t.subrange(ls, le);
    let ps = spec_split(block, '\n');
    let un = all_commented(block);
    let ds = toggle_line(ps[0], un).len() - ps[0].len();
    let de = sum_deltas(ps, un);
    (
        t.take(ls) + spec_join(toggled_lines(ps, un), "\n"@) + t.skip(le),
        if start + ds < 0 {
            0
        } else {
            start + ds
        },
        if end + de < 0 {
            0
        } else {
            end + de
        },
    )
}

/// A text has at most one more piece than characters.
proof fn lemma_split_count(s: Seq<char>, c: char)
    ensures
        1 <= spec_split(s, c).len() <= s.len() + 1,
    decreases s.len(),
{
    lemma_find_sound(s, seq![c]);
    if let Some(i) = spec_find(s, seq![c]) {
        lemma_split_count(s.skip(i + 1), c);
    }
}

/// A line toggled changes length by at most 3.
proof fn lemma_toggle_delta(l: Seq<char>, uncomment: bool)
    ensures
        -3 <= toggle_line(l, uncomment).len() - l.len() <= 3,
{
    reveal_strlit("//");
    reveal_strlit("// ");
    if uncomment {
        lemma_find_sound(l, "//"@);
    }
}

/// The line without its first `//`.
fn uncomment_chars(l: &[char]) -> (r: Vec<char>)
    ensures
        r@ == uncomment_line(l@),
{
    let pat: Vec<char> = vec!['/', '/'];
    proof {
        reveal_strlit("//");
    }
    assert(pat@ == "//"@);
    let f = find_from(l, 0, pat.as_slice());
    assert(l@.skip(0) == l@);
    match f {
        Some(i) => {
            let n = l.len();
            assert(i + 2 <= n);
            let mut out = slice_chars(l, 0, i);
            let rest = slice_chars(l, i + 2, n);
            if rest.len() > 0 && rest[0] == ' ' {
                let r2 = slice_chars(rest.as_slice(), 1, rest.len());
                assert(r2@ == rest@.drop_first());
                extend_chars(&mut out, r2.as_slice());
            } else {
                extend_chars(&mut out, rest.as_slice());
            }
            out
        },
        None => slice_chars(l, 0, l.len()),
    }
}

/// The line with `// ` before it, unless it is empty.
fn comment_chars(l: &[char]) -> (r: Vec<char>)
    ensures
        r@ == comment_line(l@),
{
    if l.len() > 0 {
        let mut out = chars_of("// ");
        extend_chars(&mut out, l);
        out
    } else {
        slice_chars(l, 0, 0)
    }
}

/// Whether a piece counts as commented.
fn is_commented(l: &[char], is_last: bool) -> (r: bool)
    ensures
        r == piece_commented(l@, is_last),
{
    let n = l.len();
    let core = if !is_last && n > 0 && l[n - 1] == '\r' {
        slice_chars(l, 0, n - 1)
    } else {
        slice_chars(l, 0, n)
    };
    assert(core@ == piece_core(l@, is_last));
    if core.len() == 0 {
        return true;
    }
    let t = trim_start_chars(core.as_slice());
    let pat: Vec<char> = vec!['/', '/'];
    proof {
        reveal_strlit("//");
    }
    assert(pat@ == "//"@);
    starts_with(t.as_slice(), pat.as_slice())
}

/// The characters of each line.
pub open spec fn char_rows(v: Seq<Vec<char>>) -> Seq<Seq<char>> {
    v.map_values(|p: Vec<char>| p@)
}

/// Where the lines that `[start, end]` touches begin and end.
/// How many bytes UTF-8 takes for `c`.
fn utf8_len_of(c: char) -> (n: usize)
    ensures
        n as int == utf8_len(c),
{
    let u = c as u32;
    if u < 0x80 {
        1
    } else if u < 0x800 {
        2
    } else if u < 0x10000 {
        3
    } else {
        4
    }
}

/// `chars_before` from position `k` of `t`, as the characters left.
proof fn lemma_chars_before_skip(t: Seq<char>, k: int, b: int)
    requires
        0 <= k < t.len(),
        b > 0,
    ensures
        chars_before(t.skip(k), b) == 1 + chars_before(t.skip(k + 1), b - utf8_len(t[k])),
{
    assert(t.skip(k).drop_first() =~= t.skip(k + 1));
    assert(t.skip(k)[0] == t[k]);
}

/// The character position byte offset `b` of the UTF-8 text falls in.
fn char_pos(t: &[char], b: usize) -> (r: usize)
    ensures
        r as int == chars_before(t@, b as int),
        r <= t@.len(),
{
    let n = t.len();
    let mut k: usize = 0;
    let mut left: usize = b;
    assert(t@.skip(0) =~= t@);
    while k < n && left > 0
        invariant
            k <= n,
            n == t@.len(),
            chars_before(t@, b as int) == k + chars_before(t@.skip(k as int), left as int),
        decreases n - k,
    {
        proof {
            lemma_chars_before_skip(t@, k as int, left as int);
        }
        let l = utf8_len_of(t[k]);
        if l >= left {
            k = k + 1;
            proof {
                assert(chars_before(t@.skip(k as int), left - l) == 0);
            }
            return k;
        }
        left = left - l;
        k = k + 1;
    }
    proof {
        if k == n {
            assert(t@.skip(k as int).len() == 0);
        }
    }
    k
}

fn block_bounds(t: &[char], start: usize, end: usize) -> (r: (usize, usize))
    ensures
        r.0 as int == toggle_block(t@, start as int, end as int).0,
        r.1 as int == toggle_block(t@, start as int, end as int).1,
        r.0 <= t@.len(),
        r.1 <= t@.len(),
{
    let n = t.len();
    let s0 = if start < n {
        start
    } else {
        n
    };
    let mut ls = s0;
    while ls > 0 && t[ls - 1] != '\n'
        invariant
            ls <= s0 <= n,
            n == t@.len(),
            line_begin(t@, ls as int) == line_begin(t@, s0 as int),
        decreases ls,
    {
        ls = ls - 1;
    }
    let e0 = if end < n {
        end
    } else {
        n
    };
    let mut le = e0;
    while le < n && t[le] != '\n'
        invariant
            e0 <= le <= n,
            n == t@.len(),
            crate::http::line_end(t@, le as int) == crate::http::line_end(t@, e0 as int),
        decreases n - le,
    {
        le = le + 1;
    }
    (ls, le)
}

/// Whether every piece counts as commented, the last one as last.
fn pieces_commented(pieces: &Vec<Vec<char>>) -> (r: bool)
    ensures
        r == forall|j: int|
            0 <= j < pieces@.len() ==> piece_commented(
                #[trigger] char_rows(pieces@)[j],
                j == pieces@.len() - 1,
            ),
{
    let ghost pv = char_rows(pieces@);
    let np = pieces.len();
    let mut k: usize = 0;
    while k < np
        invariant
            k <= np,
            np == pieces@.len(),
            pv == char_rows(pieces@),
            forall|j: int| 0 <= j < k ==> piece_commented(#[trigger] pv[j], j == np - 1),
        decreases np - k,
    {
        assert(pv[k as int] == pieces@[k as int]@);
        if !is_commented(pieces[k].as_slice(), k + 1 == np) {
            return false;
        }
        k = k + 1;
    }
    true
}

/// Toggles `// ` comments on the lines that the byte range `[start, end]`
/// of `text` touches: when every line there is empty or commented, each
/// loses its first `//` and one space after it; otherwise each non-empty
/// line gains `// `. Gives the new text and the byte range moved to match.
pub fn toggle_line_comment(text: &str, start: usize, end: usize) -> (r: (String, usize, usize))
    requires
        toggle_block(text@, chars_before(text@, start as int), chars_before(text@, end as int)).0
            <= toggle_block(text@, chars_before(text@, start as int), chars_before(text@, end as int)).1,
        start as int + 3 <= isize::MAX,
        end as int + 3 * text@.len() + 3 <= isize::MAX,
    ensures
        r.0@ == spec_toggle_comment(text@, start as int, end as int).0,
        r.1 as int == spec_toggle_comment(text@, start as int, end as int).1,
        r.2 as int == spec_toggle_comment(text@, start as int, end as int).2,
{
    let t = chars_of(text);
    let n = t.len();
    let sc = char_pos(t.as_slice(), start);
    let ec = char_pos(t.as_slice(), end);
    let (ls, le) = block_bounds(t.as_slice(), sc, ec);
    let block = slice_chars(t.as_slice(), ls, le);
    let pieces = split_chars(block.as_slice(), '\n');
    let ghost pv = pieces@.map_values(|p: Vec<char>| p@);
    proof {
        lemma_split_count(block@, '\n');
    }
    let np = pieces.len();
    let all = block.len() > 0 && pieces_commented(&pieces);
    assert(char_rows(pieces@) == spec_split(block@, '\n'));
    proof {
        let ps = spec_split(block@, '\n');
        if block@.len() > 0 {
            if all {
                assert forall|j: int| 0 <= j < ps.len() implies piece_commented(
                    #[trigger] ps[j],
                    j == ps.len() - 1,
                ) by {
                    assert(char_rows(pieces@)[j] == ps[j]);
                }
            } else {
                let j = choose|j: int|
                    0 <= j < pieces@.len() && !piece_commented(
                        #[trigger] char_rows(pieces@)[j],
                        j == pieces@.len() - 1,
                    );
                assert(ps[j] == char_rows(pieces@)[j]);
            }
        }
    }
    assert(all == all_commented(block@));
    let mut new_pieces: Vec<Vec<char>> = Vec::new();
    let mut delta_start: isize = 0;
    let mut delta_end: isize = 0;
    let mut i: usize = 0;
    assert(pv.take(0) =~= Seq::<Seq<char>>::empty());
    while i < np
        invariant
            i <= np,
            np == pieces@.len(),
            np >= 1,
            np <= block@.len() + 1,
            block@.len() <= n,
            n == t@.len(),
            end as int + 3 * n + 3 <= isize::MAX,
            pv == pieces@.map_values(|p: Vec<char>| p@),
            new_pieces@.map_values(|p: Vec<char>| p@) == toggled_lines(pv.take(i as int), all),
            delta_end as int == sum_deltas(pv.take(i as int), all),
            -3 * i <= delta_end <= 3 * i,
            i > 0 ==> delta_start as int == toggle_line(pv[0], all).len() - pv[0].len(),
            -3 <= delta_start <= 3,
        decreases np - i,
    {
        let p = &pieces[i];
        let ghost before = new_pieces@.map_values(|x: Vec<char>| x@);
        let ghost raw_before = new_pieces@;
        let np_i = if all {
            uncomment_chars(p.as_slice())
        } else {
            comment_chars(p.as_slice())
        };
        assert(np_i@ == toggle_line(pv[i as int], all));
        proof {
            lemma_toggle_delta(pv[i as int], all);
        }
        let d: isize = if np_i.len() >= p.len() {
            (np_i.len() - p.len()) as isize
        } else {
            -((p.len() - np_i.len()) as isize)
        };
        assert(d as int == toggle_line(pv[i as int], all).len() - pv[i as int].len());
        if i == 0 {
            delta_start = d;
        }
        delta_end = delta_end + d;
        let ghost npv = np_i@;
        new_pieces.push(np_i);
        assert(new_pieces@ == raw_before.push(np_i));
        assert(new_pieces@.map_values(|x: Vec<char>| x@) =~= before.push(npv));
        assert(pv.take(i + 1).drop_last() =~= pv.take(i as int));
        assert(pv.take(i + 1).last() == pv[i as int]);
        assert(new_pieces@.map_values(|x: Vec<char>| x@) =~= toggled_lines(pv.take(i + 1), all));
        i = i + 1;
    }
    assert(pv.take(np as int) =~= pv);
    let nl: Vec<char> = vec!['\n'];
    proof {
        reveal_strlit("\n");
    }
    assert(nl@ == "\n"@);
    let nb = join_lines(&new_pieces, nl.as_slice());
    let mut out = slice_chars(t.as_slice(), 0, ls);
    extend_chars(&mut out, nb.as_slice());
    let tail = slice_chars(t.as_slice(), le, n);
    extend_chars(&mut out, tail.as_slice());
    assert(t@.subrange(0, ls as int) == t@.take(ls as int));
    assert(t@.subrange(le as int, n as int) == t@.skip(le as int));
    let ns = start as isize + delta_start;
    let ne = end as isize + delta_end;
    let new_start: usize = if ns < 0 {
        0
    } else {
        ns as usize
    };
    let new_end: usize = if ne < 0 {
        0
    } else {
        ne as usize
    };
    (string_from(out.as_slice()), new_start, new_end)
}

} // verus!

verus! {

/// Commenting a line and uncommenting it gives the line back, and a
/// commented line counts as commented.
pub proof fn law_comment_then_uncomment(l: Seq<char>, is_last: bool)
    ensures
        uncomment_line(comment_line(l)) == l,
        l.len() > 0 ==> piece_commented(comment_line(l), is_last),
{
    reveal_strlit("//");
    reveal_strlit("// ");
    let c = comment_line(l);
    if l.len() > 0 {
        assert(c.take(2) =~= "//"@);
        assert(c.skip(2) =~= seq![' '] + l);
        assert((seq![' '] + l).drop_first() =~= l);
        assert(c.take(0) =~= Seq::<char>::empty());
        let core = piece_core(c, is_last);
        assert(core.len() >= 2 && core[0] == '/' && core[1] == '/');
        assert(spec_trim_start(core) == core);
        assert(core.take(2) =~= "//"@);
    }
}

/// A commented line on its own is taken out whole when comments are
/// stripped before a body is sent.
pub proof fn law_commented_line_is_stripped(l: Seq<char>)
    requires
        forall|k: int| 0 <= k < l.len() ==> l[k] != '\n',
    ensures
        crate::http::spec_strip_json_comments(comment_line(l)) == Seq::<char>::empty(),
{
    reveal_strlit("// ");
    let c = comment_line(l);
    if l.len() > 0 {
        assert(c[0] == '/' && c[1] == '/');
        assert forall|j: int| 2 <= j < c.len() implies c[j] != '\n' by {
            assert(c[j] == l[j - 3] || j == 2);
        }
        lemma_no_newline_line_end(c, 2);
        assert(crate::http::spec_strip_from(c, c.len() as int, false, false) == Seq::<char>::empty());
        assert(crate::http::spec_strip_from(c, 0, false, false) == crate::http::spec_strip_from(
            c,
            c.len() as int,
            false,
            false,
        ));
    }
}

proof fn lemma_no_newline_line_end(s: Seq<char>, j: int)
    requires
        0 <= j <= s.len(),
        forall|k: int| j <= k < s.len() ==> s[k] != '\n',
    ensures
        crate::http::line_end(s, j) == s.len(),
    decreases s.len() - j,
{
    if j < s.len() {
        lemma_no_newline_line_end(s, j + 1);
    }
}

} // verus!

verus! {

proof fn lemma_matching_contains(rs: Seq<Request>, k: int, q: Seq<char>, i: int)
    requires
        0 <= i < k <= rs.len(),
        rs.len() <= usize::MAX,
    ensures
        matching_upto(rs, k, q).contains(i as usize) <==> (q.len() == 0 || request_matches(
            rs[i],
            q,
        )),
    decreases k,
{
    let cur = matching_upto(rs, k, q);
    let prev = matching_upto(rs, k - 1, q);
    lemma_matching_below(rs, k - 1, q);
    if i < k - 1 {
        lemma_matching_contains(rs, k - 1, q, i);
        if cur.len() > prev.len() {
            assert(cur == prev.push((k - 1) as usize));
            if cur.contains(i as usize) {
                let t = choose|t: int| 0 <= t < cur.len() && cur[t] == i as usize;
                if t < prev.len() {
                    assert(prev[t] == i as usize);
                }
            }
            if prev.contains(i as usize) {
                let t = choose|t: int| 0 <= t < prev.len() && prev[t] == i as usize;
                assert(cur[t] == i as usize);
            }
        }
    } else {
        if q.len() == 0 || request_matches(rs[i], q) {
            assert(cur[cur.len() - 1] == i as usize);
        } else if cur.contains(i as usize) {
            let t = choose|t: int| 0 <= t < cur.len() && cur[t] == i as usize;
            assert(prev[t] < k - 1);
        }
    }
}

proof fn lemma_matching_below(rs: Seq<Request>, k: int, q: Seq<char>)
    requires
        0 <= k <= rs.len(),
        rs.len() <= usize::MAX,
    ensures
        forall|t: int|
            0 <= t < matching_upto(rs, k, q).len() ==> (#[trigger] matching_upto(rs, k, q)[t]) < k,
    decreases k,
{
    if k > 0 {
        lemma_matching_below(rs, k - 1, q);
        let prev = matching_upto(rs, k - 1, q);
        let cur = matching_upto(rs, k, q);
        assert forall|t: int| 0 <= t < cur.len() implies #[trigger] cur[t] < k by {
            if t < prev.len() {
                assert(cur[t] == prev[t]);
            }
        }
    }
}

/// The list never shows more than `RENDER_CAP` requests, and while the
/// matches fit under it, every request that matches the search text is
/// shown.
pub proof fn law_search_shows_matches_under_cap(rs: Seq<Request>, filter: Seq<char>, i: int)
    requires
        0 <= i < rs.len(),
        rs.len() <= usize::MAX,
        spec_to_lowercase(filter).len() == 0 || request_matches(rs[i], spec_to_lowercase(filter)),
        matching_upto(rs, rs.len() as int, spec_to_lowercase(filter)).len() <= RENDER_CAP,
    ensures
        spec_filter_requests(rs, filter).len() <= RENDER_CAP,
        spec_filter_requests(rs, filter).contains(i as usize),
{
    lemma_matching_contains(rs, rs.len() as int, spec_to_lowercase(filter), i);
}

} // verus!

verus! {

proof fn lemma_fresh_rows_parts(extras: Seq<KVView>, taken: Seq<Seq<char>>)
    ensures
        forall|i: int|
            0 <= i < fresh_rows(extras, taken).len() ==> !taken.contains(
                (#[trigger] fresh_rows(extras, taken)[i]).name,
            ),
        forall|i: int|
            0 <= i < extras.len() ==> taken.contains((#[trigger] extras[i]).name) || names_of(
                fresh_rows(extras, taken),
            ).contains(extras[i].name),
    decreases extras.len(),
{
    if extras.len() > 0 {
        let d = extras.drop_last();
        lemma_fresh_rows_parts(d, taken);
        let prev = fresh_rows(d, taken);
        let cur = fresh_rows(extras, taken);
        if !taken.contains(extras.last().name) {
            assert(cur == prev.push(extras.last()));
            assert(names_of(cur) =~= names_of(prev).push(extras.last().name));
            assert forall|i: int| 0 <= i < extras.len() implies taken.contains(
                (#[trigger] extras[i]).name,
            ) || names_of(cur).contains(extras[i].name) by {
                if i < d.len() {
                    assert(d[i] == extras[i]);
                    if names_of(prev).contains(d[i].name) {
                        let k = choose|k: int| 0 <= k < names_of(prev).len() && names_of(prev)[k] == d[i].name;
                        assert(names_of(cur)[k] == names_of(prev)[k]);
                    }
                } else {
                    assert(names_of(cur)[prev.len() as int] == extras[i].name);
                }
            }
        } else {
            assert forall|i: int| 0 <= i < extras.len() implies taken.contains(
                (#[trigger] extras[i]).name,
            ) || names_of(cur).contains(extras[i].name) by {
                if i < d.len() {
                    assert(d[i] == extras[i]);
                }
            }
        }
    }
}

proof fn lemma_fresh_rows_none(extras: Seq<KVView>, taken: Seq<Seq<char>>)
    requires
        forall|i: int| 0 <= i < extras.len() ==> taken.contains((#[trigger] extras[i]).name),
    ensures
        fresh_rows(extras, taken) == Seq::<KVView>::empty(),
    decreases extras.len(),
{
    if extras.len() > 0 {
        let d = extras.drop_last();
        assert forall|i: int| 0 <= i < d.len() implies taken.contains((#[trigger] d[i]).name) by {
            assert(d[i] == extras[i]);
        }
        lemma_fresh_rows_none(d, taken);
        assert(taken.contains(extras[extras.len() - 1].name));
    }
}

/// The rows a URL's query adds to the params tab never repeat a name the
/// tab has, and adding the same rows again adds nothing: typing the same
/// query twice gives the tab of typing it once.
pub proof fn law_url_params_added_once(params: Seq<KVView>, rows: Seq<KVView>)
    ensures
        forall|i: int|
            0 <= i < fresh_rows(rows, names_of(params)).len() ==> !names_of(params).contains(
                (#[trigger] fresh_rows(rows, names_of(params))[i]).name,
            ),
        fresh_rows(rows, names_of(params + fresh_rows(rows, names_of(params)))) == Seq::<
            KVView,
        >::empty(),
{
    let taken = names_of(params);
    let f = fresh_rows(rows, taken);
    lemma_fresh_rows_parts(rows, taken);
    let all = names_of(params + f);
    assert(all =~= taken + names_of(f));
    assert forall|i: int| 0 <= i < rows.len() implies all.contains((#[trigger] rows[i]).name) by {
        if taken.contains(rows[i].name) {
            let k = choose|k: int| 0 <= k < taken.len() && taken[k] == rows[i].name;
            assert(all[k] == taken[k]);
        } else {
            let k = choose|k: int| 0 <= k < names_of(f).len() && names_of(f)[k] == rows[i].name;
            assert(all[taken.len() + k] == names_of(f)[k]);
        }
    }
    lemma_fresh_rows_none(rows, all);
}

} // verus!

verus! {

/// The rows for pieces are the non-empty pieces, in order, each made a row.
proof fn lemma_rows_are_nonempty_pieces(pieces: Seq<Seq<char>>)
    ensures
        rows_of(pieces) == pieces.filter(|p: Seq<char>| p.len() > 0).map_values(
            |p: Seq<char>| pair_row(p),
        ),
    decreases pieces.len(),
{
    let pred = |p: Seq<char>| p.len() > 0;
    let f = |p: Seq<char>| pair_row(p);
    if pieces.len() == 0 {
        reveal_with_fuel(Seq::filter, 1);
        assert(pieces.filter(pred) =~= Seq::<Seq<char>>::empty());
    } else {
        lemma_rows_are_nonempty_pieces(pieces.drop_last());
        let sub = pieces.drop_last().filter(pred);
        reveal_with_fuel(Seq::filter, 1);
        assert(pieces.filter(pred) == if pred(pieces.last()) {
            sub.push(pieces.last())
        } else {
            sub
        });
        if pieces.last().len() > 0 {
            assert(sub.push(pieces.last()).map_values(f) =~= sub.map_values(f).push(
                pair_row(pieces.last()),
            ));
        }
    }
}

/// Splitting a URL's query into rows: the URL keeps what comes before the
/// first `?`, and every non-empty `&`-separated piece after it gives
/// exactly one enabled `query` row, in order, named by its text before the
/// first `=` (the whole piece when it has none) and valued by the text
/// after that `=` (empty when there is none). Without a `?` there are no
/// rows.
pub proof fn law_query_rows(url: Seq<char>)
    ensures
        spec_find(url, seq!['?']) is None ==> spec_split_url(url) == (url, Seq::<KVView>::empty()),
        spec_find(url, seq!['?']) is Some ==> ({
            let q = spec_find(url, seq!['?'])->0;
            let ps = spec_split(url.skip(q + 1), '&').filter(|p: Seq<char>| p.len() > 0);
            let rows = spec_split_url(url).1;
            &&& spec_split_url(url).0 == url.take(q)
            &&& rows.len() == ps.len()
            &&& forall|k: int|
                0 <= k < rows.len() ==> {
                    &&& (#[trigger] rows[k]).name == if spec_find(ps[k], seq!['=']) is Some {
                        ps[k].take(spec_find(ps[k], seq!['='])->0)
                    } else {
                        ps[k]
                    }
                    &&& rows[k].value == if spec_find(ps[k], seq!['=']) is Some {
                        ps[k].skip(spec_find(ps[k], seq!['='])->0 + 1)
                    } else {
                        Seq::<char>::empty()
                    }
                    &&& rows[k].kind == Some("query"@)
                    &&& rows[k].enabled == Some(true)
                    &&& rows[k].description is None
                }
        }),
{
    if spec_find(url, seq!['?']) is Some {
        let q = spec_find(url, seq!['?'])->0;
        lemma_rows_are_nonempty_pieces(spec_split(url.skip(q + 1), '&'));
    }
}

} // verus!

verus! {

/// Byte offsets over ASCII text count characters.
proof fn lemma_chars_before_ascii(a: Seq<char>, rest: Seq<char>)
    requires
        forall|k: int| 0 <= k < a.len() ==> (#[trigger] a[k] as int) < 128,
    ensures
        chars_before(a + rest, a.len() as int) == a.len(),
    decreases a.len(),
{
    if a.len() > 0 {
        assert((a + rest)[0] == a[0]);
        assert((a[0] as int) < 128);
        assert((a + rest).drop_first() =~= a.drop_first() + rest);
        assert forall|k: int| 0 <= k < a.drop_first().len() implies (#[trigger] a.drop_first()[k] as int)
            < 128 by {
            assert(a.drop_first()[k] == a[k + 1]);
        }
        lemma_chars_before_ascii(a.drop_first(), rest);
    }
}

/// The end of a line with no newline from `j` to `e`, where a newline or
/// the end of the text stands at `e`.
proof fn lemma_line_end_at(t: Seq<char>, j: int, e: int)
    requires
        0 <= j <= e <= t.len(),
        forall|k: int| j <= k < e ==> t[k] != '\n',
        e == t.len() || t[e] == '\n',
    ensures
        crate::http::line_end(t, j) == e,
    decreases e - j,
{
    if j < e {
        lemma_line_end_at(t, j + 1, e);
    }
}

/// Leading whitespace is dropped up to the first other character.
proof fn lemma_trim_start_ws(w: Seq<char>, r: Seq<char>)
    requires
        forall|k: int| 0 <= k < w.len() ==> crate::text::spec_is_whitespace(#[trigger] w[k]),
        r.len() > 0,
        !crate::text::spec_is_whitespace(r[0]),
    ensures
        spec_trim_start(w + r) == r,
    decreases w.len(),
{
    if w.len() == 0 {
        assert(w + r =~= r);
    } else {
        assert((w + r).drop_first() =~= w.drop_first() + r);
        assert forall|k: int| 0 <= k < w.drop_first().len() implies crate::text::spec_is_whitespace(
            #[trigger] w.drop_first()[k],
        ) by {
            assert(w.drop_first()[k] == w[k + 1]);
        }
        assert(crate::text::spec_is_whitespace(w[0]));
        lemma_trim_start_ws(w.drop_first(), r);
    }
}

/// A line with no newline, after a prefix that is ASCII and ends at a
/// newline, and before a newline or the end: with the caret at the line's
/// start, it is the block toggled.
proof fn lemma_caret_block(a: Seq<char>, line: Seq<char>, b: Seq<char>)
    requires
        forall|k: int| 0 <= k < a.len() ==> (#[trigger] a[k] as int) < 128,
        a.len() == 0 || a.last() == '\n',
        forall|k: int| 0 <= k < line.len() ==> #[trigger] line[k] != '\n',
        line.len() > 0,
        b.len() == 0 || b[0] == '\n',
    ensures
        ({
            let t = a + line + b;
            let al = a.len() as int;
            &&& chars_before(t, al) == al
            &&& toggle_block(t, al, al) == (al, al + line.len())
            &&& t.subrange(al, al + line.len()) == line
            &&& t.take(al) == a
            &&& t.skip(al + line.len()) == b
        }),
{
    let t = a + line + b;
    let al = a.len() as int;
    let e = al + line.len();
    assert(t =~= a + (line + b));
    lemma_chars_before_ascii(a, line + b);
    assert(line_begin(t, al) == al) by {
        if al > 0 {
            assert(t[al - 1] == a.last());
        }
    }
    assert forall|k: int| al <= k < e implies t[k] != '\n' by {
        assert(t[k] == line[k - al]);
    }
    if e < t.len() {
        assert(t[e] == b[0]);
    }
    lemma_line_end_at(t, al, e);
    assert(t.subrange(al, e) =~= line);
    assert(t.take(al) =~= a);
    assert(t.skip(e) =~= b);
}

/// An indented `//` line with no newline is one piece, counts as
/// commented, and uncomments to its indentation and the rest without one
/// space.
proof fn lemma_indented_line(w: Seq<char>, r: Seq<char>)
    requires
        forall|k: int|
            0 <= k < w.len() ==> crate::text::spec_is_whitespace(#[trigger] w[k]) && w[k] != '\n',
        forall|k: int| 0 <= k < r.len() ==> #[trigger] r[k] != '\n',
    ensures
        ({
            let line = w + seq!['/', '/'] + r;
            &&& spec_split(line, '\n') == seq![line]
            &&& all_commented(line)
            &&& uncomment_line(line) == w + (if r.len() > 0 && r[0] == ' ' {
                r.drop_first()
            } else {
                r
            })
        }),
{
    reveal_strlit("//");
    let sl = seq!['/', '/'];
    assert("//"@ =~= sl);
    let line = w + sl + r;
    assert forall|k: int| 0 <= k < line.len() implies #[trigger] line[k] != '\n' by {
        if k < w.len() {
            assert(line[k] == w[k]);
        } else if k < w.len() + 2 {
            assert(line[k] == '/');
        } else {
            assert(line[k] == r[k - w.len() - 2]);
        }
    }
    lemma_find_sound(line, seq!['\n']);
    if spec_find(line, seq!['\n']) is Some {
        let f = spec_find(line, seq!['\n'])->0;
        assert(line.subrange(f, f + 1)[0] == line[f]);
    }
    assert(spec_split(line, '\n') == seq![line]);
    assert(!crate::text::spec_is_whitespace('/'));
    lemma_trim_start_ws(w, sl + r);
    assert(w + (sl + r) =~= line);
    assert((sl + r).take(2) =~= sl);
    assert(piece_core(line, true) == line);
    assert(piece_commented(line, true));
    assert(spec_split(line, '\n').len() == 1);
    assert(all_commented(line));
    let wl = w.len() as int;
    lemma_find_sound(line, sl);
    assert(crate::text::occurs_at(line, sl, wl)) by {
        assert(line.subrange(wl, wl + 2) =~= sl);
    }
    assert forall|j: int| 0 <= j < wl implies !crate::text::occurs_at(line, sl, j) by {
        if crate::text::occurs_at(line, sl, j) {
            assert(line.subrange(j, j + 2)[0] == line[j]);
            assert(line[j] == w[j]);
        }
    }
    if spec_find(line, sl) is Some {
        let f = spec_find(line, sl)->0;
        assert(f == wl);
    }
    assert(line.take(wl) =~= w);
    assert(line.skip(wl + 2) =~= r);
}

/// A line whose text after its leading whitespace begins with `//` counts
/// as commented, so toggling it alone takes that `//` out (with one space
/// after it) and keeps the indentation and the text around the line: for
/// a line that starts the text or follows a newline (after ASCII text),
/// with the caret on it.
pub proof fn law_indented_comment_is_uncommented(
    a: Seq<char>,
    w: Seq<char>,
    r: Seq<char>,
    b: Seq<char>,
)
    requires
        forall|k: int| 0 <= k < a.len() ==> (#[trigger] a[k] as int) < 128,
        a.len() == 0 || a.last() == '\n',
        forall|k: int|
            0 <= k < w.len() ==> crate::text::spec_is_whitespace(#[trigger] w[k]) && w[k] != '\n',
        forall|k: int| 0 <= k < r.len() ==> #[trigger] r[k] != '\n',
        b.len() == 0 || b[0] == '\n',
    ensures
        spec_toggle_comment(a + w + "//"@ + r + b, a.len() as int, a.len() as int).0 == a + w + (if r.len()
            > 0 && r[0] == ' ' {
            r.drop_first()
        } else {
            r
        }) + b,
{
    reveal_strlit("//");
    let sl = seq!['/', '/'];
    assert("//"@ =~= sl);
    let line = w + sl + r;
    lemma_indented_line(w, r);
    assert forall|k: int| 0 <= k < line.len() implies #[trigger] line[k] != '\n' by {
        if k < w.len() {
            assert(line[k] == w[k]);
        } else if k < w.len() + 2 {
            assert(line[k] == '/');
        } else {
            assert(line[k] == r[k - w.len() - 2]);
        }
    }
    lemma_caret_block(a, line, b);
    let t = a + line + b;
    assert(t =~= a + w + "//"@ + r + b);
    let x = uncomment_line(line);
    assert(toggled_lines(seq![line], true) =~= seq![x]);
    assert(spec_join(seq![x], "\n"@) == x);
}

} // verus!
