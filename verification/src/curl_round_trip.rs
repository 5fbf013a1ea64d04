//! What the curl parser gives back for the curl command of a request.
use vstd::prelude::*;
use crate::curl::{
    CurlScan, FlagKind, bs_crlf, bs_lf, curl_body_raw, curl_header_lines, curl_scan, empty_scan,
    flush, joined_lines, kv_enabled, lemma_escape_keeps_lines, lemma_sq_escaped, parse_curl_result,
    quote_escape, request_from_scan, spec_build_curl, spec_curl_lines, spec_flag_kind, spec_join,
    spec_shell_escape, spec_tokenize, split_colon, tokens_from,
};
use crate::http::spec_substitute;
use crate::model::{KV, Request};
use crate::text::{
    lemma_find_sound, occurs_at, spec_contains, spec_find, spec_is_whitespace, spec_replace,
    spec_to_uppercase, spec_trim, spec_trim_start,
};

verus! {

/// Where a text holds `pat` at `i`, `spec_find` finds it there or earlier,
/// and finds exactly `i` when nothing occurs before it.
proof fn lemma_find_is(s: Seq<char>, pat: Seq<char>, i: int)
    requires
        occurs_at(s, pat, i),
        forall|j: int| 0 <= j < i ==> !occurs_at(s, pat, j),
    ensures
        spec_find(s, pat) == Some(i),
{
    lemma_find_sound(s, pat);
    if let Some(f) = spec_find(s, pat) {
        if f > i {
        } else if f < i {
        }
    }
}

/// Replacing in `a + b` replaces in `a` and in `b` when no occurrence of
/// `pat` straddles the two.
proof fn lemma_replace_concat(a: Seq<char>, b: Seq<char>, pat: Seq<char>, rep: Seq<char>)
    requires
        pat.len() > 0,
        forall|k: int| a.len() - pat.len() < k < a.len() ==> !occurs_at(a + b, pat, k),
    ensures
        spec_replace(a + b, pat, rep) == spec_replace(a, pat, rep) + spec_replace(b, pat, rep),
    decreases a.len(),
{
    let ab = a + b;
    lemma_find_sound(a, pat);
    lemma_find_sound(b, pat);
    match spec_find(a, pat) {
        Some(i) => {
            assert(occurs_at(ab, pat, i)) by {
                assert(ab.subrange(i, i + pat.len()) =~= a.subrange(i, i + pat.len()));
            }
            assert forall|j: int| 0 <= j < i implies !occurs_at(ab, pat, j) by {
                if occurs_at(ab, pat, j) {
                    assert(ab.subrange(j, j + pat.len()) =~= a.subrange(j, j + pat.len()));
                    assert(occurs_at(a, pat, j));
                }
            }
            lemma_find_is(ab, pat, i);
            let a2 = a.skip(i + pat.len());
            assert(ab.skip(i + pat.len()) =~= a2 + b);
            assert(ab.take(i) =~= a.take(i));
            assert forall|k: int| a2.len() - pat.len() < k < a2.len() implies !occurs_at(
                a2 + b,
                pat,
                k,
            ) by {
                if occurs_at(a2 + b, pat, k) {
                    let off = i + pat.len();
                    assert((a2 + b).subrange(k, k + pat.len()) =~= ab.subrange(
                        k + off,
                        k + off + pat.len(),
                    ));
                    assert(occurs_at(ab, pat, k + off));
                }
            }
            lemma_replace_concat(a2, b, pat, rep);
            assert(spec_replace(a, pat, rep) == a.take(i) + rep + spec_replace(a2, pat, rep));
            assert(spec_replace(ab, pat, rep) == ab.take(i) + rep + spec_replace(
                ab.skip(i + pat.len()),
                pat,
                rep,
            ));
        },
        None => {
            assert(spec_replace(a, pat, rep) == a);
            assert forall|k: int| 0 <= k < a.len() implies !occurs_at(ab, pat, k) by {
                if occurs_at(ab, pat, k) {
                    if k + pat.len() <= a.len() {
                        assert(ab.subrange(k, k + pat.len()) =~= a.subrange(k, k + pat.len()));
                        assert(occurs_at(a, pat, k));
                    } else {
                        assert(a.len() - pat.len() < k < a.len());
                    }
                }
            }
            match spec_find(b, pat) {
                Some(j) => {
                    assert(occurs_at(ab, pat, a.len() + j)) by {
                        assert(ab.subrange(a.len() + j, a.len() + j + pat.len()) =~= b.subrange(
                            j,
                            j + pat.len(),
                        ));
                    }
                    assert forall|k: int| 0 <= k < a.len() + j implies !occurs_at(ab, pat, k) by {
                        if k >= a.len() && occurs_at(ab, pat, k) {
                            assert(ab.subrange(k, k + pat.len()) =~= b.subrange(
                                k - a.len(),
                                k - a.len() + pat.len(),
                            ));
                            assert(occurs_at(b, pat, k - a.len()));
                        }
                    }
                    lemma_find_is(ab, pat, a.len() + j);
                    assert(ab.take(a.len() + j) =~= a + b.take(j));
                    assert(ab.skip(a.len() + j + pat.len()) =~= b.skip(j + pat.len()));
                    assert(spec_replace(ab, pat, rep) =~= a + (b.take(j) + rep + spec_replace(
                        b.skip(j + pat.len()),
                        pat,
                        rep,
                    )));
                },
                None => {
                    lemma_find_sound(ab, pat);
                    if let Some(f) = spec_find(ab, pat) {
                        if f >= a.len() {
                            assert(ab.subrange(f, f + pat.len()) =~= b.subrange(
                                f - a.len(),
                                f - a.len() + pat.len(),
                            ));
                            assert(occurs_at(b, pat, f - a.len()));
                        }
                    }
                    assert(spec_replace(ab, pat, rep) == ab);
                },
            }
        },
    }
}

} // verus!

verus! {

/// The text of the `-H` line for a header: `name: value`, with
/// `{{vars}}` filled in.
pub open spec fn header_text(h: KV, vars: Map<Seq<char>, Seq<char>>) -> Seq<char> {
    h.name@ + ": "@ + spec_substitute(h.value@, vars).0
}

/// A flag of the exported command and the value that follows it, one per
/// line after the first: `-H` for each enabled header.
pub open spec fn header_flag_pairs(hs: Seq<KV>, vars: Map<Seq<char>, Seq<char>>) -> Seq<
    (Seq<char>, Seq<char>),
>
    decreases hs.len(),
{
    if hs.len() == 0 {
        Seq::empty()
    } else {
        let prev = header_flag_pairs(hs.drop_last(), vars);
        if kv_enabled(hs.last()) {
            prev.push(("-H"@, header_text(hs.last(), vars)))
        } else {
            prev
        }
    }
}

/// Whether the exported command carries a body: the body has a kind and
/// some text.
pub open spec fn exports_data(req: Request) -> bool {
    req.http.body.kind is Some && curl_body_raw(req.http.body).len() > 0
}

/// The body text the exported command sends, with `{{vars}}` filled in.
pub open spec fn export_data(req: Request, vars: Map<Seq<char>, Seq<char>>) -> Seq<char> {
    spec_substitute(curl_body_raw(req.http.body), vars).0
}

/// The flags and values of the exported command after its first line.
pub open spec fn export_pairs(req: Request, vars: Map<Seq<char>, Seq<char>>) -> Seq<
    (Seq<char>, Seq<char>),
> {
    header_flag_pairs(req.http.headers@, vars) + if exports_data(req) {
        seq![("--data"@, export_data(req, vars))]
    } else {
        Seq::empty()
    }
}

/// A line after the first: indented, the flag, a space and the quoted value.
pub open spec fn pair_line(p: (Seq<char>, Seq<char>)) -> Seq<char> {
    "  "@ + p.0 + " "@ + spec_shell_escape(p.1)
}

/// The method as the exported command writes it.
pub open spec fn export_method(req: Request) -> Seq<char> {
    spec_to_uppercase(req.http.method@)
}

/// The URL as the exported command writes it, with `{{vars}}` filled in.
pub open spec fn export_url(req: Request, vars: Map<Seq<char>, Seq<char>>) -> Seq<char> {
    spec_substitute(req.http.url@, vars).0
}

/// The first line of the exported command.
pub open spec fn first_line(req: Request, vars: Map<Seq<char>, Seq<char>>) -> Seq<char> {
    "curl"@ + " "@ + "-X"@ + " "@ + export_method(req) + " "@ + spec_shell_escape(
        export_url(req, vars),
    )
}

/// The `-H` lines of the exported command are the lines of its header flags.
proof fn lemma_header_lines(hs: Seq<KV>, vars: Map<Seq<char>, Seq<char>>)
    ensures
        curl_header_lines(hs, vars) == header_flag_pairs(hs, vars).map_values(
            |p: (Seq<char>, Seq<char>)| pair_line(p),
        ),
    decreases hs.len(),
{
    reveal_strlit("  -H ");
    reveal_strlit("  ");
    reveal_strlit("-H");
    reveal_strlit(" ");
    reveal_strlit(": ");
    if hs.len() > 0 {
        lemma_header_lines(hs.drop_last(), vars);
        let prev = header_flag_pairs(hs.drop_last(), vars);
        if kv_enabled(hs.last()) {
            let p = ("-H"@, header_text(hs.last(), vars));
            assert("  -H "@ =~= "  "@ + "-H"@ + " "@);
            assert(prev.push(p).map_values(|p: (Seq<char>, Seq<char>)| pair_line(p)) =~= prev.map_values(
                |p: (Seq<char>, Seq<char>)| pair_line(p),
            ).push(pair_line(p)));
        }
    }
}

/// The lines of the exported command: the first line, then one line per
/// flag and value.
proof fn lemma_curl_lines(req: Request, vars: Map<Seq<char>, Seq<char>>)
    ensures
        spec_curl_lines(req, vars) == seq![first_line(req, vars)] + export_pairs(
            req,
            vars,
        ).map_values(|p: (Seq<char>, Seq<char>)| pair_line(p)),
{
    reveal_strlit("curl -X ");
    reveal_strlit("curl");
    reveal_strlit("-X");
    reveal_strlit(" ");
    reveal_strlit("  --data ");
    reveal_strlit("  ");
    reveal_strlit("--data");
    lemma_header_lines(req.http.headers@, vars);
    assert("curl -X "@ =~= "curl"@ + " "@ + "-X"@ + " "@);
    assert("  --data "@ =~= "  "@ + "--data"@ + " "@);
    let hp = header_flag_pairs(req.http.headers@, vars);
    let f = |p: (Seq<char>, Seq<char>)| pair_line(p);
    if exports_data(req) {
        let d = ("--data"@, export_data(req, vars));
        assert((hp + seq![d]).map_values(f) =~= hp.map_values(f) + seq![pair_line(d)]);
    } else {
        assert((hp + Seq::empty()).map_values(f) =~= hp.map_values(f));
    }
    assert(first_line(req, vars) =~= "curl -X "@ + export_method(req) + " "@ + spec_shell_escape(
        export_url(req, vars),
    ));
}

} // verus!

verus! {

/// A line the exported command is built from: not empty, ending with the
/// closing quote, without a line continuation.
pub open spec fn good_line(l: Seq<char>) -> bool {
    &&& l.len() > 0
    &&& l.last() == '\''
    &&& !spec_contains(l, bs_lf())
    &&& !spec_contains(l, bs_crlf())
}

/// The separator of the exported command's lines.
pub open spec fn line_sep() -> Seq<char> {
    seq![' ', '\\', '\n']
}

/// Two spaces.
pub open spec fn two_spaces() -> Seq<char> {
    seq![' ', ' ']
}

/// An occurrence of `p` at `k` has `p`'s characters from `k` on.
proof fn lemma_occ_char(s: Seq<char>, p: Seq<char>, k: int, d: int)
    requires
        occurs_at(s, p, k),
        0 <= d < p.len(),
    ensures
        s[k + d] == p[d],
{
    assert(s.subrange(k, k + p.len())[d] == s[k + d]);
}

/// A text where `p` occurs nowhere does not contain it.
proof fn lemma_no_occurrence(s: Seq<char>, p: Seq<char>)
    requires
        forall|j: int| !occurs_at(s, p, j),
    ensures
        !spec_contains(s, p),
{
    lemma_find_sound(s, p);
}

/// Replacing a pattern that does not occur changes nothing.
proof fn lemma_replace_none(s: Seq<char>, p: Seq<char>, rep: Seq<char>)
    requires
        !spec_contains(s, p),
    ensures
        spec_replace(s, p, rep) == s,
{
}

/// Good lines joined end with the closing quote.
proof fn lemma_join_ends(ls: Seq<Seq<char>>, sep: Seq<char>)
    requires
        ls.len() > 0,
        forall|i: int| 0 <= i < ls.len() ==> good_line(#[trigger] ls[i]),
    ensures
        spec_join(ls, sep).len() > 0,
        spec_join(ls, sep).last() == '\'',
{
    if ls.len() > 1 {
        assert(good_line(ls[ls.len() - 1]));
    } else {
        assert(good_line(ls[0]));
    }
}

/// Good lines joined by two spaces hold no CRLF continuation.
proof fn lemma_join_no_crlf(ls: Seq<Seq<char>>)
    requires
        forall|i: int| 0 <= i < ls.len() ==> good_line(#[trigger] ls[i]),
    ensures
        !spec_contains(spec_join(ls, two_spaces()), bs_crlf()),
    decreases ls.len(),
{
    let p = bs_crlf();
    if ls.len() == 1 {
        assert(good_line(ls[0]));
    } else if ls.len() > 1 {
        let a = spec_join(ls.drop_last(), two_spaces());
        let l = ls.last();
        assert(good_line(ls[ls.len() - 1]));
        assert forall|i: int| 0 <= i < ls.drop_last().len() implies good_line(
            #[trigger] ls.drop_last()[i],
        ) by {
            assert(ls.drop_last()[i] == ls[i]);
        }
        lemma_join_no_crlf(ls.drop_last());
        lemma_join_ends(ls.drop_last(), two_spaces());
        lemma_find_sound(a, p);
        lemma_find_sound(l, p);
        let b = a + two_spaces();
        let s = b + l;
        assert forall|j: int| !occurs_at(s, p, j) by {
            if occurs_at(s, p, j) {
                lemma_occ_char(s, p, j, 0);
                lemma_occ_char(s, p, j, 1);
                lemma_occ_char(s, p, j, 2);
                if j + 3 <= a.len() {
                    assert(a.subrange(j, j + 3) =~= s.subrange(j, j + 3));
                    assert(occurs_at(a, p, j));
                } else if j >= b.len() {
                    assert(l.subrange(j - b.len(), j - b.len() + 3) =~= s.subrange(j, j + 3));
                    assert(occurs_at(l, p, j - b.len()));
                } else if j == a.len() - 2 {
                    assert(s[j + 1] == a.last());
                } else if j == a.len() - 1 {
                    assert(s[j] == a.last());
                } else {
                    assert(s[j] == ' ');
                }
            }
        }
        lemma_no_occurrence(s, p);
    }
}

/// Dropping the LF continuations of lines joined by backslash-newline
/// leaves the lines joined by two spaces.
proof fn lemma_join_drop_lf(ls: Seq<Seq<char>>)
    requires
        forall|i: int| 0 <= i < ls.len() ==> good_line(#[trigger] ls[i]),
    ensures
        spec_replace(spec_join(ls, line_sep()), bs_lf(), seq![' ']) == spec_join(ls, two_spaces()),
    decreases ls.len(),
{
    let p = bs_lf();
    let sp = seq![' '];
    if ls.len() == 0 {
        assert(spec_find(Seq::<char>::empty(), p) is None);
    } else if ls.len() == 1 {
        assert(good_line(ls[0]));
    } else {
        let a = spec_join(ls.drop_last(), line_sep());
        let l = ls.last();
        assert(good_line(ls[ls.len() - 1]));
        assert forall|i: int| 0 <= i < ls.drop_last().len() implies good_line(
            #[trigger] ls.drop_last()[i],
        ) by {
            assert(ls.drop_last()[i] == ls[i]);
        }
        lemma_join_drop_lf(ls.drop_last());
        lemma_join_ends(ls.drop_last(), line_sep());
        let b = a + line_sep();
        assert forall|k: int| b.len() - p.len() < k < b.len() implies !occurs_at(b + l, p, k) by {
            if occurs_at(b + l, p, k) {
                lemma_occ_char(b + l, p, k, 0);
            }
        }
        lemma_replace_concat(b, l, p, sp);
        assert forall|k: int| a.len() - p.len() < k < a.len() implies !occurs_at(
            a + line_sep(),
            p,
            k,
        ) by {
            if occurs_at(a + line_sep(), p, k) {
                lemma_occ_char(a + line_sep(), p, k, 0);
            }
        }
        lemma_replace_concat(a, line_sep(), p, sp);
        let q = line_sep();
        assert(occurs_at(q, p, 1)) by {
            assert(q.subrange(1, 3) =~= p);
        }
        assert(!occurs_at(q, p, 0)) by {
            if occurs_at(q, p, 0) {
                lemma_occ_char(q, p, 0, 0);
            }
        }
        lemma_find_is(q, p, 1);
        assert(q.skip(3) =~= Seq::<char>::empty());
        assert(spec_find(Seq::<char>::empty(), p) is None);
        assert(spec_replace(Seq::<char>::empty(), p, sp) == Seq::<char>::empty());
        assert(spec_replace(q, p, sp) == q.take(1) + sp + spec_replace(q.skip(3), p, sp));
        assert(spec_replace(q, p, sp) =~= two_spaces());
        lemma_replace_none(l, p, sp);
    }
}

/// The text the tokenizer reads of lines joined by backslash-newline: the
/// lines joined by two spaces.
proof fn lemma_joined_lines(ls: Seq<Seq<char>>)
    requires
        forall|i: int| 0 <= i < ls.len() ==> good_line(#[trigger] ls[i]),
    ensures
        joined_lines(spec_join(ls, line_sep())) == spec_join(ls, two_spaces()),
{
    lemma_join_drop_lf(ls);
    lemma_join_no_crlf(ls);
    lemma_replace_none(spec_join(ls, two_spaces()), bs_crlf(), seq![' ']);
}

} // verus!

verus! {

/// A character the tokenizer takes as it stands outside quotes.
pub open spec fn plain_char(c: char) -> bool {
    !spec_is_whitespace(c) && c != '\'' && c != '"' && c != '\\'
}

/// A word of plain characters, not empty.
pub open spec fn plain_word(w: Seq<char>) -> bool {
    w.len() > 0 && forall|k: int| 0 <= k < w.len() ==> plain_char(#[trigger] w[k])
}

/// Each flag followed by its value.
pub open spec fn flatten_pairs(ps: Seq<(Seq<char>, Seq<char>)>) -> Seq<Seq<char>>
    decreases ps.len(),
{
    if ps.len() == 0 {
        Seq::empty()
    } else {
        flatten_pairs(ps.drop_last()) + seq![ps.last().0, ps.last().1]
    }
}

/// Outside quotes, a run of plain characters is taken as it stands.
proof fn lemma_plain_word(
    s: Seq<char>,
    i: int,
    w: Seq<char>,
    cur: Seq<char>,
    out: Seq<Seq<char>>,
)
    requires
        0 <= i,
        i + w.len() <= s.len(),
        s.subrange(i, i + w.len()) == w,
        forall|k: int| 0 <= k < w.len() ==> plain_char(#[trigger] w[k]),
    ensures
        tokens_from(s, i, cur, out, false, false) == tokens_from(
            s,
            i + w.len(),
            cur + w,
            out,
            false,
            false,
        ),
    decreases w.len(),
{
    if w.len() == 0 {
        assert(cur + w =~= cur);
    } else {
        assert(s[i] == s.subrange(i, i + w.len())[0]);
        assert(plain_char(w[0]));
        let w1 = w.drop_first();
        assert(s.subrange(i + 1, i + 1 + w1.len()) =~= w1) by {
            assert forall|k: int| 0 <= k < w1.len() implies s.subrange(i + 1, i + 1 + w1.len())[k]
                == w1[k] by {
                assert(s.subrange(i, i + w.len())[k + 1] == s[i + 1 + k]);
            }
        }
        assert forall|k: int| 0 <= k < w1.len() implies plain_char(#[trigger] w1[k]) by {
            assert(plain_char(w[k + 1]));
        }
        lemma_plain_word(s, i + 1, w1, cur.push(w[0]), out);
        assert(cur.push(w[0]) + w1 =~= cur + w);
    }
}

/// A quoted value reads back as the value.
proof fn lemma_quoted(s: Seq<char>, i: int, v: Seq<char>, out: Seq<Seq<char>>)
    requires
        0 <= i,
        i + spec_shell_escape(v).len() <= s.len(),
        s.subrange(i, i + spec_shell_escape(v).len()) == spec_shell_escape(v),
    ensures
        tokens_from(s, i, Seq::empty(), out, false, false) == tokens_from(
            s,
            i + spec_shell_escape(v).len(),
            v,
            out,
            false,
            false,
        ),
{
    let r = spec_replace(v, seq!['\''], quote_escape());
    let x = spec_shell_escape(v);
    assert(s[i] == x[0]);
    assert(s.subrange(i + 1, i + 1 + r.len() + 1) =~= r + seq!['\'']) by {
        assert forall|k: int| 0 <= k < r.len() + 1 implies s.subrange(i + 1, i + 1 + r.len() + 1)[k]
            == (r + seq!['\''])[k] by {
            assert(s.subrange(i, i + x.len())[k + 1] == s[i + 1 + k]);
        }
    }
    lemma_sq_escaped(s, i + 1, v, Seq::empty(), out);
    assert(Seq::<char>::empty() + v =~= v);
}

/// A space ends the token being built.
proof fn lemma_space(s: Seq<char>, i: int, cur: Seq<char>, out: Seq<Seq<char>>)
    requires
        0 <= i < s.len(),
        s[i] == ' ',
    ensures
        tokens_from(s, i, cur, out, false, false) == tokens_from(
            s,
            i + 1,
            Seq::empty(),
            flush(out, cur),
            false,
            false,
        ),
{
    assert(spec_is_whitespace(' '));
}

/// A line after the first, with the two spaces before it: the token being
/// built ends, then the flag and the value are read.
proof fn lemma_pair_line_tokens(
    s: Seq<char>,
    i: int,
    p: (Seq<char>, Seq<char>),
    cur: Seq<char>,
    out: Seq<Seq<char>>,
)
    requires
        0 <= i,
        i + 2 + pair_line(p).len() <= s.len(),
        s.subrange(i, i + 2 + pair_line(p).len()) == two_spaces() + pair_line(p),
        plain_word(p.0),
    ensures
        tokens_from(s, i, cur, out, false, false) == tokens_from(
            s,
            i + 2 + pair_line(p).len(),
            p.1,
            flush(out, cur).push(p.0),
            false,
            false,
        ),
{
    reveal_strlit("  ");
    reveal_strlit(" ");
    let e = Seq::<char>::empty();
    let l = two_spaces() + pair_line(p);
    let f = p.0;
    let x = spec_shell_escape(p.1);
    assert(l =~= seq![' ', ' ', ' ', ' '] + f + seq![' '] + x);
    assert forall|k: int| 0 <= k < l.len() implies s[i + k] == l[k] by {
        assert(s.subrange(i, i + l.len())[k] == s[i + k]);
    }
    let o1 = flush(out, cur);
    assert(s[i] == l[0] && s[i + 1] == l[1] && s[i + 2] == l[2] && s[i + 3] == l[3]);
    lemma_space(s, i, cur, out);
    lemma_space(s, i + 1, e, o1);
    lemma_space(s, i + 2, e, o1);
    lemma_space(s, i + 3, e, o1);
    assert(flush(o1, e) == o1);
    assert(s.subrange(i + 4, i + 4 + f.len()) =~= f) by {
        assert forall|k: int| 0 <= k < f.len() implies s.subrange(i + 4, i + 4 + f.len())[k]
            == f[k] by {
            assert(s[i + 4 + k] == l[4 + k]);
        }
    }
    lemma_plain_word(s, i + 4, f, e, o1);
    assert(e + f =~= f);
    assert(s[i + 4 + f.len()] == l[4 + f.len() as int]);
    lemma_space(s, i + 4 + f.len(), f, o1);
    let j = i + 5 + f.len();
    assert(s.subrange(j, j + x.len()) =~= x) by {
        assert forall|k: int| 0 <= k < x.len() implies s.subrange(j, j + x.len())[k] == x[k] by {
            assert(s[j + k] == l[5 + f.len() as int + k]);
        }
    }
    lemma_quoted(s, j, p.1, o1.push(f));
}

/// The first line: `curl`, `-X`, the method, then the URL being built.
proof fn lemma_first_line_tokens(s: Seq<char>, m: Seq<char>, u: Seq<char>)
    requires
        plain_word(m),
        ("curl"@ + " "@ + "-X"@ + " "@ + m + " "@ + spec_shell_escape(u)).len() <= s.len(),
        s.subrange(0, ("curl"@ + " "@ + "-X"@ + " "@ + m + " "@ + spec_shell_escape(u)).len() as int)
            == "curl"@ + " "@ + "-X"@ + " "@ + m + " "@ + spec_shell_escape(u),
    ensures
        tokens_from(s, 0, Seq::empty(), Seq::empty(), false, false) == tokens_from(
            s,
            ("curl"@ + " "@ + "-X"@ + " "@ + m + " "@ + spec_shell_escape(u)).len() as int,
            u,
            seq!["curl"@, "-X"@, m],
            false,
            false,
        ),
{
    reveal_strlit("curl");
    reveal_strlit("-X");
    reveal_strlit(" ");
    let e = Seq::<char>::empty();
    let none = Seq::<Seq<char>>::empty();
    let x = spec_shell_escape(u);
    let l = "curl"@ + " "@ + "-X"@ + " "@ + m + " "@ + x;
    let c = seq!['c', 'u', 'r', 'l'];
    let xf = seq!['-', 'X'];
    assert(l =~= c + seq![' '] + xf + seq![' '] + m + seq![' '] + x);
    assert forall|k: int| 0 <= k < l.len() implies s[k] == l[k] by {
        assert(s.subrange(0, l.len() as int)[k] == s[k]);
    }
    assert(spec_is_whitespace('c') == false);
    assert(spec_is_whitespace('u') == false);
    assert(spec_is_whitespace('r') == false);
    assert(spec_is_whitespace('l') == false);
    assert(spec_is_whitespace('-') == false);
    assert(spec_is_whitespace('X') == false);
    assert(s.subrange(0, 4) =~= c) by {
        assert forall|k: int| 0 <= k < 4 implies s.subrange(0, 4)[k] == c[k] by {
            assert(s[k] == l[k]);
        }
    }
    assert forall|k: int| 0 <= k < c.len() implies plain_char(#[trigger] c[k]) by {}
    lemma_plain_word(s, 0, c, e, none);
    assert(e + c =~= c);
    assert(s[4] == l[4]);
    lemma_space(s, 4, c, none);
    let o1 = seq![c];
    assert(flush(none, c) =~= o1);
    assert(s.subrange(5, 7) =~= xf) by {
        assert forall|k: int| 0 <= k < 2 implies s.subrange(5, 7)[k] == xf[k] by {
            assert(s[5 + k] == l[5 + k]);
        }
    }
    assert forall|k: int| 0 <= k < xf.len() implies plain_char(#[trigger] xf[k]) by {}
    lemma_plain_word(s, 5, xf, e, o1);
    assert(e + xf =~= xf);
    assert(s[7] == l[7]);
    lemma_space(s, 7, xf, o1);
    let o2 = o1.push(xf);
    let mi = m.len() as int;
    assert(s.subrange(8, 8 + mi) =~= m) by {
        assert forall|k: int| 0 <= k < mi implies s.subrange(8, 8 + mi)[k] == m[k] by {
            assert(s[8 + k] == l[8 + k]);
        }
    }
    lemma_plain_word(s, 8, m, e, o2);
    assert(e + m =~= m);
    assert(s[8 + mi] == l[8 + mi]);
    lemma_space(s, 8 + mi, m, o2);
    let j = 9 + mi;
    let xi = x.len() as int;
    assert(s.subrange(j, j + xi) =~= x) by {
        assert forall|k: int| 0 <= k < xi implies s.subrange(j, j + xi)[k] == x[k] by {
            assert(s[j + k] == l[9 + mi + k]);
        }
    }
    lemma_quoted(s, j, u, o2.push(m));
    assert("curl"@ =~= c);
    assert("-X"@ =~= xf);
    assert(o2.push(m) =~= seq!["curl"@, "-X"@, m]);
}

} // verus!

verus! {

/// Joining one line more adds the separator and the line.
proof fn lemma_join_step(ls: Seq<Seq<char>>, sep: Seq<char>, k: int)
    requires
        1 <= k < ls.len(),
    ensures
        spec_join(ls.take(k + 1), sep) == spec_join(ls.take(k), sep) + sep + ls[k],
{
    assert(ls.take(k + 1).drop_last() =~= ls.take(k));
}

/// The first `m` lines joined begin the whole joined text.
proof fn lemma_join_prefix(ls: Seq<Seq<char>>, sep: Seq<char>, m: int)
    requires
        1 <= m <= ls.len(),
    ensures
        spec_join(ls.take(m), sep).len() <= spec_join(ls, sep).len(),
        spec_join(ls, sep).subrange(0, spec_join(ls.take(m), sep).len() as int) == spec_join(
            ls.take(m),
            sep,
        ),
    decreases ls.len(),
{
    if m == ls.len() {
        assert(ls.take(m) =~= ls);
    } else {
        let d = ls.drop_last();
        lemma_join_prefix(d, sep, m);
        assert(d.take(m) =~= ls.take(m));
        let a = spec_join(d, sep);
        let b = spec_join(ls.take(m), sep);
        assert(spec_join(ls, sep) == a + sep + ls.last());
        assert((a + sep + ls.last()).subrange(0, b.len() as int) =~= a.subrange(0, b.len() as int));
    }
}

/// The words of the exported command: `curl`, `-X`, the method, the URL,
/// then each flag followed by its value.
pub open spec fn export_words(m: Seq<char>, u: Seq<char>, ps: Seq<(Seq<char>, Seq<char>)>) -> Seq<
    Seq<char>,
> {
    seq!["curl"@, "-X"@, m, u] + flatten_pairs(ps)
}

/// The lines of a command with method `m`, URL `u` and the flags and
/// values `ps`.
pub open spec fn command_lines(m: Seq<char>, u: Seq<char>, ps: Seq<(Seq<char>, Seq<char>)>) -> Seq<
    Seq<char>,
> {
    seq!["curl"@ + " "@ + "-X"@ + " "@ + m + " "@ + spec_shell_escape(u)] + ps.map_values(
        |p: (Seq<char>, Seq<char>)| pair_line(p),
    )
}

/// Flags that are plain words, values that are not empty.
pub open spec fn readable_pairs(ps: Seq<(Seq<char>, Seq<char>)>) -> bool {
    forall|j: int| 0 <= j < ps.len() ==> plain_word((#[trigger] ps[j]).0) && ps[j].1.len() > 0
}

/// After the first `k + 1` lines the tokenizer holds the words so far,
/// the last of them still being built.
proof fn lemma_tokens_upto(m: Seq<char>, u: Seq<char>, ps: Seq<(Seq<char>, Seq<char>)>, k: int)
    requires
        plain_word(m),
        u.len() > 0,
        readable_pairs(ps),
        0 <= k <= ps.len(),
    ensures
        ({
            let ls = command_lines(m, u, ps);
            let f = spec_join(ls, two_spaces());
            let t = export_words(m, u, ps.take(k));
            &&& t.len() > 0
            &&& t.last().len() > 0
            &&& tokens_from(f, 0, Seq::empty(), Seq::empty(), false, false) == tokens_from(
                f,
                spec_join(ls.take(k + 1), two_spaces()).len() as int,
                t.last(),
                t.drop_last(),
                false,
                false,
            )
        }),
    decreases k,
{
    let ls = command_lines(m, u, ps);
    let f = spec_join(ls, two_spaces());
    let t = export_words(m, u, ps.take(k));
    lemma_join_prefix(ls, two_spaces(), k + 1);
    if k == 0 {
        let l0 = ls[0];
        assert(ls.take(1) =~= seq![l0]);
        assert(ps.take(0) =~= Seq::<(Seq<char>, Seq<char>)>::empty());
        assert(t =~= seq!["curl"@, "-X"@, m, u]);
        lemma_first_line_tokens(f, m, u);
        assert(t.drop_last() =~= seq!["curl"@, "-X"@, m]);
    } else {
        lemma_tokens_upto(m, u, ps, k - 1);
        let p = ps[k - 1];
        let t0 = export_words(m, u, ps.take(k - 1));
        let a = spec_join(ls.take(k), two_spaces());
        lemma_join_step(ls, two_spaces(), k);
        assert(ls[k] == pair_line(p));
        let pl = pair_line(p);
        let b = spec_join(ls.take(k + 1), two_spaces());
        assert(b == a + two_spaces() + pl);
        let ai = a.len() as int;
        assert(f.subrange(ai, ai + 2 + pl.len()) =~= two_spaces() + pl) by {
            assert forall|i: int| 0 <= i < 2 + pl.len() implies f.subrange(
                ai,
                ai + 2 + pl.len(),
            )[i] == (two_spaces() + pl)[i] by {
                assert(f.subrange(0, b.len() as int)[a.len() + i] == f[a.len() + i]);
                assert(b[a.len() + i] == (two_spaces() + pl)[i]);
            }
        }
        assert(plain_word(p.0) && p.1.len() > 0);
        lemma_pair_line_tokens(f, a.len() as int, p, t0.last(), t0.drop_last());
        assert(flush(t0.drop_last(), t0.last()) =~= t0);
        assert(ps.take(k).drop_last() =~= ps.take(k - 1));
        assert(ps.take(k).last() == p);
        assert(t =~= t0 + seq![p.0, p.1]);
        assert(t.drop_last() =~= t0.push(p.0));
    }
}

/// The tokens of a command built from `command_lines` are its words.
proof fn lemma_command_tokens(m: Seq<char>, u: Seq<char>, ps: Seq<(Seq<char>, Seq<char>)>)
    requires
        plain_word(m),
        u.len() > 0,
        readable_pairs(ps),
    ensures
        tokens_from(
            spec_join(command_lines(m, u, ps), two_spaces()),
            0,
            Seq::empty(),
            Seq::empty(),
            false,
            false,
        ) == Some(export_words(m, u, ps)),
{
    let ls = command_lines(m, u, ps);
    let n = ps.len() as int;
    lemma_tokens_upto(m, u, ps, n);
    assert(ls.take(n + 1) =~= ls);
    assert(ps.take(n) =~= ps);
    let t = export_words(m, u, ps);
    assert(flush(t.drop_last(), t.last()) =~= t);
}

} // verus!

verus! {

/// What the curl parser makes of a flag and its value: a `-H` value is
/// split at its first `:` and both sides trimmed; any other flag here is
/// `--data`, whose value becomes the body.
pub open spec fn scan_pair(st: CurlScan, p: (Seq<char>, Seq<char>)) -> CurlScan {
    if p.0 == "-H"@ {
        match split_colon(p.1) {
            Some((k, v)) => CurlScan { headers: st.headers.push((spec_trim(k), spec_trim(v))), ..st },
            None => st,
        }
    } else {
        CurlScan { data: Some(p.1), ..st }
    }
}

/// The scan after the flags and values `ps`, from `st`.
pub open spec fn scan_pairs(ps: Seq<(Seq<char>, Seq<char>)>, st: CurlScan) -> CurlScan
    decreases ps.len(),
{
    if ps.len() == 0 {
        st
    } else {
        scan_pair(scan_pairs(ps.drop_last(), st), ps.last())
    }
}

/// Flags that are `-H` or `--data`.
pub open spec fn known_flags(ps: Seq<(Seq<char>, Seq<char>)>) -> bool {
    forall|j: int| 0 <= j < ps.len() ==> (#[trigger] ps[j]).0 == "-H"@ || ps[j].0 == "--data"@
}

/// Flag `j` and its value stand at `2 * j` and `2 * j + 1`.
proof fn lemma_flatten_index(ps: Seq<(Seq<char>, Seq<char>)>)
    ensures
        flatten_pairs(ps).len() == 2 * ps.len(),
        forall|j: int|
            0 <= j < ps.len() ==> flatten_pairs(ps)[2 * j] == (#[trigger] ps[j]).0 && flatten_pairs(
                ps,
            )[2 * j + 1] == ps[j].1,
    decreases ps.len(),
{
    if ps.len() > 0 {
        let d = ps.drop_last();
        lemma_flatten_index(d);
        assert forall|j: int| 0 <= j < ps.len() implies flatten_pairs(ps)[2 * j] == (
        #[trigger] ps[j]).0 && flatten_pairs(ps)[2 * j + 1] == ps[j].1 by {
            if j < d.len() {
                assert(d[j] == ps[j]);
            }
        }
    }
}

/// How the parser treats the flags the exported command uses.
proof fn lemma_flag_kinds()
    ensures
        spec_flag_kind("-X"@) == FlagKind::Method,
        spec_flag_kind("-H"@) == FlagKind::Header,
        spec_flag_kind("--data"@) == FlagKind::Data,
        "-H"@ != "--data"@,
{
    reveal_strlit("-X");
    reveal_strlit("--request");
    reveal_strlit("-H");
    reveal_strlit("--header");
    reveal_strlit("-d");
    reveal_strlit("--data");
    assert("-H"@[1] != "-X"@[1]);
    assert("-H"@.len() != "--request"@.len());
    assert("--data"@.len() != "-X"@.len());
    assert("--data"@[2] != "--request"@[2]);
    assert("--data"@.len() != "-H"@.len());
    assert("--data"@[2] != "--header"@[2]);
    assert("--data"@.len() != "-d"@.len());
}

/// The scan over the flags from pair `j` on.
proof fn lemma_scan_from(m: Seq<char>, u: Seq<char>, ps: Seq<(Seq<char>, Seq<char>)>, st: CurlScan, j: int)
    requires
        known_flags(ps),
        0 <= j <= ps.len(),
    ensures
        curl_scan(export_words(m, u, ps), 4 + 2 * j, scan_pairs(ps.take(j), st)) == scan_pairs(
            ps,
            st,
        ),
    decreases ps.len() - j,
{
    let t = export_words(m, u, ps);
    lemma_flatten_index(ps);
    if j == ps.len() {
        assert(ps.take(j) =~= ps);
    } else {
        let p = ps[j];
        lemma_flag_kinds();
        assert(t[4 + 2 * j] == flatten_pairs(ps)[2 * j]);
        assert(t[4 + 2 * j + 1] == flatten_pairs(ps)[2 * j + 1]);
        assert(ps.take(j + 1).drop_last() =~= ps.take(j));
        assert(ps.take(j + 1).last() == p);
        assert(scan_pairs(ps.take(j + 1), st) == scan_pair(scan_pairs(ps.take(j), st), p));
        lemma_scan_from(m, u, ps, st, j + 1);
        assert(p.0 == "-H"@ || p.0 == "--data"@);
    }
}

/// The scan a command with method `m`, URL `u` and flags `ps` starts from
/// once its first line is read.
pub open spec fn first_line_scan(m: Seq<char>, u: Seq<char>) -> CurlScan {
    CurlScan { method: Some(spec_to_uppercase(m)), url: Some(u), ..empty_scan() }
}

/// The scan over the words of the exported command.
proof fn lemma_scan_words(m: Seq<char>, u: Seq<char>, ps: Seq<(Seq<char>, Seq<char>)>)
    requires
        known_flags(ps),
        spec_flag_kind(u) == FlagKind::Positional,
    ensures
        curl_scan(export_words(m, u, ps), 1, empty_scan()) == scan_pairs(ps, first_line_scan(m, u)),
{
    let t = export_words(m, u, ps);
    lemma_flatten_index(ps);
    lemma_flag_kinds();
    let st1 = CurlScan { method: Some(spec_to_uppercase(m)), ..empty_scan() };
    assert(curl_scan(t, 1, empty_scan()) == curl_scan(t, 3, st1));
    assert(curl_scan(t, 3, st1) == curl_scan(t, 4, first_line_scan(m, u)));
    assert(ps.take(0) =~= Seq::<(Seq<char>, Seq<char>)>::empty());
    lemma_scan_from(m, u, ps, first_line_scan(m, u), 0);
}

} // verus!

verus! {

/// The headers the curl parser reads back from the exported command: for
/// each enabled header, its name and its filled-in value, both trimmed.
pub open spec fn export_headers(hs: Seq<KV>, vars: Map<Seq<char>, Seq<char>>) -> Seq<
    (Seq<char>, Seq<char>),
>
    decreases hs.len(),
{
    if hs.len() == 0 {
        Seq::empty()
    } else {
        let prev = export_headers(hs.drop_last(), vars);
        let h = hs.last();
        if kv_enabled(h) {
            prev.push((spec_trim(h.name@), spec_trim(spec_substitute(h.value@, vars).0)))
        } else {
            prev
        }
    }
}

/// What the curl parser gathers from the exported command of `req`.
pub open spec fn export_scan(req: Request, vars: Map<Seq<char>, Seq<char>>) -> CurlScan {
    CurlScan {
        method: Some(spec_to_uppercase(export_method(req))),
        url: Some(export_url(req, vars)),
        headers: export_headers(req.http.headers@, vars),
        data: if exports_data(req) {
            Some(export_data(req, vars))
        } else {
            None
        },
        json: false,
    }
}

/// Whether every enabled header has a name without `:`.
pub open spec fn names_without_colon(hs: Seq<KV>) -> bool {
    forall|i: int|
        0 <= i < hs.len() && kv_enabled(#[trigger] hs[i]) ==> !spec_contains(hs[i].name@, seq![':'])
}

/// A leading space does not change what trimming gives.
proof fn lemma_trim_space(v: Seq<char>)
    ensures
        spec_trim(seq![' '] + v) == spec_trim(v),
{
    assert(spec_is_whitespace(' '));
    assert((seq![' '] + v).drop_first() =~= v);
    assert(spec_trim_start(seq![' '] + v) == spec_trim_start(v));
}

/// A `name: value` text whose name holds no `:` splits after the name.
proof fn lemma_split_header(name: Seq<char>, v: Seq<char>)
    requires
        !spec_contains(name, seq![':']),
    ensures
        split_colon(name + ": "@ + v) == Some((name, seq![' '] + v)),
{
    reveal_strlit(": ");
    let s = name + ": "@ + v;
    let c = seq![':'];
    lemma_find_sound(name, c);
    assert(occurs_at(s, c, name.len() as int)) by {
        assert(s.subrange(name.len() as int, name.len() as int + 1) =~= c);
    }
    assert forall|j: int| 0 <= j < name.len() implies !occurs_at(s, c, j) by {
        if occurs_at(s, c, j) {
            assert(name.subrange(j, j + 1) =~= s.subrange(j, j + 1));
            assert(occurs_at(name, c, j));
        }
    }
    lemma_find_is(s, c, name.len() as int);
    assert(s.take(name.len() as int) =~= name);
    assert(s.skip(name.len() as int + 1) =~= seq![' '] + v);
}

/// The scan over the header flags adds the exported headers.
proof fn lemma_scan_headers(hs: Seq<KV>, vars: Map<Seq<char>, Seq<char>>, st: CurlScan)
    requires
        names_without_colon(hs),
    ensures
        scan_pairs(header_flag_pairs(hs, vars), st) == (CurlScan {
            headers: st.headers + export_headers(hs, vars),
            ..st
        }),
    decreases hs.len(),
{
    if hs.len() == 0 {
        assert(st.headers + Seq::empty() =~= st.headers);
    } else {
        let d = hs.drop_last();
        assert forall|i: int| 0 <= i < d.len() && kv_enabled(#[trigger] d[i]) implies !spec_contains(
            d[i].name@,
            seq![':'],
        ) by {
            assert(d[i] == hs[i]);
        }
        lemma_scan_headers(d, vars, st);
        let h = hs.last();
        if kv_enabled(h) {
            assert(kv_enabled(hs[hs.len() - 1]));
            let v = spec_substitute(h.value@, vars).0;
            lemma_split_header(h.name@, v);
            lemma_trim_space(v);
            let prev = header_flag_pairs(d, vars);
            assert(header_flag_pairs(hs, vars).drop_last() =~= prev);
            assert(st.headers + export_headers(d, vars).push(
                (spec_trim(h.name@), spec_trim(v)),
            ) =~= (st.headers + export_headers(d, vars)).push((spec_trim(h.name@), spec_trim(v))));
        }
    }
}

/// Scanning two runs of flags is scanning one after the other.
proof fn lemma_scan_pairs_concat(
    a: Seq<(Seq<char>, Seq<char>)>,
    b: Seq<(Seq<char>, Seq<char>)>,
    st: CurlScan,
)
    ensures
        scan_pairs(a + b, st) == scan_pairs(b, scan_pairs(a, st)),
    decreases b.len(),
{
    if b.len() == 0 {
        assert(a + b =~= a);
    } else {
        assert((a + b).drop_last() =~= a + b.drop_last());
        lemma_scan_pairs_concat(a, b.drop_last(), st);
    }
}

/// Whether a value holds no line continuation.
pub open spec fn no_continuation(v: Seq<char>) -> bool {
    !spec_contains(v, bs_lf()) && !spec_contains(v, bs_crlf())
}

/// A prefix without backslashes followed by a quoted value is a good line.
proof fn lemma_quote_line(pre: Seq<char>, v: Seq<char>)
    requires
        forall|k: int| 0 <= k < pre.len() ==> pre[k] != '\\',
        no_continuation(v),
    ensures
        good_line(pre + spec_shell_escape(v)),
{
    let x = spec_shell_escape(v);
    let l = pre + x;
    lemma_escape_keeps_lines(v, bs_lf());
    lemma_escape_keeps_lines(v, bs_crlf());
    assert(l.last() == x.last());
    let ghost ps = seq![bs_lf(), bs_crlf()];
    assert forall|t: int| 0 <= t < 2 implies !spec_contains(l, #[trigger] ps[t]) by {
        let p = ps[t];
        lemma_find_sound(x, p);
        assert forall|j: int| !occurs_at(l, p, j) by {
            if occurs_at(l, p, j) {
                lemma_occ_char(l, p, j, 0);
                if j < pre.len() {
                    assert(l[j] == pre[j]);
                } else {
                    assert(x.subrange(j - pre.len(), j - pre.len() + p.len()) =~= l.subrange(
                        j,
                        j + p.len(),
                    ));
                    assert(occurs_at(x, p, j - pre.len()));
                }
            }
        }
        lemma_no_occurrence(l, p);
    }
    assert(ps[0] == bs_lf() && ps[1] == bs_crlf());
}

} // verus!

verus! {

/// Each header flag is `-H` with a value that is not empty and holds no
/// continuation.
proof fn lemma_header_pairs_ok(hs: Seq<KV>, vars: Map<Seq<char>, Seq<char>>)
    requires
        forall|i: int|
            0 <= i < hs.len() && kv_enabled(#[trigger] hs[i]) ==> no_continuation(
                header_text(hs[i], vars),
            ),
    ensures
        forall|j: int|
            0 <= j < header_flag_pairs(hs, vars).len() ==> {
                &&& (#[trigger] header_flag_pairs(hs, vars)[j]).0 == "-H"@
                &&& header_flag_pairs(hs, vars)[j].1.len() > 0
                &&& no_continuation(header_flag_pairs(hs, vars)[j].1)
            },
    decreases hs.len(),
{
    if hs.len() > 0 {
        let d = hs.drop_last();
        assert forall|i: int| 0 <= i < d.len() && kv_enabled(#[trigger] d[i]) implies no_continuation(
            header_text(d[i], vars),
        ) by {
            assert(d[i] == hs[i]);
        }
        lemma_header_pairs_ok(d, vars);
        let prev = header_flag_pairs(d, vars);
        if kv_enabled(hs.last()) {
            assert(kv_enabled(hs[hs.len() - 1]));
            reveal_strlit(": ");
            assert(header_text(hs.last(), vars).len() >= 2);
            let cur = header_flag_pairs(hs, vars);
            assert forall|j: int| 0 <= j < prev.len() implies cur[j] == prev[j] by {}
        }
    }
}

/// Facts about the literals the exported command is made of.
proof fn lemma_plain_literals()
    ensures
        plain_word("-H"@),
        plain_word("--data"@),
        forall|k: int| 0 <= k < ("curl"@ + " "@ + "-X"@ + " "@).len() ==> ("curl"@ + " "@ + "-X"@
            + " "@)[k] != '\\',
        " "@ =~= seq![' '],
        "  "@ =~= seq![' ', ' '],
{
    reveal_strlit("-H");
    reveal_strlit("--data");
    reveal_strlit("curl");
    reveal_strlit("-X");
    reveal_strlit(" ");
    reveal_strlit("  ");
    assert(spec_is_whitespace('-') == false);
    assert(spec_is_whitespace('H') == false);
    assert(spec_is_whitespace('d') == false);
    assert(spec_is_whitespace('a') == false);
    assert(spec_is_whitespace('t') == false);
    assert forall|k: int| 0 <= k < "-H"@.len() implies plain_char(#[trigger] "-H"@[k]) by {}
    assert forall|k: int| 0 <= k < "--data"@.len() implies plain_char(#[trigger] "--data"@[k]) by {}
    assert("curl"@ + " "@ + "-X"@ + " "@ =~= seq!['c', 'u', 'r', 'l', ' ', '-', 'X', ' ']);
}

/// Every line of a command with plain flags and values without
/// continuations is good.
proof fn lemma_good_lines(m: Seq<char>, u: Seq<char>, ps: Seq<(Seq<char>, Seq<char>)>)
    requires
        plain_word(m),
        no_continuation(u),
        forall|j: int| 0 <= j < ps.len() ==> plain_word((#[trigger] ps[j]).0) && no_continuation(ps[j].1),
    ensures
        forall|i: int| 0 <= i < command_lines(m, u, ps).len() ==> good_line(
            #[trigger] command_lines(m, u, ps)[i],
        ),
{
    lemma_plain_literals();
    let ls = command_lines(m, u, ps);
    let pre0 = "curl"@ + " "@ + "-X"@ + " "@ + m + " "@;
    assert forall|k: int| 0 <= k < pre0.len() implies pre0[k] != '\\' by {
        let a = "curl"@ + " "@ + "-X"@ + " "@;
        if k < a.len() {
            assert(pre0[k] == a[k]);
        } else if k < a.len() + m.len() {
            assert(pre0[k] == m[k - a.len()]);
            assert(plain_char(m[k - a.len()]));
        } else {
            assert(pre0[k] == ' ');
        }
    }
    lemma_quote_line(pre0, u);
    assert forall|i: int| 0 <= i < ls.len() implies good_line(#[trigger] ls[i]) by {
        if i == 0 {
            assert(ls[0] == pre0 + spec_shell_escape(u));
        } else {
            let p = ps[i - 1];
            assert(ls[i] == pair_line(p));
            assert(plain_word(p.0) && no_continuation(p.1));
            let pre = "  "@ + p.0 + " "@;
            assert forall|k: int| 0 <= k < pre.len() implies pre[k] != '\\' by {
                if 2 <= k < 2 + p.0.len() {
                    assert(pre[k] == p.0[k - 2]);
                    assert(plain_char(p.0[k - 2]));
                }
            }
            lemma_quote_line(pre, p.1);
        }
    }
}

/// Exporting a request as a curl command and pasting the command back
/// gives the request again, as far as a curl command carries it: the
/// upper-cased method, the URL, each enabled header with its name and
/// value trimmed, and the body, all with `{{vars}}` filled in. This holds
/// when the method is a plain word, the URL is not empty and not a curl
/// flag, no header name holds `:`, a sent body is not empty, and no value
/// holds a backslash-newline line continuation.
pub proof fn law_curl_export_reimport(
    req: Request,
    vars: Map<Seq<char>, Seq<char>>,
    r: Result<Request, String>,
)
    requires
        plain_word(export_method(req)),
        export_url(req, vars).len() > 0,
        spec_flag_kind(export_url(req, vars)) == FlagKind::Positional,
        no_continuation(export_url(req, vars)),
        names_without_colon(req.http.headers@),
        forall|i: int|
            0 <= i < req.http.headers@.len() && kv_enabled(#[trigger] req.http.headers@[i])
                ==> no_continuation(header_text(req.http.headers@[i], vars)),
        exports_data(req) ==> export_data(req, vars).len() > 0 && no_continuation(
            export_data(req, vars),
        ),
        parse_curl_result(spec_build_curl(req, vars), r),
    ensures
        r matches Ok(q) && request_from_scan(q, export_scan(req, vars), export_url(req, vars)),
{
    let m = export_method(req);
    let u = export_url(req, vars);
    let hs = req.http.headers@;
    let hp = header_flag_pairs(hs, vars);
    let dp = if exports_data(req) {
        seq![("--data"@, export_data(req, vars))]
    } else {
        Seq::empty()
    };
    let ps = export_pairs(req, vars);
    assert(ps == hp + dp);
    lemma_plain_literals();
    lemma_flag_kinds();
    lemma_header_pairs_ok(hs, vars);
    assert forall|j: int| 0 <= j < ps.len() implies {
        &&& plain_word((#[trigger] ps[j]).0)
        &&& ps[j].1.len() > 0
        &&& no_continuation(ps[j].1)
        &&& (ps[j].0 == "-H"@ || ps[j].0 == "--data"@)
    } by {
        if j < hp.len() {
            assert(ps[j] == hp[j]);
        } else {
            assert(ps[j] == dp[j - hp.len()]);
        }
    }
    lemma_curl_lines(req, vars);
    let ls = command_lines(m, u, ps);
    assert(spec_curl_lines(req, vars) =~= ls);
    reveal_strlit(" \\\n");
    assert(" \\\n"@ =~= line_sep());
    let j = spec_build_curl(req, vars);
    assert(j == spec_join(ls, line_sep()));
    lemma_good_lines(m, u, ps);
    lemma_joined_lines(ls);
    lemma_join_prefix(ls, line_sep(), 1);
    assert(ls.take(1) =~= seq![ls[0]]);
    assert(good_line(ls[0]));
    assert(j[0] == ls[0][0]) by {
        assert(j.subrange(0, ls[0].len() as int)[0] == j[0]);
    }
    reveal_strlit("curl");
    assert(ls[0][0] == 'c');
    lemma_join_ends(ls, line_sep());
    assert(!spec_is_whitespace('c'));
    assert(!spec_is_whitespace('\''));
    assert(spec_trim_start(j) == j);
    assert(spec_trim(j) == j);
    lemma_command_tokens(m, u, ps);
    let toks = export_words(m, u, ps);
    assert(spec_tokenize(j) == Some(toks));
    assert(toks[0] == "curl"@);
    lemma_scan_words(m, u, ps);
    let st0 = first_line_scan(m, u);
    lemma_scan_pairs_concat(hp, dp, st0);
    lemma_scan_headers(hs, vars, st0);
    let sh = scan_pairs(hp, st0);
    assert(st0.headers + export_headers(hs, vars) =~= export_headers(hs, vars));
    if exports_data(req) {
        assert(dp.drop_last() =~= Seq::<(Seq<char>, Seq<char>)>::empty());
        assert(scan_pairs(dp.drop_last(), sh) == sh);
        assert(scan_pairs(dp, sh) == scan_pair(sh, dp.last()));
    }
    assert(scan_pairs(ps, st0) == export_scan(req, vars));
}

} // verus!

verus! {

/// The curl flags the parser reads as taking no value: they change
/// nothing in the request.
pub open spec fn flags_without_value() -> Seq<Seq<char>> {
    seq![
        "--compressed"@,
        "-i"@,
        "-s"@,
        "-S"@,
        "-L"@,
        "-k"@,
        "--insecure"@,
        "-v"@,
        "--verbose"@,
        "-4"@,
        "-6"@,
        "-#"@,
        "--progress-bar"@,
        "-N"@,
        "--no-buffer"@,
        "-g"@,
        "--globoff"@,
        "-o"@,
        "-O"@,
    ]
}

/// Each flag without a value is a plain word that the parser skips alone.
proof fn lemma_flags_without_value(i: int)
    requires
        0 <= i < flags_without_value().len(),
    ensures
        plain_word(flags_without_value()[i]),
        spec_flag_kind(flags_without_value()[i]) == FlagKind::NoValue,
{
    reveal_strlit("-X");
    reveal_strlit("--request");
    reveal_strlit("-H");
    reveal_strlit("--header");
    reveal_strlit("-d");
    reveal_strlit("--data");
    reveal_strlit("--data-raw");
    reveal_strlit("--data-binary");
    reveal_strlit("--data-ascii");
    reveal_strlit("--json");
    reveal_strlit("--url");
    reveal_strlit("-u");
    reveal_strlit("--user");
    reveal_strlit("--compressed");
    reveal_strlit("-i");
    reveal_strlit("-s");
    reveal_strlit("-S");
    reveal_strlit("-L");
    reveal_strlit("-k");
    reveal_strlit("--insecure");
    reveal_strlit("-v");
    reveal_strlit("--verbose");
    reveal_strlit("-4");
    reveal_strlit("-6");
    reveal_strlit("-#");
    reveal_strlit("--progress-bar");
    reveal_strlit("-N");
    reveal_strlit("--no-buffer");
    reveal_strlit("-g");
    reveal_strlit("--globoff");
    reveal_strlit("-o");
    reveal_strlit("-O");
    let f = flags_without_value()[i];
    assert(forall|k: int| 0 <= k < f.len() ==> plain_char(#[trigger] f[k]));
    if i == 0 {
        assert(f == "--compressed"@);
        assert("--compressed"@.len() != "-X"@.len());
        assert("--compressed"@.len() != "--request"@.len());
        assert("--compressed"@.len() != "-H"@.len());
        assert("--compressed"@.len() != "--header"@.len());
        assert("--compressed"@.len() != "-d"@.len());
        assert("--compressed"@.len() != "--data"@.len());
        assert("--compressed"@.len() != "--data-raw"@.len());
        assert("--compressed"@.len() != "--data-binary"@.len());
        assert("--compressed"@[2] != "--data-ascii"@[2]);
        assert("--compressed"@.len() != "--json"@.len());
        assert("--compressed"@.len() != "--url"@.len());
        assert("--compressed"@.len() != "-u"@.len());
        assert("--compressed"@.len() != "--user"@.len());
    }
    if i == 1 {
        assert(f == "-i"@);
        assert("-i"@[1] != "-X"@[1]);
        assert("-i"@.len() != "--request"@.len());
        assert("-i"@[1] != "-H"@[1]);
        assert("-i"@.len() != "--header"@.len());
        assert("-i"@[1] != "-d"@[1]);
        assert("-i"@.len() != "--data"@.len());
        assert("-i"@.len() != "--data-raw"@.len());
        assert("-i"@.len() != "--data-binary"@.len());
        assert("-i"@.len() != "--data-ascii"@.len());
        assert("-i"@.len() != "--json"@.len());
        assert("-i"@.len() != "--url"@.len());
        assert("-i"@[1] != "-u"@[1]);
        assert("-i"@.len() != "--user"@.len());
    }
    if i == 2 {
        assert(f == "-s"@);
        assert("-s"@[1] != "-X"@[1]);
        assert("-s"@.len() != "--request"@.len());
        assert("-s"@[1] != "-H"@[1]);
        assert("-s"@.len() != "--header"@.len());
        assert("-s"@[1] != "-d"@[1]);
        assert("-s"@.len() != "--data"@.len());
        assert("-s"@.len() != "--data-raw"@.len());
        assert("-s"@.len() != "--data-binary"@.len());
        assert("-s"@.len() != "--data-ascii"@.len());
        assert("-s"@.len() != "--json"@.len());
        assert("-s"@.len() != "--url"@.len());
        assert("-s"@[1] != "-u"@[1]);
        assert("-s"@.len() != "--user"@.len());
    }
    if i == 3 {
        assert(f == "-S"@);
        assert("-S"@[1] != "-X"@[1]);
        assert("-S"@.len() != "--request"@.len());
        assert("-S"@[1] != "-H"@[1]);
        assert("-S"@.len() != "--header"@.len());
        assert("-S"@[1] != "-d"@[1]);
        assert("-S"@.len() != "--data"@.len());
        assert("-S"@.len() != "--data-raw"@.len());
        assert("-S"@.len() != "--data-binary"@.len());
        assert("-S"@.len() != "--data-ascii"@.len());
        assert("-S"@.len() != "--json"@.len());
        assert("-S"@.len() != "--url"@.len());
        assert("-S"@[1] != "-u"@[1]);
        assert("-S"@.len() != "--user"@.len());
    }
    if i == 4 {
        assert(f == "-L"@);
        assert("-L"@[1] != "-X"@[1]);
        assert("-L"@.len() != "--request"@.len());
        assert("-L"@[1] != "-H"@[1]);
        assert("-L"@.len() != "--header"@.len());
        assert("-L"@[1] != "-d"@[1]);
        assert("-L"@.len() != "--data"@.len());
        assert("-L"@.len() != "--data-raw"@.len());
        assert("-L"@.len() != "--data-binary"@.len());
        assert("-L"@.len() != "--data-ascii"@.len());
        assert("-L"@.len() != "--json"@.len());
        assert("-L"@.len() != "--url"@.len());
        assert("-L"@[1] != "-u"@[1]);
        assert("-L"@.len() != "--user"@.len());
    }
    if i == 5 {
        assert(f == "-k"@);
        assert("-k"@[1] != "-X"@[1]);
        assert("-k"@.len() != "--request"@.len());
        assert("-k"@[1] != "-H"@[1]);
        assert("-k"@.len() != "--header"@.len());
        assert("-k"@[1] != "-d"@[1]);
        assert("-k"@.len() != "--data"@.len());
        assert("-k"@.len() != "--data-raw"@.len());
        assert("-k"@.len() != "--data-binary"@.len());
        assert("-k"@.len() != "--data-ascii"@.len());
        assert("-k"@.len() != "--json"@.len());
        assert("-k"@.len() != "--url"@.len());
        assert("-k"@[1] != "-u"@[1]);
        assert("-k"@.len() != "--user"@.len());
    }
    if i == 6 {
        assert(f == "--insecure"@);
        assert("--insecure"@.len() != "-X"@.len());
        assert("--insecure"@.len() != "--request"@.len());
        assert("--insecure"@.len() != "-H"@.len());
        assert("--insecure"@.len() != "--header"@.len());
        assert("--insecure"@.len() != "-d"@.len());
        assert("--insecure"@.len() != "--data"@.len());
        assert("--insecure"@[2] != "--data-raw"@[2]);
        assert("--insecure"@.len() != "--data-binary"@.len());
        assert("--insecure"@.len() != "--data-ascii"@.len());
        assert("--insecure"@.len() != "--json"@.len());
        assert("--insecure"@.len() != "--url"@.len());
        assert("--insecure"@.len() != "-u"@.len());
        assert("--insecure"@.len() != "--user"@.len());
    }
    if i == 7 {
        assert(f == "-v"@);
        assert("-v"@[1] != "-X"@[1]);
        assert("-v"@.len() != "--request"@.len());
        assert("-v"@[1] != "-H"@[1]);
        assert("-v"@.len() != "--header"@.len());
        assert("-v"@[1] != "-d"@[1]);
        assert("-v"@.len() != "--data"@.len());
        assert("-v"@.len() != "--data-raw"@.len());
        assert("-v"@.len() != "--data-binary"@.len());
        assert("-v"@.len() != "--data-ascii"@.len());
        assert("-v"@.len() != "--json"@.len());
        assert("-v"@.len() != "--url"@.len());
        assert("-v"@[1] != "-u"@[1]);
        assert("-v"@.len() != "--user"@.len());
    }
    if i == 8 {
        assert(f == "--verbose"@);
        assert("--verbose"@.len() != "-X"@.len());
        assert("--verbose"@[2] != "--request"@[2]);
        assert("--verbose"@.len() != "-H"@.len());
        assert("--verbose"@.len() != "--header"@.len());
        assert("--verbose"@.len() != "-d"@.len());
        assert("--verbose"@.len() != "--data"@.len());
        assert("--verbose"@.len() != "--data-raw"@.len());
        assert("--verbose"@.len() != "--data-binary"@.len());
        assert("--verbose"@.len() != "--data-ascii"@.len());
        assert("--verbose"@.len() != "--json"@.len());
        assert("--verbose"@.len() != "--url"@.len());
        assert("--verbose"@.len() != "-u"@.len());
        assert("--verbose"@.len() != "--user"@.len());
    }
    if i == 9 {
        assert(f == "-4"@);
        assert("-4"@[1] != "-X"@[1]);
        assert("-4"@.len() != "--request"@.len());
        assert("-4"@[1] != "-H"@[1]);
        assert("-4"@.len() != "--header"@.len());
        assert("-4"@[1] != "-d"@[1]);
        assert("-4"@.len() != "--data"@.len());
        assert("-4"@.len() != "--data-raw"@.len());
        assert("-4"@.len() != "--data-binary"@.len());
        assert("-4"@.len() != "--data-ascii"@.len());
        assert("-4"@.len() != "--json"@.len());
        assert("-4"@.len() != "--url"@.len());
        assert("-4"@[1] != "-u"@[1]);
        assert("-4"@.len() != "--user"@.len());
    }
    if i == 10 {
        assert(f == "-6"@);
        assert("-6"@[1] != "-X"@[1]);
        assert("-6"@.len() != "--request"@.len());
        assert("-6"@[1] != "-H"@[1]);
        assert("-6"@.len() != "--header"@.len());
        assert("-6"@[1] != "-d"@[1]);
        assert("-6"@.len() != "--data"@.len());
        assert("-6"@.len() != "--data-raw"@.len());
        assert("-6"@.len() != "--data-binary"@.len());
        assert("-6"@.len() != "--data-ascii"@.len());
        assert("-6"@.len() != "--json"@.len());
        assert("-6"@.len() != "--url"@.len());
        assert("-6"@[1] != "-u"@[1]);
        assert("-6"@.len() != "--user"@.len());
    }
    if i == 11 {
        assert(f == "-#"@);
        assert("-#"@[1] != "-X"@[1]);
        assert("-#"@.len() != "--request"@.len());
        assert("-#"@[1] != "-H"@[1]);
        assert("-#"@.len() != "--header"@.len());
        assert("-#"@[1] != "-d"@[1]);
        assert("-#"@.len() != "--data"@.len());
        assert("-#"@.len() != "--data-raw"@.len());
        assert("-#"@.len() != "--data-binary"@.len());
        assert("-#"@.len() != "--data-ascii"@.len());
        assert("-#"@.len() != "--json"@.len());
        assert("-#"@.len() != "--url"@.len());
        assert("-#"@[1] != "-u"@[1]);
        assert("-#"@.len() != "--user"@.len());
    }
    if i == 12 {
        assert(f == "--progress-bar"@);
        assert("--progress-bar"@.len() != "-X"@.len());
        assert("--progress-bar"@.len() != "--request"@.len());
        assert("--progress-bar"@.len() != "-H"@.len());
        assert("--progress-bar"@.len() != "--header"@.len());
        assert("--progress-bar"@.len() != "-d"@.len());
        assert("--progress-bar"@.len() != "--data"@.len());
        assert("--progress-bar"@.len() != "--data-raw"@.len());
        assert("--progress-bar"@.len() != "--data-binary"@.len());
        assert("--progress-bar"@.len() != "--data-ascii"@.len());
        assert("--progress-bar"@.len() != "--json"@.len());
        assert("--progress-bar"@.len() != "--url"@.len());
        assert("--progress-bar"@.len() != "-u"@.len());
        assert("--progress-bar"@.len() != "--user"@.len());
    }
    if i == 13 {
        assert(f == "-N"@);
        assert("-N"@[1] != "-X"@[1]);
        assert("-N"@.len() != "--request"@.len());
        assert("-N"@[1] != "-H"@[1]);
        assert("-N"@.len() != "--header"@.len());
        assert("-N"@[1] != "-d"@[1]);
        assert("-N"@.len() != "--data"@.len());
        assert("-N"@.len() != "--data-raw"@.len());
        assert("-N"@.len() != "--data-binary"@.len());
        assert("-N"@.len() != "--data-ascii"@.len());
        assert("-N"@.len() != "--json"@.len());
        assert("-N"@.len() != "--url"@.len());
        assert("-N"@[1] != "-u"@[1]);
        assert("-N"@.len() != "--user"@.len());
    }
    if i == 14 {
        assert(f == "--no-buffer"@);
        assert("--no-buffer"@.len() != "-X"@.len());
        assert("--no-buffer"@.len() != "--request"@.len());
        assert("--no-buffer"@.len() != "-H"@.len());
        assert("--no-buffer"@.len() != "--header"@.len());
        assert("--no-buffer"@.len() != "-d"@.len());
        assert("--no-buffer"@.len() != "--data"@.len());
        assert("--no-buffer"@.len() != "--data-raw"@.len());
        assert("--no-buffer"@.len() != "--data-binary"@.len());
        assert("--no-buffer"@.len() != "--data-ascii"@.len());
        assert("--no-buffer"@.len() != "--json"@.len());
        assert("--no-buffer"@.len() != "--url"@.len());
        assert("--no-buffer"@.len() != "-u"@.len());
        assert("--no-buffer"@.len() != "--user"@.len());
    }
    if i == 15 {
        assert(f == "-g"@);
        assert("-g"@[1] != "-X"@[1]);
        assert("-g"@.len() != "--request"@.len());
        assert("-g"@[1] != "-H"@[1]);
        assert("-g"@.len() != "--header"@.len());
        assert("-g"@[1] != "-d"@[1]);
        assert("-g"@.len() != "--data"@.len());
        assert("-g"@.len() != "--data-raw"@.len());
        assert("-g"@.len() != "--data-binary"@.len());
        assert("-g"@.len() != "--data-ascii"@.len());
        assert("-g"@.len() != "--json"@.len());
        assert("-g"@.len() != "--url"@.len());
        assert("-g"@[1] != "-u"@[1]);
        assert("-g"@.len() != "--user"@.len());
    }
    if i == 16 {
        assert(f == "--globoff"@);
        assert("--globoff"@.len() != "-X"@.len());
        assert("--globoff"@[2] != "--request"@[2]);
        assert("--globoff"@.len() != "-H"@.len());
        assert("--globoff"@.len() != "--header"@.len());
        assert("--globoff"@.len() != "-d"@.len());
        assert("--globoff"@.len() != "--data"@.len());
        assert("--globoff"@.len() != "--data-raw"@.len());
        assert("--globoff"@.len() != "--data-binary"@.len());
        assert("--globoff"@.len() != "--data-ascii"@.len());
        assert("--globoff"@.len() != "--json"@.len());
        assert("--globoff"@.len() != "--url"@.len());
        assert("--globoff"@.len() != "-u"@.len());
        assert("--globoff"@.len() != "--user"@.len());
    }
    if i == 17 {
        assert(f == "-o"@);
        assert("-o"@[1] != "-X"@[1]);
        assert("-o"@.len() != "--request"@.len());
        assert("-o"@[1] != "-H"@[1]);
        assert("-o"@.len() != "--header"@.len());
        assert("-o"@[1] != "-d"@[1]);
        assert("-o"@.len() != "--data"@.len());
        assert("-o"@.len() != "--data-raw"@.len());
        assert("-o"@.len() != "--data-binary"@.len());
        assert("-o"@.len() != "--data-ascii"@.len());
        assert("-o"@.len() != "--json"@.len());
        assert("-o"@.len() != "--url"@.len());
        assert("-o"@[1] != "-u"@[1]);
        assert("-o"@.len() != "--user"@.len());
    }
    if i == 18 {
        assert(f == "-O"@);
        assert("-O"@[1] != "-X"@[1]);
        assert("-O"@.len() != "--request"@.len());
        assert("-O"@[1] != "-H"@[1]);
        assert("-O"@.len() != "--header"@.len());
        assert("-O"@[1] != "-d"@[1]);
        assert("-O"@.len() != "--data"@.len());
        assert("-O"@.len() != "--data-raw"@.len());
        assert("-O"@.len() != "--data-binary"@.len());
        assert("-O"@.len() != "--data-ascii"@.len());
        assert("-O"@.len() != "--json"@.len());
        assert("-O"@.len() != "--url"@.len());
        assert("-O"@[1] != "-u"@[1]);
        assert("-O"@.len() != "--user"@.len());
    }
}

} // verus!

verus! {

/// `curl`, a flag and a URL, separated by single spaces, read as those
/// three words.
proof fn lemma_three_words(f: Seq<char>, u: Seq<char>)
    requires
        plain_word(f),
        plain_word(u),
    ensures
        ({
            let s = "curl"@ + " "@ + f + " "@ + u;
            &&& spec_trim(s) == s
            &&& spec_tokenize(s) == Some(seq!["curl"@, f, u])
        }),
{
    reveal_strlit("curl");
    reveal_strlit(" ");
    let c = seq!['c', 'u', 'r', 'l'];
    assert("curl"@ =~= c);
    let s = c + seq![' '] + f + seq![' '] + u;
    assert("curl"@ + " "@ + f + " "@ + u =~= s);
    let fl = f.len() as int;
    let ul = u.len() as int;
    assert(s.len() == 6 + fl + ul);
    // no backslash anywhere, so nothing is joined
    assert forall|k: int| 0 <= k < s.len() implies #[trigger] s[k] != '\\' by {
        if 5 <= k < 5 + fl {
            assert(s[k] == f[k - 5]);
            assert(plain_char(f[k - 5]));
        } else if 6 + fl <= k {
            assert(s[k] == u[k - 6 - fl]);
            assert(plain_char(u[k - 6 - fl]));
        }
    }
    assert forall|j: int| !occurs_at(s, bs_lf(), j) by {
        if occurs_at(s, bs_lf(), j) {
            lemma_occ_char(s, bs_lf(), j, 0);
        }
    }
    assert forall|j: int| !occurs_at(s, bs_crlf(), j) by {
        if occurs_at(s, bs_crlf(), j) {
            lemma_occ_char(s, bs_crlf(), j, 0);
        }
    }
    lemma_no_occurrence(s, bs_lf());
    lemma_no_occurrence(s, bs_crlf());
    lemma_replace_none(s, bs_lf(), seq![' ']);
    lemma_replace_none(s, bs_crlf(), seq![' ']);
    assert(joined_lines(s) == s);
    // trimming changes nothing
    assert(!spec_is_whitespace('c'));
    assert(s.last() == u.last());
    assert(plain_char(u[ul - 1]));
    assert(spec_trim_start(s) == s);
    assert(spec_trim(s) == s);
    // the words
    let e = Seq::<char>::empty();
    let none = Seq::<Seq<char>>::empty();
    assert(s.subrange(0, 4) =~= c);
    assert(spec_is_whitespace('u') == false && spec_is_whitespace('r') == false
        && spec_is_whitespace('l') == false);
    assert forall|k: int| 0 <= k < c.len() implies plain_char(#[trigger] c[k]) by {}
    lemma_plain_word(s, 0, c, e, none);
    assert(e + c =~= c);
    lemma_space(s, 4, c, none);
    let o1 = seq![c];
    assert(flush(none, c) =~= o1);
    assert(s.subrange(5, 5 + fl) =~= f);
    lemma_plain_word(s, 5, f, e, o1);
    assert(e + f =~= f);
    assert(s[5 + fl] == ' ');
    lemma_space(s, 5 + fl, f, o1);
    let o2 = o1.push(f);
    assert(s.subrange(6 + fl, 6 + fl + ul) =~= u);
    lemma_plain_word(s, 6 + fl, u, e, o2);
    assert(e + u =~= u);
    assert(flush(o2, u) =~= seq!["curl"@, f, u]);
}

/// A curl flag that takes no value changes nothing and takes nothing from
/// what follows it: `curl <flag> <url>` imports a GET request of that URL,
/// with no body, for every such flag and every URL that is a plain word
/// and not itself a flag.
pub proof fn law_flag_without_value_keeps_the_url(i: int, u: Seq<char>, r: Result<Request, String>)
    requires
        0 <= i < flags_without_value().len(),
        plain_word(u),
        spec_flag_kind(u) == FlagKind::Positional,
        parse_curl_result("curl"@ + " "@ + flags_without_value()[i] + " "@ + u, r),
    ensures
        r is Ok,
        r->Ok_0.http.url@ == u,
        r->Ok_0.http.method@ == "GET"@,
        crate::model::spec_empty_body(r->Ok_0.http.body),
{
    let f = flags_without_value()[i];
    lemma_flags_without_value(i);
    lemma_three_words(f, u);
    let toks = seq!["curl"@, f, u];
    let st = CurlScan { url: Some(u), ..empty_scan() };
    assert(curl_scan(toks, 1, empty_scan()) == curl_scan(toks, 2, empty_scan()));
    assert(curl_scan(toks, 2, empty_scan()) == curl_scan(toks, 3, st));
    assert(curl_scan(toks, 1, empty_scan()) == st);
}

} // verus!

verus! {

/// The curl flags the parser reads as taking a value that it drops:
/// authentication, cookies, forms and the like are not imported.
pub open spec fn flags_with_dropped_value() -> Seq<Seq<char>> {
    seq![
        "-u"@,
        "--user"@,
        "-A"@,
        "--user-agent"@,
        "-e"@,
        "--referer"@,
        "-b"@,
        "--cookie"@,
        "--connect-timeout"@,
        "--max-time"@,
        "--proxy"@,
        "-x"@,
        "--output"@,
        "--upload-file"@,
        "-T"@,
        "--cacert"@,
        "--cert"@,
        "--key"@,
        "-F"@,
        "--form"@,
    ]
}

/// Each flag with a dropped value is a plain word that the parser skips
/// with the token after it.
proof fn lemma_flags_with_dropped_value(i: int)
    requires
        0 <= i < flags_with_dropped_value().len(),
    ensures
        plain_word(flags_with_dropped_value()[i]),
        spec_flag_kind(flags_with_dropped_value()[i]) == FlagKind::SkipValue,
{
    reveal_strlit("-u");
    reveal_strlit("--user");
    reveal_strlit("-A");
    reveal_strlit("--user-agent");
    reveal_strlit("-e");
    reveal_strlit("--referer");
    reveal_strlit("-b");
    reveal_strlit("--cookie");
    reveal_strlit("--connect-timeout");
    reveal_strlit("--max-time");
    reveal_strlit("--proxy");
    reveal_strlit("-x");
    reveal_strlit("--output");
    reveal_strlit("--upload-file");
    reveal_strlit("-T");
    reveal_strlit("--cacert");
    reveal_strlit("--cert");
    reveal_strlit("--key");
    reveal_strlit("-F");
    reveal_strlit("--form");
    reveal_strlit("-X");
    reveal_strlit("--request");
    reveal_strlit("-H");
    reveal_strlit("--header");
    reveal_strlit("-d");
    reveal_strlit("--data");
    reveal_strlit("--data-raw");
    reveal_strlit("--data-binary");
    reveal_strlit("--data-ascii");
    reveal_strlit("--json");
    reveal_strlit("--url");
    reveal_strlit("--compressed");
    reveal_strlit("-i");
    reveal_strlit("-s");
    reveal_strlit("-S");
    reveal_strlit("-L");
    reveal_strlit("-k");
    reveal_strlit("--insecure");
    reveal_strlit("-v");
    reveal_strlit("--verbose");
    reveal_strlit("-4");
    reveal_strlit("-6");
    reveal_strlit("-#");
    reveal_strlit("--progress-bar");
    reveal_strlit("-N");
    reveal_strlit("--no-buffer");
    reveal_strlit("-g");
    reveal_strlit("--globoff");
    reveal_strlit("-o");
    reveal_strlit("-O");
    let f = flags_with_dropped_value()[i];
    assert(forall|k: int| 0 <= k < f.len() ==> plain_char(#[trigger] f[k]));
    if i == 0 {
        assert(f == "-u"@);
        assert("-u"@[1] != "-X"@[1]);
        assert("-u"@.len() != "--request"@.len());
        assert("-u"@[1] != "-H"@[1]);
        assert("-u"@.len() != "--header"@.len());
        assert("-u"@[1] != "-d"@[1]);
        assert("-u"@.len() != "--data"@.len());
        assert("-u"@.len() != "--data-raw"@.len());
        assert("-u"@.len() != "--data-binary"@.len());
        assert("-u"@.len() != "--data-ascii"@.len());
        assert("-u"@.len() != "--json"@.len());
        assert("-u"@.len() != "--url"@.len());
    }
    if i == 1 {
        assert(f == "--user"@);
        assert("--user"@.len() != "-X"@.len());
        assert("--user"@.len() != "--request"@.len());
        assert("--user"@.len() != "-H"@.len());
        assert("--user"@.len() != "--header"@.len());
        assert("--user"@.len() != "-d"@.len());
        assert("--user"@[2] != "--data"@[2]);
        assert("--user"@.len() != "--data-raw"@.len());
        assert("--user"@.len() != "--data-binary"@.len());
        assert("--user"@.len() != "--data-ascii"@.len());
        assert("--user"@[2] != "--json"@[2]);
        assert("--user"@.len() != "--url"@.len());
    }
    if i == 2 {
        assert(f == "-A"@);
        assert("-A"@[1] != "-X"@[1]);
        assert("-A"@.len() != "--request"@.len());
        assert("-A"@[1] != "-H"@[1]);
        assert("-A"@.len() != "--header"@.len());
        assert("-A"@[1] != "-d"@[1]);
        assert("-A"@.len() != "--data"@.len());
        assert("-A"@.len() != "--data-raw"@.len());
        assert("-A"@.len() != "--data-binary"@.len());
        assert("-A"@.len() != "--data-ascii"@.len());
        assert("-A"@.len() != "--json"@.len());
        assert("-A"@.len() != "--url"@.len());
        assert("-A"@.len() != "--compressed"@.len());
        assert("-A"@[1] != "-i"@[1]);
        assert("-A"@[1] != "-s"@[1]);
        assert("-A"@[1] != "-S"@[1]);
        assert("-A"@[1] != "-L"@[1]);
        assert("-A"@[1] != "-k"@[1]);
        assert("-A"@.len() != "--insecure"@.len());
        assert("-A"@[1] != "-v"@[1]);
        assert("-A"@.len() != "--verbose"@.len());
        assert("-A"@[1] != "-4"@[1]);
        assert("-A"@[1] != "-6"@[1]);
        assert("-A"@[1] != "-#"@[1]);
        assert("-A"@.len() != "--progress-bar"@.len());
        assert("-A"@[1] != "-N"@[1]);
        assert("-A"@.len() != "--no-buffer"@.len());
        assert("-A"@[1] != "-g"@[1]);
        assert("-A"@.len() != "--globoff"@.len());
        assert("-A"@[1] != "-o"@[1]);
        assert("-A"@[1] != "-O"@[1]);
    }
    if i == 3 {
        assert(f == "--user-agent"@);
        assert("--user-agent"@.len() != "-X"@.len());
        assert("--user-agent"@.len() != "--request"@.len());
        assert("--user-agent"@.len() != "-H"@.len());
        assert("--user-agent"@.len() != "--header"@.len());
        assert("--user-agent"@.len() != "-d"@.len());
        assert("--user-agent"@.len() != "--data"@.len());
        assert("--user-agent"@.len() != "--data-raw"@.len());
        assert("--user-agent"@.len() != "--data-binary"@.len());
        assert("--user-agent"@[2] != "--data-ascii"@[2]);
        assert("--user-agent"@.len() != "--json"@.len());
        assert("--user-agent"@.len() != "--url"@.len());
        assert("--user-agent"@[2] != "--compressed"@[2]);
        assert("--user-agent"@.len() != "-i"@.len());
        assert("--user-agent"@.len() != "-s"@.len());
        assert("--user-agent"@.len() != "-S"@.len());
        assert("--user-agent"@.len() != "-L"@.len());
        assert("--user-agent"@.len() != "-k"@.len());
        assert("--user-agent"@.len() != "--insecure"@.len());
        assert("--user-agent"@.len() != "-v"@.len());
        assert("--user-agent"@.len() != "--verbose"@.len());
        assert("--user-agent"@.len() != "-4"@.len());
        assert("--user-agent"@.len() != "-6"@.len());
        assert("--user-agent"@.len() != "-#"@.len());
        assert("--user-agent"@.len() != "--progress-bar"@.len());
        assert("--user-agent"@.len() != "-N"@.len());
        assert("--user-agent"@.len() != "--no-buffer"@.len());
        assert("--user-agent"@.len() != "-g"@.len());
        assert("--user-agent"@.len() != "--globoff"@.len());
        assert("--user-agent"@.len() != "-o"@.len());
        assert("--user-agent"@.len() != "-O"@.len());
    }
    if i == 4 {
        assert(f == "-e"@);
        assert("-e"@[1] != "-X"@[1]);
        assert("-e"@.len() != "--request"@.len());
        assert("-e"@[1] != "-H"@[1]);
        assert("-e"@.len() != "--header"@.len());
        assert("-e"@[1] != "-d"@[1]);
        assert("-e"@.len() != "--data"@.len());
        assert("-e"@.len() != "--data-raw"@.len());
        assert("-e"@.len() != "--data-binary"@.len());
        assert("-e"@.len() != "--data-ascii"@.len());
        assert("-e"@.len() != "--json"@.len());
        assert("-e"@.len() != "--url"@.len());
        assert("-e"@.len() != "--compressed"@.len());
        assert("-e"@[1] != "-i"@[1]);
        assert("-e"@[1] != "-s"@[1]);
        assert("-e"@[1] != "-S"@[1]);
        assert("-e"@[1] != "-L"@[1]);
        assert("-e"@[1] != "-k"@[1]);
        assert("-e"@.len() != "--insecure"@.len());
        assert("-e"@[1] != "-v"@[1]);
        assert("-e"@.len() != "--verbose"@.len());
        assert("-e"@[1] != "-4"@[1]);
        assert("-e"@[1] != "-6"@[1]);
        assert("-e"@[1] != "-#"@[1]);
        assert("-e"@.len() != "--progress-bar"@.len());
        assert("-e"@[1] != "-N"@[1]);
        assert("-e"@.len() != "--no-buffer"@.len());
        assert("-e"@[1] != "-g"@[1]);
        assert("-e"@.len() != "--globoff"@.len());
        assert("-e"@[1] != "-o"@[1]);
        assert("-e"@[1] != "-O"@[1]);
    }
    if i == 5 {
        assert(f == "--referer"@);
        assert("--referer"@.len() != "-X"@.len());
        assert("--referer"@[4] != "--request"@[4]);
        assert("--referer"@.len() != "-H"@.len());
        assert("--referer"@.len() != "--header"@.len());
        assert("--referer"@.len() != "-d"@.len());
        assert("--referer"@.len() != "--data"@.len());
        assert("--referer"@.len() != "--data-raw"@.len());
        assert("--referer"@.len() != "--data-binary"@.len());
        assert("--referer"@.len() != "--data-ascii"@.len());
        assert("--referer"@.len() != "--json"@.len());
        assert("--referer"@.len() != "--url"@.len());
        assert("--referer"@.len() != "--compressed"@.len());
        assert("--referer"@.len() != "-i"@.len());
        assert("--referer"@.len() != "-s"@.len());
        assert("--referer"@.len() != "-S"@.len());
        assert("--referer"@.len() != "-L"@.len());
        assert("--referer"@.len() != "-k"@.len());
        assert("--referer"@.len() != "--insecure"@.len());
        assert("--referer"@.len() != "-v"@.len());
        assert("--referer"@[2] != "--verbose"@[2]);
        assert("--referer"@.len() != "-4"@.len());
        assert("--referer"@.len() != "-6"@.len());
        assert("--referer"@.len() != "-#"@.len());
        assert("--referer"@.len() != "--progress-bar"@.len());
        assert("--referer"@.len() != "-N"@.len());
        assert("--referer"@.len() != "--no-buffer"@.len());
        assert("--referer"@.len() != "-g"@.len());
        assert("--referer"@[2] != "--globoff"@[2]);
        assert("--referer"@.len() != "-o"@.len());
        assert("--referer"@.len() != "-O"@.len());
    }
    if i == 6 {
        assert(f == "-b"@);
        assert("-b"@[1] != "-X"@[1]);
        assert("-b"@.len() != "--request"@.len());
        assert("-b"@[1] != "-H"@[1]);
        assert("-b"@.len() != "--header"@.len());
        assert("-b"@[1] != "-d"@[1]);
        assert("-b"@.len() != "--data"@.len());
        assert("-b"@.len() != "--data-raw"@.len());
        assert("-b"@.len() != "--data-binary"@.len());
        assert("-b"@.len() != "--data-ascii"@.len());
        assert("-b"@.len() != "--json"@.len());
        assert("-b"@.len() != "--url"@.len());
        assert("-b"@.len() != "--compressed"@.len());
        assert("-b"@[1] != "-i"@[1]);
        assert("-b"@[1] != "-s"@[1]);
        assert("-b"@[1] != "-S"@[1]);
        assert("-b"@[1] != "-L"@[1]);
        assert("-b"@[1] != "-k"@[1]);
        assert("-b"@.len() != "--insecure"@.len());
        assert("-b"@[1] != "-v"@[1]);
        assert("-b"@.len() != "--verbose"@.len());
        assert("-b"@[1] != "-4"@[1]);
        assert("-b"@[1] != "-6"@[1]);
        assert("-b"@[1] != "-#"@[1]);
        assert("-b"@.len() != "--progress-bar"@.len());
        assert("-b"@[1] != "-N"@[1]);
        assert("-b"@.len() != "--no-buffer"@.len());
        assert("-b"@[1] != "-g"@[1]);
        assert("-b"@.len() != "--globoff"@.len());
        assert("-b"@[1] != "-o"@[1]);
        assert("-b"@[1] != "-O"@[1]);
    }
    if i == 7 {
        assert(f == "--cookie"@);
        assert("--cookie"@.len() != "-X"@.len());
        assert("--cookie"@.len() != "--request"@.len());
        assert("--cookie"@.len() != "-H"@.len());
        assert("--cookie"@[2] != "--header"@[2]);
        assert("--cookie"@.len() != "-d"@.len());
        assert("--cookie"@.len() != "--data"@.len());
        assert("--cookie"@.len() != "--data-raw"@.len());
        assert("--cookie"@.len() != "--data-binary"@.len());
        assert("--cookie"@.len() != "--data-ascii"@.len());
        assert("--cookie"@.len() != "--json"@.len());
        assert("--cookie"@.len() != "--url"@.len());
        assert("--cookie"@.len() != "--compressed"@.len());
        assert("--cookie"@.len() != "-i"@.len());
        assert("--cookie"@.len() != "-s"@.len());
        assert("--cookie"@.len() != "-S"@.len());
        assert("--cookie"@.len() != "-L"@.len());
        assert("--cookie"@.len() != "-k"@.len());
        assert("--cookie"@.len() != "--insecure"@.len());
        assert("--cookie"@.len() != "-v"@.len());
        assert("--cookie"@.len() != "--verbose"@.len());
        assert("--cookie"@.len() != "-4"@.len());
        assert("--cookie"@.len() != "-6"@.len());
        assert("--cookie"@.len() != "-#"@.len());
        assert("--cookie"@.len() != "--progress-bar"@.len());
        assert("--cookie"@.len() != "-N"@.len());
        assert("--cookie"@.len() != "--no-buffer"@.len());
        assert("--cookie"@.len() != "-g"@.len());
        assert("--cookie"@.len() != "--globoff"@.len());
        assert("--cookie"@.len() != "-o"@.len());
        assert("--cookie"@.len() != "-O"@.len());
    }
    if i == 8 {
        assert(f == "--connect-timeout"@);
        assert("--connect-timeout"@.len() != "-X"@.len());
        assert("--connect-timeout"@.len() != "--request"@.len());
        assert("--connect-timeout"@.len() != "-H"@.len());
        assert("--connect-timeout"@.len() != "--header"@.len());
        assert("--connect-timeout"@.len() != "-d"@.len());
        assert("--connect-timeout"@.len() != "--data"@.len());
        assert("--connect-timeout"@.len() != "--data-raw"@.len());
        assert("--connect-timeout"@.len() != "--data-binary"@.len());
        assert("--connect-timeout"@.len() != "--data-ascii"@.len());
        assert("--connect-timeout"@.len() != "--json"@.len());
        assert("--connect-timeout"@.len() != "--url"@.len());
        assert("--connect-timeout"@.len() != "--compressed"@.len());
        assert("--connect-timeout"@.len() != "-i"@.len());
        assert("--connect-timeout"@.len() != "-s"@.len());
        assert("--connect-timeout"@.len() != "-S"@.len());
        assert("--connect-timeout"@.len() != "-L"@.len());
        assert("--connect-timeout"@.len() != "-k"@.len());
        assert("--connect-timeout"@.len() != "--insecure"@.len());
        assert("--connect-timeout"@.len() != "-v"@.len());
        assert("--connect-timeout"@.len() != "--verbose"@.len());
        assert("--connect-timeout"@.len() != "-4"@.len());
        assert("--connect-timeout"@.len() != "-6"@.len());
        assert("--connect-timeout"@.len() != "-#"@.len());
        assert("--connect-timeout"@.len() != "--progress-bar"@.len());
        assert("--connect-timeout"@.len() != "-N"@.len());
        assert("--connect-timeout"@.len() != "--no-buffer"@.len());
        assert("--connect-timeout"@.len() != "-g"@.len());
        assert("--connect-timeout"@.len() != "--globoff"@.len());
        assert("--connect-timeout"@.len() != "-o"@.len());
        assert("--connect-timeout"@.len() != "-O"@.len());
    }
    if i == 9 {
        assert(f == "--max-time"@);
        assert("--max-time"@.len() != "-X"@.len());
        assert("--max-time"@.len() != "--request"@.len());
        assert("--max-time"@.len() != "-H"@.len());
        assert("--max-time"@.len() != "--header"@.len());
        assert("--max-time"@.len() != "-d"@.len());
        assert("--max-time"@.len() != "--data"@.len());
        assert("--max-time"@[2] != "--data-raw"@[2]);
        assert("--max-time"@.len() != "--data-binary"@.len());
        assert("--max-time"@.len() != "--data-ascii"@.len());
        assert("--max-time"@.len() != "--json"@.len());
        assert("--max-time"@.len() != "--url"@.len());
        assert("--max-time"@.len() != "--compressed"@.len());
        assert("--max-time"@.len() != "-i"@.len());
        assert("--max-time"@.len() != "-s"@.len());
        assert("--max-time"@.len() != "-S"@.len());
        assert("--max-time"@.len() != "-L"@.len());
        assert("--max-time"@.len() != "-k"@.len());
        assert("--max-time"@[2] != "--insecure"@[2]);
        assert("--max-time"@.len() != "-v"@.len());
        assert("--max-time"@.len() != "--verbose"@.len());
        assert("--max-time"@.len() != "-4"@.len());
        assert("--max-time"@.len() != "-6"@.len());
        assert("--max-time"@.len() != "-#"@.len());
        assert("--max-time"@.len() != "--progress-bar"@.len());
        assert("--max-time"@.len() != "-N"@.len());
        assert("--max-time"@.len() != "--no-buffer"@.len());
        assert("--max-time"@.len() != "-g"@.len());
        assert("--max-time"@.len() != "--globoff"@.len());
        assert("--max-time"@.len() != "-o"@.len());
        assert("--max-time"@.len() != "-O"@.len());
    }
    if i == 10 {
        assert(f == "--proxy"@);
        assert("--proxy"@.len() != "-X"@.len());
        assert("--proxy"@.len() != "--request"@.len());
        assert("--proxy"@.len() != "-H"@.len());
        assert("--proxy"@.len() != "--header"@.len());
        assert("--proxy"@.len() != "-d"@.len());
        assert("--proxy"@.len() != "--data"@.len());
        assert("--proxy"@.len() != "--data-raw"@.len());
        assert("--proxy"@.len() != "--data-binary"@.len());
        assert("--proxy"@.len() != "--data-ascii"@.len());
        assert("--proxy"@.len() != "--json"@.len());
        assert("--proxy"@.len() != "--url"@.len());
        assert("--proxy"@.len() != "--compressed"@.len());
        assert("--proxy"@.len() != "-i"@.len());
        assert("--proxy"@.len() != "-s"@.len());
        assert("--proxy"@.len() != "-S"@.len());
        assert("--proxy"@.len() != "-L"@.len());
        assert("--proxy"@.len() != "-k"@.len());
        assert("--proxy"@.len() != "--insecure"@.len());
        assert("--proxy"@.len() != "-v"@.len());
        assert("--proxy"@.len() != "--verbose"@.len());
        assert("--proxy"@.len() != "-4"@.len());
        assert("--proxy"@.len() != "-6"@.len());
        assert("--proxy"@.len() != "-#"@.len());
        assert("--proxy"@.len() != "--progress-bar"@.len());
        assert("--proxy"@.len() != "-N"@.len());
        assert("--proxy"@.len() != "--no-buffer"@.len());
        assert("--proxy"@.len() != "-g"@.len());
        assert("--proxy"@.len() != "--globoff"@.len());
        assert("--proxy"@.len() != "-o"@.len());
        assert("--proxy"@.len() != "-O"@.len());
    }
    if i == 11 {
        assert(f == "-x"@);
        assert("-x"@[1] != "-X"@[1]);
        assert("-x"@.len() != "--request"@.len());
        assert("-x"@[1] != "-H"@[1]);
        assert("-x"@.len() != "--header"@.len());
        assert("-x"@[1] != "-d"@[1]);
        assert("-x"@.len() != "--data"@.len());
        assert("-x"@.len() != "--data-raw"@.len());
        assert("-x"@.len() != "--data-binary"@.len());
        assert("-x"@.len() != "--data-ascii"@.len());
        assert("-x"@.len() != "--json"@.len());
        assert("-x"@.len() != "--url"@.len());
        assert("-x"@.len() != "--compressed"@.len());
        assert("-x"@[1] != "-i"@[1]);
        assert("-x"@[1] != "-s"@[1]);
        assert("-x"@[1] != "-S"@[1]);
        assert("-x"@[1] != "-L"@[1]);
        assert("-x"@[1] != "-k"@[1]);
        assert("-x"@.len() != "--insecure"@.len());
        assert("-x"@[1] != "-v"@[1]);
        assert("-x"@.len() != "--verbose"@.len());
        assert("-x"@[1] != "-4"@[1]);
        assert("-x"@[1] != "-6"@[1]);
        assert("-x"@[1] != "-#"@[1]);
        assert("-x"@.len() != "--progress-bar"@.len());
        assert("-x"@[1] != "-N"@[1]);
        assert("-x"@.len() != "--no-buffer"@.len());
        assert("-x"@[1] != "-g"@[1]);
        assert("-x"@.len() != "--globoff"@.len());
        assert("-x"@[1] != "-o"@[1]);
        assert("-x"@[1] != "-O"@[1]);
    }
    if i == 12 {
        assert(f == "--output"@);
        assert("--output"@.len() != "-X"@.len());
        assert("--output"@.len() != "--request"@.len());
        assert("--output"@.len() != "-H"@.len());
        assert("--output"@[2] != "--header"@[2]);
        assert("--output"@.len() != "-d"@.len());
        assert("--output"@.len() != "--data"@.len());
        assert("--output"@.len() != "--data-raw"@.len());
        assert("--output"@.len() != "--data-binary"@.len());
        assert("--output"@.len() != "--data-ascii"@.len());
        assert("--output"@.len() != "--json"@.len());
        assert("--output"@.len() != "--url"@.len());
        assert("--output"@.len() != "--compressed"@.len());
        assert("--output"@.len() != "-i"@.len());
        assert("--output"@.len() != "-s"@.len());
        assert("--output"@.len() != "-S"@.len());
        assert("--output"@.len() != "-L"@.len());
        assert("--output"@.len() != "-k"@.len());
        assert("--output"@.len() != "--insecure"@.len());
        assert("--output"@.len() != "-v"@.len());
        assert("--output"@.len() != "--verbose"@.len());
        assert("--output"@.len() != "-4"@.len());
        assert("--output"@.len() != "-6"@.len());
        assert("--output"@.len() != "-#"@.len());
        assert("--output"@.len() != "--progress-bar"@.len());
        assert("--output"@.len() != "-N"@.len());
        assert("--output"@.len() != "--no-buffer"@.len());
        assert("--output"@.len() != "-g"@.len());
        assert("--output"@.len() != "--globoff"@.len());
        assert("--output"@.len() != "-o"@.len());
        assert("--output"@.len() != "-O"@.len());
    }
    if i == 13 {
        assert(f == "--upload-file"@);
        assert("--upload-file"@.len() != "-X"@.len());
        assert("--upload-file"@.len() != "--request"@.len());
        assert("--upload-file"@.len() != "-H"@.len());
        assert("--upload-file"@.len() != "--header"@.len());
        assert("--upload-file"@.len() != "-d"@.len());
        assert("--upload-file"@.len() != "--data"@.len());
        assert("--upload-file"@.len() != "--data-raw"@.len());
        assert("--upload-file"@[2] != "--data-binary"@[2]);
        assert("--upload-file"@.len() != "--data-ascii"@.len());
        assert("--upload-file"@.len() != "--json"@.len());
        assert("--upload-file"@.len() != "--url"@.len());
        assert("--upload-file"@.len() != "--compressed"@.len());
        assert("--upload-file"@.len() != "-i"@.len());
        assert("--upload-file"@.len() != "-s"@.len());
        assert("--upload-file"@.len() != "-S"@.len());
        assert("--upload-file"@.len() != "-L"@.len());
        assert("--upload-file"@.len() != "-k"@.len());
        assert("--upload-file"@.len() != "--insecure"@.len());
        assert("--upload-file"@.len() != "-v"@.len());
        assert("--upload-file"@.len() != "--verbose"@.len());
        assert("--upload-file"@.len() != "-4"@.len());
        assert("--upload-file"@.len() != "-6"@.len());
        assert("--upload-file"@.len() != "-#"@.len());
        assert("--upload-file"@.len() != "--progress-bar"@.len());
        assert("--upload-file"@.len() != "-N"@.len());
        assert("--upload-file"@.len() != "--no-buffer"@.len());
        assert("--upload-file"@.len() != "-g"@.len());
        assert("--upload-file"@.len() != "--globoff"@.len());
        assert("--upload-file"@.len() != "-o"@.len());
        assert("--upload-file"@.len() != "-O"@.len());
    }
    if i == 14 {
        assert(f == "-T"@);
        assert("-T"@[1] != "-X"@[1]);
        assert("-T"@.len() != "--request"@.len());
        assert("-T"@[1] != "-H"@[1]);
        assert("-T"@.len() != "--header"@.len());
        assert("-T"@[1] != "-d"@[1]);
        assert("-T"@.len() != "--data"@.len());
        assert("-T"@.len() != "--data-raw"@.len());
        assert("-T"@.len() != "--data-binary"@.len());
        assert("-T"@.len() != "--data-ascii"@.len());
        assert("-T"@.len() != "--json"@.len());
        assert("-T"@.len() != "--url"@.len());
        assert("-T"@.len() != "--compressed"@.len());
        assert("-T"@[1] != "-i"@[1]);
        assert("-T"@[1] != "-s"@[1]);
        assert("-T"@[1] != "-S"@[1]);
        assert("-T"@[1] != "-L"@[1]);
        assert("-T"@[1] != "-k"@[1]);
        assert("-T"@.len() != "--insecure"@.len());
        assert("-T"@[1] != "-v"@[1]);
        assert("-T"@.len() != "--verbose"@.len());
        assert("-T"@[1] != "-4"@[1]);
        assert("-T"@[1] != "-6"@[1]);
        assert("-T"@[1] != "-#"@[1]);
        assert("-T"@.len() != "--progress-bar"@.len());
        assert("-T"@[1] != "-N"@[1]);
        assert("-T"@.len() != "--no-buffer"@.len());
        assert("-T"@[1] != "-g"@[1]);
        assert("-T"@.len() != "--globoff"@.len());
        assert("-T"@[1] != "-o"@[1]);
        assert("-T"@[1] != "-O"@[1]);
    }
    if i == 15 {
        assert(f == "--cacert"@);
        assert("--cacert"@.len() != "-X"@.len());
        assert("--cacert"@.len() != "--request"@.len());
        assert("--cacert"@.len() != "-H"@.len());
        assert("--cacert"@[2] != "--header"@[2]);
        assert("--cacert"@.len() != "-d"@.len());
        assert("--cacert"@.len() != "--data"@.len());
        assert("--cacert"@.len() != "--data-raw"@.len());
        assert("--cacert"@.len() != "--data-binary"@.len());
        assert("--cacert"@.len() != "--data-ascii"@.len());
        assert("--cacert"@.len() != "--json"@.len());
        assert("--cacert"@.len() != "--url"@.len());
        assert("--cacert"@.len() != "--compressed"@.len());
        assert("--cacert"@.len() != "-i"@.len());
        assert("--cacert"@.len() != "-s"@.len());
        assert("--cacert"@.len() != "-S"@.len());
        assert("--cacert"@.len() != "-L"@.len());
        assert("--cacert"@.len() != "-k"@.len());
        assert("--cacert"@.len() != "--insecure"@.len());
        assert("--cacert"@.len() != "-v"@.len());
        assert("--cacert"@.len() != "--verbose"@.len());
        assert("--cacert"@.len() != "-4"@.len());
        assert("--cacert"@.len() != "-6"@.len());
        assert("--cacert"@.len() != "-#"@.len());
        assert("--cacert"@.len() != "--progress-bar"@.len());
        assert("--cacert"@.len() != "-N"@.len());
        assert("--cacert"@.len() != "--no-buffer"@.len());
        assert("--cacert"@.len() != "-g"@.len());
        assert("--cacert"@.len() != "--globoff"@.len());
        assert("--cacert"@.len() != "-o"@.len());
        assert("--cacert"@.len() != "-O"@.len());
    }
    if i == 16 {
        assert(f == "--cert"@);
        assert("--cert"@.len() != "-X"@.len());
        assert("--cert"@.len() != "--request"@.len());
        assert("--cert"@.len() != "-H"@.len());
        assert("--cert"@.len() != "--header"@.len());
        assert("--cert"@.len() != "-d"@.len());
        assert("--cert"@[2] != "--data"@[2]);
        assert("--cert"@.len() != "--data-raw"@.len());
        assert("--cert"@.len() != "--data-binary"@.len());
        assert("--cert"@.len() != "--data-ascii"@.len());
        assert("--cert"@[2] != "--json"@[2]);
        assert("--cert"@.len() != "--url"@.len());
        assert("--cert"@.len() != "--compressed"@.len());
        assert("--cert"@.len() != "-i"@.len());
        assert("--cert"@.len() != "-s"@.len());
        assert("--cert"@.len() != "-S"@.len());
        assert("--cert"@.len() != "-L"@.len());
        assert("--cert"@.len() != "-k"@.len());
        assert("--cert"@.len() != "--insecure"@.len());
        assert("--cert"@.len() != "-v"@.len());
        assert("--cert"@.len() != "--verbose"@.len());
        assert("--cert"@.len() != "-4"@.len());
        assert("--cert"@.len() != "-6"@.len());
        assert("--cert"@.len() != "-#"@.len());
        assert("--cert"@.len() != "--progress-bar"@.len());
        assert("--cert"@.len() != "-N"@.len());
        assert("--cert"@.len() != "--no-buffer"@.len());
        assert("--cert"@.len() != "-g"@.len());
        assert("--cert"@.len() != "--globoff"@.len());
        assert("--cert"@.len() != "-o"@.len());
        assert("--cert"@.len() != "-O"@.len());
    }
    if i == 17 {
        assert(f == "--key"@);
        assert("--key"@.len() != "-X"@.len());
        assert("--key"@.len() != "--request"@.len());
        assert("--key"@.len() != "-H"@.len());
        assert("--key"@.len() != "--header"@.len());
        assert("--key"@.len() != "-d"@.len());
        assert("--key"@.len() != "--data"@.len());
        assert("--key"@.len() != "--data-raw"@.len());
        assert("--key"@.len() != "--data-binary"@.len());
        assert("--key"@.len() != "--data-ascii"@.len());
        assert("--key"@.len() != "--json"@.len());
        assert("--key"@[2] != "--url"@[2]);
        assert("--key"@.len() != "--compressed"@.len());
        assert("--key"@.len() != "-i"@.len());
        assert("--key"@.len() != "-s"@.len());
        assert("--key"@.len() != "-S"@.len());
        assert("--key"@.len() != "-L"@.len());
        assert("--key"@.len() != "-k"@.len());
        assert("--key"@.len() != "--insecure"@.len());
        assert("--key"@.len() != "-v"@.len());
        assert("--key"@.len() != "--verbose"@.len());
        assert("--key"@.len() != "-4"@.len());
        assert("--key"@.len() != "-6"@.len());
        assert("--key"@.len() != "-#"@.len());
        assert("--key"@.len() != "--progress-bar"@.len());
        assert("--key"@.len() != "-N"@.len());
        assert("--key"@.len() != "--no-buffer"@.len());
        assert("--key"@.len() != "-g"@.len());
        assert("--key"@.len() != "--globoff"@.len());
        assert("--key"@.len() != "-o"@.len());
        assert("--key"@.len() != "-O"@.len());
    }
    if i == 18 {
        assert(f == "-F"@);
        assert("-F"@[1] != "-X"@[1]);
        assert("-F"@.len() != "--request"@.len());
        assert("-F"@[1] != "-H"@[1]);
        assert("-F"@.len() != "--header"@.len());
        assert("-F"@[1] != "-d"@[1]);
        assert("-F"@.len() != "--data"@.len());
        assert("-F"@.len() != "--data-raw"@.len());
        assert("-F"@.len() != "--data-binary"@.len());
        assert("-F"@.len() != "--data-ascii"@.len());
        assert("-F"@.len() != "--json"@.len());
        assert("-F"@.len() != "--url"@.len());
        assert("-F"@.len() != "--compressed"@.len());
        assert("-F"@[1] != "-i"@[1]);
        assert("-F"@[1] != "-s"@[1]);
        assert("-F"@[1] != "-S"@[1]);
        assert("-F"@[1] != "-L"@[1]);
        assert("-F"@[1] != "-k"@[1]);
        assert("-F"@.len() != "--insecure"@.len());
        assert("-F"@[1] != "-v"@[1]);
        assert("-F"@.len() != "--verbose"@.len());
        assert("-F"@[1] != "-4"@[1]);
        assert("-F"@[1] != "-6"@[1]);
        assert("-F"@[1] != "-#"@[1]);
        assert("-F"@.len() != "--progress-bar"@.len());
        assert("-F"@[1] != "-N"@[1]);
        assert("-F"@.len() != "--no-buffer"@.len());
        assert("-F"@[1] != "-g"@[1]);
        assert("-F"@.len() != "--globoff"@.len());
        assert("-F"@[1] != "-o"@[1]);
        assert("-F"@[1] != "-O"@[1]);
    }
    if i == 19 {
        assert(f == "--form"@);
        assert("--form"@.len() != "-X"@.len());
        assert("--form"@.len() != "--request"@.len());
        assert("--form"@.len() != "-H"@.len());
        assert("--form"@.len() != "--header"@.len());
        assert("--form"@.len() != "-d"@.len());
        assert("--form"@[2] != "--data"@[2]);
        assert("--form"@.len() != "--data-raw"@.len());
        assert("--form"@.len() != "--data-binary"@.len());
        assert("--form"@.len() != "--data-ascii"@.len());
        assert("--form"@[2] != "--json"@[2]);
        assert("--form"@.len() != "--url"@.len());
        assert("--form"@.len() != "--compressed"@.len());
        assert("--form"@.len() != "-i"@.len());
        assert("--form"@.len() != "-s"@.len());
        assert("--form"@.len() != "-S"@.len());
        assert("--form"@.len() != "-L"@.len());
        assert("--form"@.len() != "-k"@.len());
        assert("--form"@.len() != "--insecure"@.len());
        assert("--form"@.len() != "-v"@.len());
        assert("--form"@.len() != "--verbose"@.len());
        assert("--form"@.len() != "-4"@.len());
        assert("--form"@.len() != "-6"@.len());
        assert("--form"@.len() != "-#"@.len());
        assert("--form"@.len() != "--progress-bar"@.len());
        assert("--form"@.len() != "-N"@.len());
        assert("--form"@.len() != "--no-buffer"@.len());
        assert("--form"@.len() != "-g"@.len());
        assert("--form"@.len() != "--globoff"@.len());
        assert("--form"@.len() != "-o"@.len());
        assert("--form"@.len() != "-O"@.len());
    }
}

} // verus!

verus! {

/// `curl` and three more words, separated by single spaces, read as those
/// four words.
proof fn lemma_four_words(f: Seq<char>, v: Seq<char>, u: Seq<char>)
    requires
        plain_word(f),
        plain_word(v),
        plain_word(u),
    ensures
        ({
            let s = "curl"@ + " "@ + f + " "@ + v + " "@ + u;
            &&& spec_trim(s) == s
            &&& spec_tokenize(s) == Some(seq!["curl"@, f, v, u])
        }),
{
    reveal_strlit("curl");
    reveal_strlit(" ");
    let c = seq!['c', 'u', 'r', 'l'];
    assert("curl"@ =~= c);
    let s = c + seq![' '] + f + seq![' '] + v + seq![' '] + u;
    assert("curl"@ + " "@ + f + " "@ + v + " "@ + u =~= s);
    let fl = f.len() as int;
    let vl = v.len() as int;
    let ul = u.len() as int;
    assert forall|k: int| 0 <= k < s.len() implies #[trigger] s[k] != '\\' by {
        if 5 <= k < 5 + fl {
            assert(s[k] == f[k - 5]);
            assert(plain_char(f[k - 5]));
        } else if 6 + fl <= k < 6 + fl + vl {
            assert(s[k] == v[k - 6 - fl]);
            assert(plain_char(v[k - 6 - fl]));
        } else if 7 + fl + vl <= k {
            assert(s[k] == u[k - 7 - fl - vl]);
            assert(plain_char(u[k - 7 - fl - vl]));
        }
    }
    assert forall|j: int| !occurs_at(s, bs_lf(), j) by {
        if occurs_at(s, bs_lf(), j) {
            lemma_occ_char(s, bs_lf(), j, 0);
        }
    }
    assert forall|j: int| !occurs_at(s, bs_crlf(), j) by {
        if occurs_at(s, bs_crlf(), j) {
            lemma_occ_char(s, bs_crlf(), j, 0);
        }
    }
    lemma_no_occurrence(s, bs_lf());
    lemma_no_occurrence(s, bs_crlf());
    lemma_replace_none(s, bs_lf(), seq![' ']);
    lemma_replace_none(s, bs_crlf(), seq![' ']);
    assert(joined_lines(s) == s);
    assert(!spec_is_whitespace('c'));
    assert(s.last() == u.last());
    assert(plain_char(u[ul - 1]));
    assert(spec_trim_start(s) == s);
    assert(spec_trim(s) == s);
    let e = Seq::<char>::empty();
    let none = Seq::<Seq<char>>::empty();
    assert(s.subrange(0, 4) =~= c);
    assert(spec_is_whitespace('u') == false && spec_is_whitespace('r') == false
        && spec_is_whitespace('l') == false);
    assert forall|k: int| 0 <= k < c.len() implies plain_char(#[trigger] c[k]) by {}
    lemma_plain_word(s, 0, c, e, none);
    assert(e + c =~= c);
    lemma_space(s, 4, c, none);
    let o1 = seq![c];
    assert(flush(none, c) =~= o1);
    assert(s.subrange(5, 5 + fl) =~= f);
    lemma_plain_word(s, 5, f, e, o1);
    assert(e + f =~= f);
    lemma_space(s, 5 + fl, f, o1);
    let o2 = o1.push(f);
    assert(s.subrange(6 + fl, 6 + fl + vl) =~= v);
    lemma_plain_word(s, 6 + fl, v, e, o2);
    assert(e + v =~= v);
    lemma_space(s, 6 + fl + vl, v, o2);
    let o3 = o2.push(v);
    assert(s.subrange(7 + fl + vl, 7 + fl + vl + ul) =~= u);
    lemma_plain_word(s, 7 + fl + vl, u, e, o3);
    assert(e + u =~= u);
    assert(flush(o3, u) =~= seq!["curl"@, f, v, u]);
}

/// A curl flag whose value the parser drops takes exactly the next word
/// with it and changes nothing: `curl <flag> <value> <url>` imports a GET
/// request of that URL, with no body and no header, whatever the value
/// holds, for every such flag and every URL that is a plain word and not
/// itself a flag.
pub proof fn law_dropped_flag_value_keeps_the_url(
    i: int,
    v: Seq<char>,
    u: Seq<char>,
    r: Result<Request, String>,
)
    requires
        0 <= i < flags_with_dropped_value().len(),
        plain_word(v),
        plain_word(u),
        spec_flag_kind(u) == FlagKind::Positional,
        parse_curl_result("curl"@ + " "@ + flags_with_dropped_value()[i] + " "@ + v + " "@ + u, r),
    ensures
        r is Ok,
        r->Ok_0.http.url@ == u,
        r->Ok_0.http.method@ == "GET"@,
        r->Ok_0.http.headers@.len() == 0,
        crate::model::spec_empty_body(r->Ok_0.http.body),
{
    let f = flags_with_dropped_value()[i];
    lemma_flags_with_dropped_value(i);
    lemma_four_words(f, v, u);
    let toks = seq!["curl"@, f, v, u];
    let st = CurlScan { url: Some(u), ..empty_scan() };
    assert(curl_scan(toks, 1, empty_scan()) == curl_scan(toks, 3, empty_scan()));
    assert(curl_scan(toks, 3, empty_scan()) == curl_scan(toks, 4, st));
    assert(curl_scan(toks, 1, empty_scan()) == st);
}

} // verus!
