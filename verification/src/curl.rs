//! Curl command lines: a shell-like tokenizer, the parser from a curl
//! command to a request, and the curl command for a request.
use vstd::prelude::*;
use crate::http::spec_substitute;
use crate::strmap::StrMap;
use crate::model::{Body, HttpSpec, Info, KV, Request, empty_body, spec_empty_body};
use crate::text::{
    chars_of, is_whitespace, lemma_find_sound, occurs_at, replace_chars, spec_contains, spec_ends_with,
    spec_eq_ignore_ascii_case, spec_find, spec_is_whitespace, spec_replace, spec_to_uppercase,
    spec_trim, string_from, views,
};

verus! {

/// A backslash and a newline.
pub open spec fn bs_lf() -> Seq<char> {
    seq!['\\', '\n']
}

/// A backslash, a carriage return and a newline.
pub open spec fn bs_crlf() -> Seq<char> {
    seq!['\\', '\r', '\n']
}

/// The text the tokenizer scans: line continuations become spaces.
pub open spec fn joined_lines(s: Seq<char>) -> Seq<char> {
    spec_replace(spec_replace(s, bs_lf(), seq![' ']), bs_crlf(), seq![' '])
}

/// Whether a backslash inside double quotes escapes `c`.
pub open spec fn dq_escapable(c: char) -> bool {
    c == '"' || c == '\\' || c == '$' || c == '`' || c == '\n'
}

/// `out` with `cur` added as a token if it is not empty.
pub open spec fn flush(out: Seq<Seq<char>>, cur: Seq<char>) -> Seq<Seq<char>> {
    if cur.len() > 0 {
        out.push(cur)
    } else {
        out
    }
}

/// The tokens of `s` from index `i` on, given the token `cur` being built,
/// the tokens `out` already made and whether a single or double quote is
/// open. `None` when a quote is left open.
pub open spec fn tokens_from(
    s: Seq<char>,
    i: int,
    cur: Seq<char>,
    out: Seq<Seq<char>>,
    sq: bool,
    dq: bool,
) -> Option<Seq<Seq<char>>>
    decreases s.len() - i,
{
    if i < 0 || i >= s.len() {
        if sq || dq {
            None
        } else {
            Some(flush(out, cur))
        }
    } else {
        let c = s[i];
        if c == '\'' && !dq {
            tokens_from(s, i + 1, cur, out, !sq, dq)
        } else if c == '"' && !sq {
            tokens_from(s, i + 1, cur, out, sq, !dq)
        } else if c == '\\' && dq {
            if i + 1 < s.len() {
                if dq_escapable(s[i + 1]) {
                    tokens_from(s, i + 2, cur.push(s[i + 1]), out, sq, dq)
                } else {
                    tokens_from(s, i + 1, cur.push(c), out, sq, dq)
                }
            } else {
                tokens_from(s, i + 1, cur, out, sq, dq)
            }
        } else if c == '\\' && !sq && !dq {
            if i + 1 < s.len() {
                if s[i + 1] != '\n' {
                    tokens_from(s, i + 2, cur.push(s[i + 1]), out, sq, dq)
                } else {
                    tokens_from(s, i + 2, cur, out, sq, dq)
                }
            } else {
                tokens_from(s, i + 1, cur, out, sq, dq)
            }
        } else if spec_is_whitespace(c) && !sq && !dq {
            tokens_from(s, i + 1, Seq::empty(), flush(out, cur), sq, dq)
        } else {
            tokens_from(s, i + 1, cur.push(c), out, sq, dq)
        }
    }
}

/// The tokens of a command line, or `None` for an unclosed quote.
pub open spec fn spec_tokenize(s: Seq<char>) -> Option<Seq<Seq<char>>> {
    tokens_from(joined_lines(s), 0, Seq::empty(), Seq::empty(), false, false)
}

/// Splits a shell-like command line into tokens. Single quotes take
/// everything literally; double quotes allow `\"`, `\\`, `\$`, `` \` ``
/// and `\<newline>` escapes; outside quotes a backslash takes the next
/// character literally and a backslash-newline joins lines. Unquoted
/// whitespace separates tokens. An unclosed quote is an error.
pub fn tokenize(input: &str) -> (r: Result<Vec<String>, String>)
    ensures
        match r {
            Ok(toks) => spec_tokenize(input@) == Some(views(toks@)),
            Err(e) => spec_tokenize(input@) is None && e@ == "unclosed quote"@,
        },
{
    let raw = chars_of(input);
    let lf: Vec<char> = vec!['\\', '\n'];
    let crlf: Vec<char> = vec!['\\', '\r', '\n'];
    let sp: Vec<char> = vec![' '];
    let once = replace_chars(raw.as_slice(), lf.as_slice(), sp.as_slice());
    let s = replace_chars(once.as_slice(), crlf.as_slice(), sp.as_slice());
    assert(lf@ == bs_lf() && crlf@ == bs_crlf() && sp@ == seq![' ']);
    let n = s.len();
    let mut out: Vec<String> = Vec::new();
    let mut cur: Vec<char> = Vec::new();
    let mut sq = false;
    let mut dq = false;
    let mut i: usize = 0;
    assert(views(out@) =~= Seq::<Seq<char>>::empty());
    assert(cur@ =~= Seq::<char>::empty());
    while i < n
        invariant
            i <= n,
            n == s@.len(),
            s@ == joined_lines(input@),
            tokens_from(s@, i as int, cur@, views(out@), sq, dq) == spec_tokenize(input@),
        decreases n - i,
    {
        let c = s[i];
        if c == '\'' && !dq {
            sq = !sq;
            i = i + 1;
        } else if c == '"' && !sq {
            dq = !dq;
            i = i + 1;
        } else if c == '\\' && dq {
            if i + 1 < n {
                let nx = s[i + 1];
                if nx == '"' || nx == '\\' || nx == '$' || nx == '`' || nx == '\n' {
                    cur.push(nx);
                    i = i + 2;
                } else {
                    cur.push(c);
                    i = i + 1;
                }
            } else {
                i = i + 1;
            }
        } else if c == '\\' && !sq && !dq {
            if i + 1 < n {
                let nx = s[i + 1];
                if nx != '\n' {
                    cur.push(nx);
                }
                i = i + 2;
            } else {
                i = i + 1;
            }
        } else if is_whitespace(c) && !sq && !dq {
            if cur.len() > 0 {
                let ghost before = views(out@);
                let tok = string_from(cur.as_slice());
                out.push(tok);
                assert(views(out@) == before.push(cur@));
            }
            cur = Vec::new();
            i = i + 1;
        } else {
            cur.push(c);
            i = i + 1;
        }
    }
    if sq || dq {
        return Err(String::from_str("unclosed quote"));
    }
    if cur.len() > 0 {
        let ghost before = views(out@);
        let tok = string_from(cur.as_slice());
        out.push(tok);
        assert(views(out@) == before.push(cur@));
    }
    Ok(out)
}

} // verus!

verus! {

/// How the curl parser treats a token.
#[derive(Debug, Clone, Copy, PartialEq, Eq)]
pub enum FlagKind {
    /// `-X`, `--request`: the next token is the method.
    Method,
    /// `-H`, `--header`: the next token is a `name: value` header.
    Header,
    /// `-d` and the `--data*` flags: the next token is the body.
    Data,
    /// `--json`: the next token is a JSON body.
    Json,
    /// `--url`: the next token is the URL.
    Url,
    /// Flags whose value is read and dropped (`-u`, `-A`, `--cookie`,
    /// `-F` …): authentication, cookies and multipart forms are not
    /// imported.
    SkipValue,
    /// Flags without a value that do not change the request (`-s`, `-L` …).
    NoValue,
    /// Any other token that begins with `-`: ignored.
    OtherFlag,
    /// Anything else: the URL, if none was given yet.
    Positional,
}

/// How the curl parser treats the token `t`.
pub open spec fn spec_flag_kind(t: Seq<char>) -> FlagKind {
    if t == "-X"@ || t == "--request"@ {
        FlagKind::Method
    } else if t == "-H"@ || t == "--header"@ {
        FlagKind::Header
    } else if t == "-d"@ || t == "--data"@ || t == "--data-raw"@ || t == "--data-binary"@ || t
        == "--data-ascii"@ {
        FlagKind::Data
    } else if t == "--json"@ {
        FlagKind::Json
    } else if t == "--url"@ {
        FlagKind::Url
    } else if t == "-u"@ || t == "--user"@ {
        FlagKind::SkipValue
    } else if t == "--compressed"@ || t == "-i"@ || t == "-s"@ || t == "-S"@ || t == "-L"@ || t
        == "-k"@ || t == "--insecure"@ || t == "-v"@ || t == "--verbose"@ || t == "-4"@ || t
        == "-6"@ || t == "-#"@ || t == "--progress-bar"@ || t == "-N"@ || t == "--no-buffer"@
        || t == "-g"@ || t == "--globoff"@ || t == "-o"@ || t == "-O"@ {
        FlagKind::NoValue
    } else if t == "-A"@ || t == "--user-agent"@ || t == "-e"@ || t == "--referer"@ || t
        == "-b"@ || t == "--cookie"@ || t == "--connect-timeout"@ || t == "--max-time"@ || t
        == "--proxy"@ || t == "-x"@ || t == "-o "@ || t == "-O "@ || t == "--output"@ || t
        == "--upload-file"@ || t == "-T"@ || t == "--cacert"@ || t == "--cert"@ || t
        == "--key"@ || t == "-F"@ || t == "--form"@ {
        FlagKind::SkipValue
    } else if t.len() > 0 && t[0] == '-' {
        FlagKind::OtherFlag
    } else {
        FlagKind::Positional
    }
}

/// Whether `t` equals one of `opts`.
fn is_any(t: &str, opts: &[&str]) -> (r: bool)
    ensures
        r == exists|i: int| 0 <= i < opts@.len() && t@ == (#[trigger] opts@[i])@,
{
    let mut i: usize = 0;
    while i < opts.len()
        invariant
            i <= opts@.len(),
            forall|k: int| 0 <= k < i ==> t@ != (#[trigger] opts@[k])@,
        decreases opts@.len() - i,
    {
        if crate::text::str_eq(t, opts[i]) {
            return true;
        }
        i = i + 1;
    }
    false
}

/// How the curl parser treats the token `t`.
pub fn flag_kind(t: &str) -> (k: FlagKind)
    ensures
        k == spec_flag_kind(t@),
{
    if is_any(t, &["-X", "--request"]) {
        FlagKind::Method
    } else if is_any(t, &["-H", "--header"]) {
        FlagKind::Header
    } else if is_any(t, &["-d", "--data", "--data-raw", "--data-binary", "--data-ascii"]) {
        FlagKind::Data
    } else if is_any(t, &["--json"]) {
        FlagKind::Json
    } else if is_any(t, &["--url"]) {
        FlagKind::Url
    } else if is_any(t, &["-u", "--user"]) {
        FlagKind::SkipValue
    } else if is_any(
        t,
        &[
            "--compressed",
            "-i",
            "-s",
            "-S",
            "-L",
            "-k",
            "--insecure",
            "-v",
            "--verbose",
            "-4",
            "-6",
            "-#",
            "--progress-bar",
            "-N",
            "--no-buffer",
            "-g",
            "--globoff",
            "-o",
            "-O",
        ],
    ) {
        FlagKind::NoValue
    } else if is_any(
        t,
        &[
            "-A",
            "--user-agent",
            "-e",
            "--referer",
            "-b",
            "--cookie",
            "--connect-timeout",
            "--max-time",
            "--proxy",
            "-x",
            "-o ",
            "-O ",
            "--output",
            "--upload-file",
            "-T",
            "--cacert",
            "--cert",
            "--key",
            "-F",
            "--form",
        ],
    ) {
        FlagKind::SkipValue
    } else {
        let v = chars_of(t);
        if v.len() > 0 && v[0] == '-' {
            FlagKind::OtherFlag
        } else {
            FlagKind::Positional
        }
    }
}

} // verus!

verus! {

/// What the curl parser has gathered so far.
pub struct CurlScan {
    pub method: Option<Seq<char>>,
    pub url: Option<Seq<char>>,
    /// Header names and values, in order.
    pub headers: Seq<(Seq<char>, Seq<char>)>,
    pub data: Option<Seq<char>>,
    /// Whether `--json` was given.
    pub json: bool,
}

/// Nothing gathered yet.
pub open spec fn empty_scan() -> CurlScan {
    CurlScan { method: None, url: None, headers: Seq::empty(), data: None, json: false }
}

/// `s` split at its first `:`, as `str::split_once(':')` gives it.
pub open spec fn split_colon(s: Seq<char>) -> Option<(Seq<char>, Seq<char>)> {
    match spec_find(s, seq![':']) {
        Some(i) => Some((s.take(i), s.skip(i + 1))),
        None => None,
    }
}

/// Whether some header is named `content-type`, in any ASCII case.
pub open spec fn has_content_type(hs: Seq<(Seq<char>, Seq<char>)>) -> bool {
    exists|i: int| 0 <= i < hs.len() && spec_eq_ignore_ascii_case((#[trigger] hs[i]).0, "content-type"@)
}

/// Whether some `content-type` header mentions `json`.
pub open spec fn has_json_content_type(hs: Seq<(Seq<char>, Seq<char>)>) -> bool {
    exists|i: int|
        0 <= i < hs.len() && spec_eq_ignore_ascii_case((#[trigger] hs[i]).0, "content-type"@)
            && spec_contains(hs[i].1, "json"@)
}

/// The scan of the tokens from index `i` on, starting from `st`.
pub open spec fn curl_scan(toks: Seq<Seq<char>>, i: int, st: CurlScan) -> CurlScan
    decreases toks.len() - i,
{
    if i < 0 || i >= toks.len() {
        st
    } else {
        let t = toks[i];
        let has_next = i + 1 < toks.len();
        let nx = toks[i + 1];
        let skip2 = if has_next {
            i + 2
        } else {
            i + 1
        };
        match spec_flag_kind(t) {
            FlagKind::Method => curl_scan(
                toks,
                skip2,
                if has_next {
                    CurlScan { method: Some(spec_to_uppercase(nx)), ..st }
                } else {
                    st
                },
            ),
            FlagKind::Header => curl_scan(
                toks,
                skip2,
                if has_next {
                    match split_colon(nx) {
                        Some((k, v)) => CurlScan {
                            headers: st.headers.push((spec_trim(k), spec_trim(v))),
                            ..st
                        },
                        None => st,
                    }
                } else {
                    st
                },
            ),
            FlagKind::Data => curl_scan(
                toks,
                skip2,
                if has_next {
                    CurlScan { data: Some(nx), ..st }
                } else {
                    st
                },
            ),
            FlagKind::Json => curl_scan(
                toks,
                skip2,
                if has_next {
                    CurlScan {
                        data: Some(nx),
                        json: true,
                        headers: if has_content_type(st.headers) {
                            st.headers
                        } else {
                            st.headers.push(("Content-Type"@, "application/json"@))
                        },
                        ..st
                    }
                } else {
                    st
                },
            ),
            FlagKind::Url => curl_scan(
                toks,
                skip2,
                if has_next {
                    CurlScan { url: Some(nx), ..st }
                } else {
                    st
                },
            ),
            FlagKind::SkipValue => curl_scan(toks, skip2, st),
            FlagKind::NoValue => curl_scan(toks, i + 1, st),
            FlagKind::OtherFlag => curl_scan(toks, i + 1, st),
            FlagKind::Positional => curl_scan(
                toks,
                i + 1,
                if st.url is None {
                    CurlScan { url: Some(t), ..st }
                } else {
                    st
                },
            ),
        }
    }
}

/// Whether the body is JSON: `--json` was given, or a `content-type`
/// header mentions `json`.
pub open spec fn body_is_json(st: CurlScan) -> bool {
    st.json || has_json_content_type(st.headers)
}

/// The view of an optional string.
pub open spec fn opt_view(o: Option<String>) -> Option<Seq<char>> {
    match o {
        Some(s) => Some(s@),
        None => None,
    }
}

/// Whether `hs` are the headers gathered in `st`: each enabled, with no
/// type and no description.
pub open spec fn headers_match(hs: Seq<KV>, st: CurlScan) -> bool {
    &&& hs.len() == st.headers.len()
    &&& forall|i: int|
        0 <= i < hs.len() ==> {
            &&& (#[trigger] hs[i]).name@ == st.headers[i].0
            &&& hs[i].value@ == st.headers[i].1
            &&& hs[i].kind is None
            &&& hs[i].description is None
            &&& hs[i].enabled == Some(true)
        }
}

/// Whether `req` is the request built from the scan `st` with URL `url`.
/// The method defaults to POST when there is a body and GET otherwise;
/// a body goes under `json` or `text` by its kind.
pub open spec fn request_from_scan(req: Request, st: CurlScan, url: Seq<char>) -> bool {
    let json = body_is_json(st);
    &&& req.info.name@ == Seq::<char>::empty()
    &&& req.info.kind@ == "http"@
    &&& req.info.seq == 1
    &&& req.http.method@ == match st.method {
        Some(m) => m,
        None => if st.data is Some {
            "POST"@
        } else {
            "GET"@
        },
    }
    &&& req.http.url@ == url
    &&& headers_match(req.http.headers@, st)
    &&& req.http.params@.len() == 0
    &&& req.http.auth is None
    &&& req.http.auth_config is None
    &&& match st.data {
        Some(d) => {
            &&& opt_view(req.http.body.kind) == Some(
                if json {
                    "json"@
                } else {
                    "text"@
                },
            )
            &&& opt_view(req.http.body.json) == if json {
                Some(d)
            } else {
                None
            }
            &&& opt_view(req.http.body.text) == if json {
                None
            } else {
                Some(d)
            }
            &&& req.http.body.data is None
        },
        None => spec_empty_body(req.http.body),
    }
    &&& req.path@ == Seq::<char>::empty()
    &&& req.rel_path@ == Seq::<char>::empty()
    &&& req.id@ == Seq::<char>::empty()
}

/// What `parse_curl` returns for `input`: `Err` with the message, or `Ok`
/// with a request that `request_from_scan` describes.
pub open spec fn parse_curl_result(input: Seq<char>, r: Result<Request, String>) -> bool {
    match spec_tokenize(spec_trim(input)) {
        None => r matches Err(e) && e@ == "unclosed quote"@,
        Some(toks) => if toks.len() == 0 {
            r matches Err(e) && e@ == "empty"@
        } else if !(toks[0] == "curl"@ || spec_ends_with(toks[0], "/curl"@)) {
            r matches Err(e) && e@ == "expected curl, got `"@ + toks[0] + "`"@
        } else {
            let st = curl_scan(toks, 1, empty_scan());
            match st.url {
                None => r matches Err(e) && e@ == "no url in curl"@,
                Some(u) => r matches Ok(req) && request_from_scan(req, st, u),
            }
        },
    }
}

} // verus!

verus! {

/// Header names and values.
pub open spec fn header_pairs(hs: Seq<KV>) -> Seq<(Seq<char>, Seq<char>)> {
    hs.map_values(|h: KV| (h.name@, h.value@))
}

/// The scan that the parser's variables stand for.
pub open spec fn scan_of(
    method: Option<String>,
    url: Option<String>,
    headers: Seq<KV>,
    data: Option<String>,
    json: bool,
) -> CurlScan {
    CurlScan {
        method: opt_view(method),
        url: opt_view(url),
        headers: header_pairs(headers),
        data: opt_view(data),
        json,
    }
}

/// Every header enabled, with no type and no description.
pub open spec fn plain_headers(hs: Seq<KV>) -> bool {
    forall|i: int|
        0 <= i < hs.len() ==> {
            &&& (#[trigger] hs[i]).kind is None
            &&& hs[i].description is None
            &&& hs[i].enabled == Some(true)
        }
}

/// `s` split at its first `:`.
fn split_colon_str(s: &str) -> (r: Option<(String, String)>)
    ensures
        match r {
            Some((a, b)) => split_colon(s@) == Some((a@, b@)),
            None => split_colon(s@) is None,
        },
{
    let v = chars_of(s);
    let colon: Vec<char> = vec![':'];
    assert(colon@ == seq![':']);
    let f = crate::text::find_from(v.as_slice(), 0, colon.as_slice());
    assert(v@.skip(0) == v@);
    match f {
        Some(i) => {
            let vl = v.len();
            assert(i + 1 <= vl);
            let a = crate::text::slice_chars(v.as_slice(), 0, i);
            let b = crate::text::slice_chars(v.as_slice(), i + 1, vl);
            assert(a@ == v@.take(i as int));
            assert(b@ == v@.skip(i + 1));
            Some((string_from(a.as_slice()), string_from(b.as_slice())))
        },
        None => None,
    }
}

/// A header row as the curl parser makes it.
fn plain_kv(name: String, value: String) -> (h: KV)
    ensures
        h.name == name,
        h.value == value,
        h.kind is None,
        h.description is None,
        h.enabled == Some(true),
{
    KV { name, value, kind: None, description: None, enabled: Some(true) }
}

/// Whether some header is named `content-type`, in any ASCII case.
fn any_content_type(hs: &Vec<KV>) -> (r: bool)
    ensures
        r == has_content_type(header_pairs(hs@)),
{
    let mut i: usize = 0;
    while i < hs.len()
        invariant
            i <= hs@.len(),
            forall|k: int|
                0 <= k < i ==> !spec_eq_ignore_ascii_case(
                    (#[trigger] header_pairs(hs@)[k]).0,
                    "content-type"@,
                ),
        decreases hs@.len() - i,
    {
        if crate::text::str_eq_ignore_ascii_case(hs[i].name.as_str(), "content-type") {
            assert(header_pairs(hs@)[i as int].0 == hs@[i as int].name@);
            return true;
        }
        i = i + 1;
    }
    false
}

/// Whether some `content-type` header mentions `json`.
fn any_json_content_type(hs: &Vec<KV>) -> (r: bool)
    ensures
        r == has_json_content_type(header_pairs(hs@)),
{
    let json = chars_of("json");
    let mut i: usize = 0;
    while i < hs.len()
        invariant
            i <= hs@.len(),
            json@ == "json"@,
            forall|k: int|
                0 <= k < i ==> !(spec_eq_ignore_ascii_case(
                    (#[trigger] header_pairs(hs@)[k]).0,
                    "content-type"@,
                ) && spec_contains(header_pairs(hs@)[k].1, "json"@)),
        decreases hs@.len() - i,
    {
        let is_ct = crate::text::str_eq_ignore_ascii_case(hs[i].name.as_str(), "content-type");
        let v = chars_of(hs[i].value.as_str());
        let has = crate::text::contains_chars(v.as_slice(), json.as_slice());
        assert(header_pairs(hs@)[i as int] == (hs@[i as int].name@, hs@[i as int].value@));
        if is_ct && has {
            return true;
        }
        i = i + 1;
    }
    false
}

/// Parses a curl command line into a request.
///
/// Inference rules:
/// - a body (`-d`, `--data*`, `--json`) without `-X` makes the method POST,
///   otherwise it is GET;
/// - `--json` makes the body JSON and adds `Content-Type: application/json`
///   unless a content-type header is there already;
/// - a content-type header that mentions `json` makes the body JSON;
/// - otherwise the body is text.
pub fn parse_curl(input: &str) -> (r: Result<Request, String>)
    ensures
        parse_curl_result(input@, r),
{
    let trimmed = crate::text::trim_str(input);
    let toks = match tokenize(trimmed.as_str()) {
        Ok(t) => t,
        Err(e) => {
            return Err(e);
        },
    };
    let ghost tv = views(toks@);
    if toks.len() == 0 {
        return Err(String::from_str("empty"));
    }
    let first = &toks[0];
    assert(tv[0] == first@);
    let fc = chars_of(first.as_str());
    let tail = chars_of("/curl");
    if !crate::text::str_eq(first.as_str(), "curl") && !crate::text::ends_with(
        fc.as_slice(),
        tail.as_slice(),
    ) {
        let mut msg = chars_of("expected curl, got `");
        let ghost m0 = msg@;
        crate::text::extend_chars(&mut msg, fc.as_slice());
        msg.push('`');
        proof {
            reveal_strlit("`");
        }
        assert(msg@ =~= m0 + first@ + "`"@);
        let e = string_from(msg.as_slice());
        assert(spec_tokenize(spec_trim(input@)) == Some(tv));
        assert(!(tv[0] == "curl"@ || spec_ends_with(tv[0], "/curl"@)));
        return Err(e);
    }
    let mut method: Option<String> = None;
    let mut url: Option<String> = None;
    let mut headers: Vec<KV> = Vec::new();
    let mut data: Option<String> = None;
    let mut json = false;
    let n = toks.len();
    let mut i: usize = 1;
    assert(header_pairs(headers@) =~= Seq::<(Seq<char>, Seq<char>)>::empty());
    assert(scan_of(method, url, headers@, data, json) == empty_scan());
    while i < n
        invariant
            1 <= i <= n,
            n == toks@.len(),
            tv == views(toks@),
            plain_headers(headers@),
            curl_scan(tv, i as int, scan_of(method, url, headers@, data, json)) == curl_scan(
                tv,
                1,
                empty_scan(),
            ),
        decreases n - i,
    {
        let t = &toks[i];
        assert(tv[i as int] == t@);
        let has_next = i + 1 < n;
        if has_next {
            assert(tv[i + 1] == toks@[i + 1]@);
        }
        let ghost st = scan_of(method, url, headers@, data, json);
        let k = flag_kind(t.as_str());
        match k {
            FlagKind::Method => {
                if has_next {
                    method = Some(crate::text::to_uppercase(toks[i + 1].as_str()));
                    i = i + 2;
                } else {
                    i = i + 1;
                }
            },
            FlagKind::Header => {
                if has_next {
                    match split_colon_str(toks[i + 1].as_str()) {
                        Some((a, b)) => {
                            let h = plain_kv(crate::text::trim_str(a.as_str()), crate::text::trim_str(b.as_str()));
                            let ghost before = headers@;
                            headers.push(h);
                            assert(header_pairs(headers@) =~= header_pairs(before).push((h.name@, h.value@)));
                        },
                        None => {},
                    }
                    i = i + 2;
                } else {
                    i = i + 1;
                }
            },
            FlagKind::Data => {
                if has_next {
                    data = Some(toks[i + 1].clone());
                    i = i + 2;
                } else {
                    i = i + 1;
                }
            },
            FlagKind::Json => {
                if has_next {
                    data = Some(toks[i + 1].clone());
                    json = true;
                    if !any_content_type(&headers) {
                        let h = plain_kv(String::from_str("Content-Type"), String::from_str("application/json"));
                        let ghost before = headers@;
                        headers.push(h);
                        assert(header_pairs(headers@) =~= header_pairs(before).push((h.name@, h.value@)));
                    }
                    i = i + 2;
                } else {
                    i = i + 1;
                }
            },
            FlagKind::Url => {
                if has_next {
                    url = Some(toks[i + 1].clone());
                    i = i + 2;
                } else {
                    i = i + 1;
                }
            },
            FlagKind::SkipValue => {
                if has_next {
                    i = i + 2;
                } else {
                    i = i + 1;
                }
            },
            FlagKind::NoValue => {
                i = i + 1;
            },
            FlagKind::OtherFlag => {
                i = i + 1;
            },
            FlagKind::Positional => {
                if url.is_none() {
                    url = Some(t.clone());
                }
                i = i + 1;
            },
        }
    }
    let ghost st = scan_of(method, url, headers@, data, json);
    assert(st == curl_scan(tv, 1, empty_scan()));
    let url = match url {
        Some(u) => u,
        None => {
            return Err(String::from_str("no url in curl"));
        },
    };
    let is_json = json || any_json_content_type(&headers);
    let method = match method {
        Some(m) => m,
        None => if data.is_some() {
            String::from_str("POST")
        } else {
            String::from_str("GET")
        },
    };
    let body = match data {
        Some(d) => {
            if is_json {
                Body {
                    kind: Some(String::from_str("json")),
                    json: Some(d),
                    text: None,
                    data: None,
                }
            } else {
                Body {
                    kind: Some(String::from_str("text")),
                    json: None,
                    text: Some(d),
                    data: None,
                }
            }
        },
        None => empty_body(),
    };
    Ok(
        Request {
            info: Info { name: String::new(), kind: String::from_str("http"), seq: 1 },
            http: HttpSpec {
                method,
                url,
                headers,
                params: Vec::new(),
                body,
                auth: None,
                auth_config: None,
            },
            path: String::new(),
            rel_path: String::new(),
            id: String::new(),
        },
    )
}

} // verus!

verus! {

/// `'\''`: how a single quote is written inside single quotes.
pub open spec fn quote_escape() -> Seq<char> {
    seq!['\'', '\\', '\'', '\'']
}

/// `s` in single quotes for a POSIX shell, each `'` written as `'\''`.
pub open spec fn spec_shell_escape(s: Seq<char>) -> Seq<char> {
    seq!['\''] + spec_replace(s, seq!['\''], quote_escape()) + seq!['\'']
}

/// Quotes `s` for a POSIX shell.
pub fn shell_escape(s: &str) -> (r: String)
    ensures
        r@ == spec_shell_escape(s@),
{
    let v = chars_of(s);
    let q: Vec<char> = vec!['\''];
    let e: Vec<char> = vec!['\'', '\\', '\'', '\''];
    assert(q@ == seq!['\''] && e@ == quote_escape());
    let body = replace_chars(v.as_slice(), q.as_slice(), e.as_slice());
    let mut out: Vec<char> = vec!['\''];
    crate::text::extend_chars(&mut out, body.as_slice());
    out.push('\'');
    assert(out@ =~= spec_shell_escape(s@));
    string_from(out.as_slice())
}

/// The lines joined with `sep` between them.
pub open spec fn spec_join(lines: Seq<Seq<char>>, sep: Seq<char>) -> Seq<char>
    decreases lines.len(),
{
    if lines.len() == 0 {
        Seq::empty()
    } else if lines.len() == 1 {
        lines[0]
    } else {
        spec_join(lines.drop_last(), sep) + sep + lines.last()
    }
}

/// Joins the lines with `sep` between them.
pub fn join_lines(lines: &Vec<Vec<char>>, sep: &[char]) -> (r: Vec<char>)
    ensures
        r@ == spec_join(lines@.map_values(|l: Vec<char>| l@), sep@),
{
    let ghost lv = lines@.map_values(|l: Vec<char>| l@);
    let mut out: Vec<char> = Vec::new();
    let mut i: usize = 0;
    assert(lv.take(0) =~= Seq::<Seq<char>>::empty());
    while i < lines.len()
        invariant
            i <= lines@.len(),
            lv == lines@.map_values(|l: Vec<char>| l@),
            out@ == spec_join(lv.take(i as int), sep@),
        decreases lines@.len() - i,
    {
        if i > 0 {
            crate::text::extend_chars(&mut out, sep);
        }
        crate::text::extend_chars(&mut out, lines[i].as_slice());
        assert(lv.take(i + 1).drop_last() =~= lv.take(i as int));
        assert(lv.take(i + 1).last() == lines@[i as int]@);
        if i == 0 {
            assert(out@ =~= lines@[0]@);
        }
        i = i + 1;
    }
    assert(lv.take(lines@.len() as int) =~= lv);
    out
}

} // verus!

verus! {

/// Whether a row is enabled: only `Some(false)` disables it.
pub open spec fn kv_enabled(h: KV) -> bool {
    h.enabled != Some(false)
}

/// The `-H` lines of the curl command for the headers `hs`.
pub open spec fn curl_header_lines(hs: Seq<KV>, vars: Map<Seq<char>, Seq<char>>) -> Seq<Seq<char>>
    decreases hs.len(),
{
    if hs.len() == 0 {
        Seq::empty()
    } else {
        let prev = curl_header_lines(hs.drop_last(), vars);
        let h = hs.last();
        if kv_enabled(h) {
            prev.push(
                "  -H "@ + spec_shell_escape(
                    h.name@ + ": "@ + spec_substitute(h.value@, vars).0,
                ),
            )
        } else {
            prev
        }
    }
}

/// The body text the curl command sends: `data`, else `json`, else `text`.
pub open spec fn curl_body_raw(b: Body) -> Seq<char> {
    match b.data {
        Some(d) => d@,
        None => match b.json {
            Some(j) => j@,
            None => match b.text {
                Some(t) => t@,
                None => Seq::empty(),
            },
        },
    }
}

/// The lines of the curl command for `req`.
pub open spec fn spec_curl_lines(req: Request, vars: Map<Seq<char>, Seq<char>>) -> Seq<Seq<char>> {
    let first = "curl -X "@ + spec_to_uppercase(req.http.method@) + " "@ + spec_shell_escape(
        spec_substitute(req.http.url@, vars).0,
    );
    let raw = curl_body_raw(req.http.body);
    let data = if req.http.body.kind is Some && raw.len() > 0 {
        seq!["  --data "@ + spec_shell_escape(spec_substitute(raw, vars).0)]
    } else {
        Seq::empty()
    };
    seq![first] + curl_header_lines(req.http.headers@, vars) + data
}

/// The curl command for `req`, with `{{vars}}` filled in.
pub open spec fn spec_build_curl(req: Request, vars: Map<Seq<char>, Seq<char>>) -> Seq<char> {
    spec_join(spec_curl_lines(req, vars), " \\\n"@)
}

/// The characters of `a` followed by those of `b`.
fn cat(a: &str, b: &[char]) -> (r: Vec<char>)
    ensures
        r@ == a@ + b@,
{
    let mut v = chars_of(a);
    crate::text::extend_chars(&mut v, b);
    v
}

/// The body text the curl command sends.
fn body_raw(b: &Body) -> (r: String)
    ensures
        r@ == curl_body_raw(*b),
{
    match &b.data {
        Some(d) => d.clone(),
        None => match &b.json {
            Some(j) => j.clone(),
            None => match &b.text {
                Some(t) => t.clone(),
                None => String::new(),
            },
        },
    }
}

/// A curl command that sends `req`, with `{{vars}}` filled in from `vars`:
/// method and URL, one `-H` per enabled header, and `--data` when the body
/// has a kind and some text. Lines are joined by backslash-newline.
pub fn build_curl(req: &Request, vars: &StrMap) -> (r: String)
    ensures
        r@ == spec_build_curl(*req, vars.as_map()),
{
    let (url, _) = crate::http::substitute(req.http.url.as_str(), vars);
    let method = crate::text::to_uppercase(req.http.method.as_str());
    let mut first = cat("curl -X ", chars_of(method.as_str()).as_slice());
    let sp = chars_of(" ");
    crate::text::extend_chars(&mut first, sp.as_slice());
    let qurl = shell_escape(url.as_str());
    crate::text::extend_chars(&mut first, chars_of(qurl.as_str()).as_slice());
    let mut lines: Vec<Vec<char>> = vec![first];
    let ghost base = lines@.map_values(|l: Vec<char>| l@);
    let mut i: usize = 0;
    assert(req.http.headers@.take(0) =~= Seq::<KV>::empty());
    assert(lines@.map_values(|l: Vec<char>| l@) =~= base + curl_header_lines(Seq::<KV>::empty(), vars.as_map()));
    while i < req.http.headers.len()
        invariant
            i <= req.http.headers@.len(),
            base.len() == 1,
            lines@.map_values(|l: Vec<char>| l@) == base + curl_header_lines(
                req.http.headers@.take(i as int),
                vars.as_map(),
            ),
        decreases req.http.headers@.len() - i,
    {
        let h = &req.http.headers[i];
        let ghost hs = req.http.headers@.take(i + 1);
        assert(hs.drop_last() =~= req.http.headers@.take(i as int));
        assert(hs.last() == *h);
        if h.enabled != Some(false) {
            let (v, _) = crate::http::substitute(h.value.as_str(), vars);
            let mut nv = chars_of(h.name.as_str());
            crate::text::extend_str(&mut nv, ": ");
            crate::text::extend_chars(&mut nv, chars_of(v.as_str()).as_slice());
            let q = shell_escape(string_from(nv.as_slice()).as_str());
            let line = cat("  -H ", chars_of(q.as_str()).as_slice());
            let ghost before = lines@.map_values(|l: Vec<char>| l@);
            lines.push(line);
            assert(lines@.map_values(|l: Vec<char>| l@) =~= before.push(line@));
        }
        i = i + 1;
    }
    assert(req.http.headers@.take(req.http.headers@.len() as int) =~= req.http.headers@);
    if req.http.body.kind.is_some() {
        let raw = body_raw(&req.http.body);
        if !raw.as_str().is_empty() {
            let (b, _) = crate::http::substitute(raw.as_str(), vars);
            let q = shell_escape(b.as_str());
            let line = cat("  --data ", chars_of(q.as_str()).as_slice());
            let ghost before = lines@.map_values(|l: Vec<char>| l@);
            lines.push(line);
            assert(lines@.map_values(|l: Vec<char>| l@) =~= before.push(line@));
        }
    }
    assert(lines@.map_values(|l: Vec<char>| l@) =~= spec_curl_lines(*req, vars.as_map()));
    let sep = chars_of(" \\\n");
    let joined = join_lines(&lines, sep.as_slice());
    string_from(joined.as_slice())
}

} // verus!

verus! {

/// Inside single quotes, a run without `'` is taken as it stands.
proof fn lemma_sq_literal(
    x: Seq<char>,
    i: int,
    t: Seq<char>,
    cur: Seq<char>,
    out: Seq<Seq<char>>,
)
    requires
        0 <= i,
        i + t.len() <= x.len(),
        x.subrange(i, i + t.len()) == t,
        forall|k: int| 0 <= k < t.len() ==> t[k] != '\'',
    ensures
        tokens_from(x, i, cur, out, true, false) == tokens_from(
            x,
            i + t.len(),
            cur + t,
            out,
            true,
            false,
        ),
    decreases t.len(),
{
    if t.len() == 0 {
        assert(cur + t =~= cur);
    } else {
        assert(x[i] == x.subrange(i, i + t.len())[0]);
        let t1 = t.drop_first();
        assert(x.subrange(i + 1, i + 1 + t1.len()) =~= t1) by {
            assert forall|k: int| 0 <= k < t1.len() implies x.subrange(i + 1, i + 1 + t1.len())[k]
                == t1[k] by {
                assert(x.subrange(i, i + t.len())[k + 1] == x[i + 1 + k]);
            }
        }
        lemma_sq_literal(x, i + 1, t1, cur.push(t[0]), out);
        assert(cur.push(t[0]) + t1 =~= cur + t);
    }
}

/// The quoted text of `spec_shell_escape`, with its closing quote, reads
/// back as `s`.
pub(crate) proof fn lemma_sq_escaped(x: Seq<char>, i: int, s: Seq<char>, cur: Seq<char>, out: Seq<Seq<char>>)
    requires
        0 <= i,
        i + spec_replace(s, seq!['\''], quote_escape()).len() + 1 <= x.len(),
        x.subrange(i, i + spec_replace(s, seq!['\''], quote_escape()).len() + 1) == spec_replace(
            s,
            seq!['\''],
            quote_escape(),
        ) + seq!['\''],
    ensures
        tokens_from(x, i, cur, out, true, false) == tokens_from(
            x,
            i + spec_replace(s, seq!['\''], quote_escape()).len() + 1,
            cur + s,
            out,
            false,
            false,
        ),
    decreases s.len(),
{
    let q = seq!['\''];
    let e = quote_escape();
    let r = spec_replace(s, q, e);
    let w = x.subrange(i, i + r.len() + 1);
    lemma_find_sound(s, q);
    match spec_find(s, q) {
        None => {
            assert(r == s);
            assert forall|k: int| 0 <= k < s.len() implies s[k] != '\'' by {
                if s[k] == '\'' {
                    assert(s.subrange(k, k + 1) =~= q);
                    assert(occurs_at(s, q, k));
                }
            }
            assert(x.subrange(i, i + s.len()) =~= s) by {
                assert forall|k: int| 0 <= k < s.len() implies x.subrange(i, i + s.len())[k] == s[k] by {
                    assert(w[k] == x[i + k]);
                    assert(w[k] == (s + q)[k]);
                }
            }
            lemma_sq_literal(x, i, s, cur, out);
            assert(w[s.len() as int] == x[i + s.len()]);
            assert(x[i + s.len()] == '\'');
        },
        Some(j) => {
            let t = s.take(j);
            let rest = s.skip(j + 1);
            let rr = spec_replace(rest, q, e);
            assert(r == t + e + rr);
            assert(s.subrange(j, j + 1) == q);
            assert(s.subrange(j, j + 1)[0] == s[j]);
            assert(s[j] == '\'');
            assert(s =~= t + q + rest);
            assert forall|k: int| 0 <= k < t.len() implies t[k] != '\'' by {
                if t[k] == '\'' {
                    assert(s.subrange(k, k + 1) =~= q);
                    assert(occurs_at(s, q, k));
                }
            }
            assert forall|k: int| 0 <= k < r.len() + 1 implies x[i + k] == (r + q)[k] by {
                assert(w[k] == x[i + k]);
            }
            assert(x.subrange(i, i + j) =~= t) by {
                assert forall|k: int| 0 <= k < j implies x.subrange(i, i + j)[k] == t[k] by {
                    assert(x[i + k] == (r + q)[k]);
                }
            }
            lemma_sq_literal(x, i, t, cur, out);
            assert(x[i + j] == (r + q)[j]);
            assert(x[i + j + 1] == (r + q)[j + 1]);
            assert(x[i + j + 2] == (r + q)[j + 2]);
            assert(x[i + j + 3] == (r + q)[j + 3]);
            assert(x[i + j] == '\'');
            assert(x[i + j + 1] == '\\');
            assert(x[i + j + 2] == '\'');
            assert(x[i + j + 3] == '\'');
            let c1 = cur + t;
            let c2 = c1.push('\'');
            assert(tokens_from(x, i + j, c1, out, true, false) == tokens_from(
                x,
                i + j + 1,
                c1,
                out,
                false,
                false,
            ));
            assert(tokens_from(x, i + j + 1, c1, out, false, false) == tokens_from(
                x,
                i + j + 3,
                c2,
                out,
                false,
                false,
            ));
            assert(tokens_from(x, i + j + 3, c2, out, false, false) == tokens_from(
                x,
                i + j + 4,
                c2,
                out,
                true,
                false,
            ));
            assert(x.subrange(i + j + 4, i + j + 4 + rr.len() + 1) =~= rr + q) by {
                assert forall|k: int| 0 <= k < rr.len() + 1 implies x.subrange(
                    i + j + 4,
                    i + j + 4 + rr.len() + 1,
                )[k] == (rr + q)[k] by {
                    assert(x[i + j + 4 + k] == (r + q)[j + 4 + k]);
                }
            }
            lemma_sq_escaped(x, i + j + 4, rest, c2, out);
            assert(c2 + rest =~= cur + s);
        },
    }
}

/// A pattern without `'` and at least two characters long that occurs in
/// the quoted form of `s` occurs in `s`.
proof fn lemma_escaped_occurrence(s: Seq<char>, p: Seq<char>, k: int)
    requires
        p.len() >= 2,
        forall|d: int| 0 <= d < p.len() ==> p[d] != '\'',
        occurs_at(spec_replace(s, seq!['\''], quote_escape()), p, k),
    ensures
        exists|m: int| occurs_at(s, p, m),
    decreases s.len(),
{
    let q = seq!['\''];
    let e = quote_escape();
    let r = spec_replace(s, q, e);
    lemma_find_sound(s, q);
    match spec_find(s, q) {
        None => {
            assert(occurs_at(s, p, k));
        },
        Some(j) => {
            let t = s.take(j);
            let rest = s.skip(j + 1);
            let rr = spec_replace(rest, q, e);
            assert(r == t + e + rr);
            assert(forall|d: int| 0 <= d < p.len() ==> r[k + d] == #[trigger] p[d]) by {
                assert forall|d: int| 0 <= d < p.len() implies r[k + d] == #[trigger] p[d] by {
                    assert(r.subrange(k, k + p.len())[d] == r[k + d]);
                }
            }
            if k + p.len() <= j {
                assert(s.subrange(k, k + p.len()) =~= r.subrange(k, k + p.len()));
                assert(occurs_at(s, p, k));
            } else if k >= j + 4 {
                assert(rr.subrange(k - j - 4, k - j - 4 + p.len()) =~= r.subrange(k, k + p.len()));
                assert(occurs_at(rr, p, k - j - 4));
                lemma_escaped_occurrence(rest, p, k - j - 4);
                let m = choose|m: int| occurs_at(rest, p, m);
                assert(s.subrange(m + j + 1, m + j + 1 + p.len()) =~= rest.subrange(m, m + p.len()));
                assert(occurs_at(s, p, m + j + 1));
            } else if k <= j {
                assert(r[j] == '\'');
                assert(p[j - k] == r[k + (j - k)]);
            } else if k == j + 1 {
                assert(r[j + 2] == '\'');
                assert(p[1] == r[k + 1]);
            } else {
                assert(r[k] == '\'');
                assert(p[0] == r[k + 0]);
            }
        },
    }
}

/// The quoted form of a text without a line continuation has none either.
pub(crate) proof fn lemma_escape_keeps_lines(s: Seq<char>, p: Seq<char>)
    requires
        p == bs_lf() || p == bs_crlf(),
        !spec_contains(s, p),
    ensures
        spec_replace(spec_shell_escape(s), p, seq![' ']) == spec_shell_escape(s),
        !spec_contains(spec_shell_escape(s), p),
{
    let x = spec_shell_escape(s);
    let r = spec_replace(s, seq!['\''], quote_escape());
    lemma_find_sound(s, p);
    lemma_find_sound(x, p);
    if spec_find(x, p) is Some {
        let k = spec_find(x, p)->0;
        assert(occurs_at(x, p, k));
        assert(forall|d: int| 0 <= d < p.len() ==> x[k + d] == #[trigger] p[d]) by {
            assert forall|d: int| 0 <= d < p.len() implies x[k + d] == #[trigger] p[d] by {
                assert(x.subrange(k, k + p.len())[d] == x[k + d]);
            }
        }
        if k == 0 {
            assert(x[0] == '\'');
            assert(p[0] == x[k + 0]);
        } else if k + p.len() == x.len() {
            assert(x[x.len() - 1] == '\'');
            assert(p[p.len() - 1] == x[k + (p.len() - 1)]);
        } else {
            assert(r.subrange(k - 1, k - 1 + p.len()) =~= x.subrange(k, k + p.len()));
            lemma_escaped_occurrence(s, p, k - 1);
        }
    }
}

/// A text that is not empty and holds no line continuation comes back
/// from the tokenizer, quoted with `spec_shell_escape`, as one token equal
/// to itself.
pub proof fn law_shell_escape_round_trip(s: Seq<char>)
    requires
        s.len() > 0,
        !spec_contains(s, bs_lf()),
        !spec_contains(s, bs_crlf()),
    ensures
        spec_tokenize(spec_shell_escape(s)) == Some(seq![s]),
{
    let x = spec_shell_escape(s);
    let r = spec_replace(s, seq!['\''], quote_escape());
    lemma_escape_keeps_lines(s, bs_lf());
    lemma_escape_keeps_lines(s, bs_crlf());
    assert(joined_lines(x) == x);
    assert(x[0] == '\'');
    let empty = Seq::<char>::empty();
    let none = Seq::<Seq<char>>::empty();
    assert(tokens_from(x, 0, empty, none, false, false) == tokens_from(x, 1, empty, none, true, false));
    assert(x.subrange(1, 1 + r.len() as int + 1) =~= r + seq!['\'']);
    lemma_sq_escaped(x, 1, s, empty, none);
    assert(empty + s =~= s);
    assert(flush(none, s) =~= seq![s]);
}

} // verus!

verus! {

/// Whether a flag of this kind takes the next token as its value.
pub open spec fn takes_value(k: FlagKind) -> bool {
    match k {
        FlagKind::Method | FlagKind::Header | FlagKind::Data | FlagKind::Json | FlagKind::Url
        | FlagKind::SkipValue => true,
        _ => false,
    }
}

/// The index the parser reads after the token at `i`: past its value when
/// it takes one and one follows.
pub open spec fn next_flag_index(toks: Seq<Seq<char>>, i: int) -> int {
    if takes_value(spec_flag_kind(toks[i])) && i + 1 < toks.len() {
        i + 2
    } else {
        i + 1
    }
}

/// The method after the tokens from `i` on, starting from `m`: each
/// `-X`/`--request` followed by a token sets it to that token upper-cased,
/// so the last one wins.
pub open spec fn method_after(toks: Seq<Seq<char>>, i: int, m: Option<Seq<char>>) -> Option<Seq<char>>
    decreases toks.len() - i,
{
    if i < 0 || i >= toks.len() {
        m
    } else {
        method_after(
            toks,
            next_flag_index(toks, i),
            if spec_flag_kind(toks[i]) == FlagKind::Method && i + 1 < toks.len() {
                Some(spec_to_uppercase(toks[i + 1]))
            } else {
                m
            },
        )
    }
}

/// The body after the tokens from `i` on, starting from `d`: each data
/// flag or `--json` followed by a token sets it to that token, so the last
/// one wins.
pub open spec fn data_after(toks: Seq<Seq<char>>, i: int, d: Option<Seq<char>>) -> Option<Seq<char>>
    decreases toks.len() - i,
{
    if i < 0 || i >= toks.len() {
        d
    } else {
        data_after(
            toks,
            next_flag_index(toks, i),
            if (spec_flag_kind(toks[i]) == FlagKind::Data || spec_flag_kind(toks[i])
                == FlagKind::Json) && i + 1 < toks.len() {
                Some(toks[i + 1])
            } else {
                d
            },
        )
    }
}

proof fn lemma_scan_method_data(toks: Seq<Seq<char>>, i: int, st: CurlScan)
    requires
        0 <= i,
    ensures
        curl_scan(toks, i, st).method == method_after(toks, i, st.method),
        curl_scan(toks, i, st).data == data_after(toks, i, st.data),
    decreases toks.len() - i,
{
    if i < toks.len() {
        let t = toks[i];
        let has_next = i + 1 < toks.len();
        let nx = toks[i + 1];
        let st2 = match spec_flag_kind(t) {
            FlagKind::Method => if has_next {
                CurlScan { method: Some(spec_to_uppercase(nx)), ..st }
            } else {
                st
            },
            FlagKind::Header => if has_next {
                match split_colon(nx) {
                    Some((k, v)) => CurlScan {
                        headers: st.headers.push((spec_trim(k), spec_trim(v))),
                        ..st
                    },
                    None => st,
                }
            } else {
                st
            },
            FlagKind::Data => if has_next {
                CurlScan { data: Some(nx), ..st }
            } else {
                st
            },
            FlagKind::Json => if has_next {
                CurlScan {
                    data: Some(nx),
                    json: true,
                    headers: if has_content_type(st.headers) {
                        st.headers
                    } else {
                        st.headers.push(("Content-Type"@, "application/json"@))
                    },
                    ..st
                }
            } else {
                st
            },
            FlagKind::Url => if has_next {
                CurlScan { url: Some(nx), ..st }
            } else {
                st
            },
            FlagKind::Positional => if st.url is None {
                CurlScan { url: Some(t), ..st }
            } else {
                st
            },
            _ => st,
        };
        assert(curl_scan(toks, i, st) == curl_scan(toks, next_flag_index(toks, i), st2));
        lemma_scan_method_data(toks, next_flag_index(toks, i), st2);
    }
}

/// What the curl parser reads in general: the request carries no
/// parameters, no authentication and no location; its method is the last
/// `-X`/`--request` value upper-cased, else POST when a body was given and
/// GET otherwise; and its body is empty exactly when no data flag or
/// `--json` was followed by a token.
pub proof fn law_parse_curl_method_and_body(input: Seq<char>, r: Result<Request, String>)
    requires
        parse_curl_result(input, r),
        r is Ok,
    ensures
        ({
            let toks = spec_tokenize(spec_trim(input))->0;
            let q = r->Ok_0;
            &&& q.http.params@.len() == 0
            &&& q.http.auth is None
            &&& q.http.auth_config is None
            &&& q.path@.len() == 0 && q.rel_path@.len() == 0 && q.id@.len() == 0
            &&& q.http.method@ == match method_after(toks, 1, None) {
                Some(m) => m,
                None => if data_after(toks, 1, None) is Some {
                    "POST"@
                } else {
                    "GET"@
                },
            }
            &&& (spec_empty_body(q.http.body) <==> data_after(toks, 1, None) is None)
        }),
{
    let toks = spec_tokenize(spec_trim(input))->0;
    lemma_scan_method_data(toks, 1, empty_scan());
}

} // verus!

verus! {

/// The last line of an exported command that sends the body text `b`.
pub open spec fn data_line_tail(b: Seq<char>, vars: Map<Seq<char>, Seq<char>>) -> Seq<char> {
    " \\\n"@ + "  --data "@ + spec_shell_escape(spec_substitute(b, vars).0)
}

/// The exported command sends the body that a request stores under
/// `data`, else under `json`, else under `text`, with `{{vars}}` filled
/// in, as its last line: for a body with a type, the command ends with
/// `--data` and that text quoted.
pub proof fn law_exported_body(req: Request, vars: Map<Seq<char>, Seq<char>>)
    requires
        req.http.body.kind is Some,
    ensures
        (req.http.body.data is Some && req.http.body.data->0@.len() > 0) ==> spec_ends_with(
            spec_build_curl(req, vars),
            data_line_tail(req.http.body.data->0@, vars),
        ),
        (req.http.body.data is None && req.http.body.json is Some && req.http.body.json->0@.len()
            > 0) ==> spec_ends_with(
            spec_build_curl(req, vars),
            data_line_tail(req.http.body.json->0@, vars),
        ),
        (req.http.body.data is None && req.http.body.json is None && req.http.body.text is Some
            && req.http.body.text->0@.len() > 0) ==> spec_ends_with(
            spec_build_curl(req, vars),
            data_line_tail(req.http.body.text->0@, vars),
        ),
{
    let raw = curl_body_raw(req.http.body);
    if raw.len() > 0 {
        let ls = spec_curl_lines(req, vars);
        let last = "  --data "@ + spec_shell_escape(spec_substitute(raw, vars).0);
        assert(ls.len() >= 2);
        assert(ls.last() == last);
        let j = spec_build_curl(req, vars);
        let pre = spec_join(ls.drop_last(), " \\\n"@);
        assert(j == pre + " \\\n"@ + last);
        let tail = " \\\n"@ + last;
        assert(j.skip(j.len() - tail.len()) =~= tail);
        assert(tail =~= data_line_tail(raw, vars));
    }
}

} // verus!
