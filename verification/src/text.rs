//! Character-level helpers on the `Seq<char>` view of strings.
use vstd::prelude::*;

verus! {

/// The Unicode `White_Space` property, as `char::is_whitespace` documents it.
pub open spec fn spec_is_whitespace(c: char) -> bool {
    let u = c as u32;
    (9 <= u && u <= 13) || u == 32 || u == 0x85 || u == 0xa0 || u == 0x1680 || (0x2000 <= u
        && u <= 0x200a) || u == 0x2028 || u == 0x2029 || u == 0x202f || u == 0x205f || u == 0x3000
}

/// The views of a list of strings.
pub open spec fn views(v: Seq<String>) -> Seq<Seq<char>> {
    v.map_values(|x: String| x@)
}

/// Whether `c` is whitespace in the sense of `char::is_whitespace`.
pub fn is_whitespace(c: char) -> (r: bool)
    ensures
        r == spec_is_whitespace(c),
{
    let u = c as u32;
    (9 <= u && u <= 13) || u == 32 || u == 0x85 || u == 0xa0 || u == 0x1680 || (0x2000 <= u
        && u <= 0x200a) || u == 0x2028 || u == 0x2029 || u == 0x202f || u == 0x205f || u == 0x3000
}

/// The characters of `s`, in order.
pub fn chars_of(s: &str) -> (v: Vec<char>)
    ensures
        v@ == s@,
{
    let mut v: Vec<char> = Vec::new();
    for c in it: s.chars()
        invariant
            v@ == it.seq().take(it.index() as int),
    {
        v.push(c);
    }
    v
}

} // verus!

verus! {

/// Appends `c` to `s`. Calls `String::push`, whose documentation says it
/// appends the given char to the end of the string.
#[verifier::external_body]
fn push_char(s: &mut String, c: char)
    ensures
        final(s)@ == old(s)@.push(c),
{
    s.push(c);
}

/// A `String` holding exactly the characters of `v`.
pub fn string_from(v: &[char]) -> (s: String)
    ensures
        s@ == v@,
{
    let mut s = String::new();
    let mut i: usize = 0;
    while i < v.len()
        invariant
            i <= v@.len(),
            s@ == v@.take(i as int),
        decreases v@.len() - i,
    {
        push_char(&mut s, v[i]);
        i = i + 1;
        assert(v@.take(i as int) == v@.take((i - 1) as int).push(v@[i - 1]));
    }
    assert(v@.take(v@.len() as int) == v@);
    s
}

/// Appends all of `src` to `dst`.
pub fn extend_chars(dst: &mut Vec<char>, src: &[char])
    ensures
        final(dst)@ == old(dst)@ + src@,
{
    let mut i: usize = 0;
    while i < src.len()
        invariant
            i <= src@.len(),
            dst@ == old(dst)@ + src@.take(i as int),
        decreases src@.len() - i,
    {
        dst.push(src[i]);
        i = i + 1;
        assert(src@.take(i as int) == src@.take((i - 1) as int).push(src@[i - 1]));
    }
    assert(src@.take(src@.len() as int) == src@);
}

/// Appends the characters of `src` to `dst`.
pub fn extend_str(dst: &mut Vec<char>, src: &str)
    ensures
        final(dst)@ == old(dst)@ + src@,
{
    let v = chars_of(src);
    extend_chars(dst, v.as_slice());
}

/// The characters of `v` in `[from, to)`.
pub fn slice_chars(v: &[char], from: usize, to: usize) -> (r: Vec<char>)
    requires
        from <= to <= v@.len(),
    ensures
        r@ == v@.subrange(from as int, to as int),
{
    let mut r: Vec<char> = Vec::new();
    let mut i = from;
    while i < to
        invariant
            from <= i <= to,
            to <= v@.len(),
            r@ == v@.subrange(from as int, i as int),
        decreases to - i,
    {
        r.push(v[i]);
        i = i + 1;
        assert(v@.subrange(from as int, i as int) == v@.subrange(from as int, (i - 1) as int).push(
            v@[i - 1],
        ));
    }
    r
}

/// Whether `pat` occurs in `s` at position `i`.
pub open spec fn occurs_at(s: Seq<char>, pat: Seq<char>, i: int) -> bool {
    0 <= i && i + pat.len() <= s.len() && s.subrange(i, i + pat.len()) == pat
}

/// The position of the first occurrence of `pat` in `s`, as `str::find` gives it.
pub open spec fn spec_find(s: Seq<char>, pat: Seq<char>) -> Option<int>
    decreases s.len(),
{
    if s.len() < pat.len() {
        None
    } else if s.take(pat.len() as int) == pat {
        Some(0)
    } else if s.len() == 0 {
        None
    } else {
        match spec_find(s.drop_first(), pat) {
            Some(i) => Some(i + 1),
            None => None,
        }
    }
}

/// Shifts a found position by `k`.
pub open spec fn shift(o: Option<int>, k: int) -> Option<int> {
    match o {
        Some(i) => Some(i + k),
        None => None,
    }
}

/// Whether `pat` occurs anywhere in `s`.
pub open spec fn spec_contains(s: Seq<char>, pat: Seq<char>) -> bool {
    spec_find(s, pat) is Some
}

/// A found position is an occurrence, and nothing earlier is one.
pub proof fn lemma_find_sound(s: Seq<char>, pat: Seq<char>)
    ensures
        spec_find(s, pat) matches Some(i) ==> occurs_at(s, pat, i) && forall|j: int|
            0 <= j < i ==> !occurs_at(s, pat, j),
        spec_find(s, pat) is None ==> forall|j: int| !occurs_at(s, pat, j),
    decreases s.len(),
{
    if s.len() < pat.len() {
    } else if s.take(pat.len() as int) == pat {
        assert(s.subrange(0, pat.len() as int) == s.take(pat.len() as int));
    } else if s.len() == 0 {
        assert(s.take(pat.len() as int) =~= pat);
    } else {
        lemma_find_sound(s.drop_first(), pat);
        assert(!occurs_at(s, pat, 0)) by {
            assert(s.subrange(0, pat.len() as int) == s.take(pat.len() as int));
        }
        assert forall|j: int| 1 <= j && occurs_at(s, pat, j) implies occurs_at(
            s.drop_first(),
            pat,
            j - 1,
        ) by {
            assert(s.drop_first().subrange(j - 1, j - 1 + pat.len()) == s.subrange(
                j,
                j + pat.len(),
            ));
        }
        assert forall|j: int| 1 <= j && occurs_at(s.drop_first(), pat, j - 1) implies occurs_at(
            s,
            pat,
            j,
        ) by {
            assert(s.drop_first().subrange(j - 1, j - 1 + pat.len()) == s.subrange(
                j,
                j + pat.len(),
            ));
        }
    }
}

/// Finding from position `i` onward, when nothing matches at `i`.
pub proof fn lemma_find_step(s: Seq<char>, pat: Seq<char>, i: int)
    requires
        0 <= i < s.len(),
        !occurs_at(s, pat, i),
    ensures
        spec_find(s.skip(i), pat) == shift(spec_find(s.skip(i + 1), pat), 1),
{
    let t = s.skip(i);
    assert(t.drop_first() == s.skip(i + 1));
    if t.len() >= pat.len() {
        assert(t.take(pat.len() as int) == s.subrange(i, i + pat.len()));
    } else {
        assert(s.skip(i + 1).len() < pat.len());
    }
}

/// The first position at or after `from` where `pat` occurs in `s`.
pub fn find_from(s: &[char], from: usize, pat: &[char]) -> (r: Option<usize>)
    requires
        from <= s@.len(),
    ensures
        r matches Some(i) ==> from <= i && i + pat@.len() <= s@.len(),
        shift(spec_find(s@.skip(from as int), pat@), from as int) == match r {
            Some(i) => Some(i as int),
            None => None::<int>,
        },
{
    let n = s.len();
    let m = pat.len();
    let mut i = from;
    while i < n
        invariant
            from <= i <= n,
            n == s@.len(),
            m == pat@.len(),
            shift(spec_find(s@.skip(from as int), pat@), from as int) == shift(
                spec_find(s@.skip(i as int), pat@),
                i as int,
            ),
        decreases n - i,
    {
        if m > n - i {
            assert(s@.skip(i as int).len() < pat@.len());
            return None;
        }
        let mut j: usize = 0;
        let mut ok = true;
        while j < m
            invariant
                j <= m,
                i + m <= n,
                n == s@.len(),
                m == pat@.len(),
                ok ==> forall|k: int| 0 <= k < j ==> s@[i + k] == pat@[k],
                !ok ==> !occurs_at(s@, pat@, i as int),
            decreases m - j,
        {
            if s[i + j] != pat[j] {
                ok = false;
                assert(s@.subrange(i as int, i + m)[j as int] != pat@[j as int]);
            }
            j = j + 1;
        }
        if ok {
            assert(s@.subrange(i as int, i + m) == pat@);
            assert(s@.skip(i as int).take(m as int) == pat@);
            return Some(i);
        }
        proof {
            lemma_find_step(s@, pat@, i as int);
        }
        i = i + 1;
    }
    assert(s@.skip(n as int).len() == 0);
    if m == 0 {
        assert(s@.skip(n as int).take(0) == pat@);
        return Some(n);
    }
    None
}

/// Whether `pat` occurs anywhere in `s`.
pub fn contains_chars(s: &[char], pat: &[char]) -> (r: bool)
    ensures
        r == spec_contains(s@, pat@),
{
    let f = find_from(s, 0, pat);
    assert(s@.skip(0) == s@);
    f.is_some()
}

} // verus!

verus! {

/// `s` without its leading whitespace.
pub open spec fn spec_trim_start(s: Seq<char>) -> Seq<char>
    decreases s.len(),
{
    if s.len() > 0 && spec_is_whitespace(s[0]) {
        spec_trim_start(s.drop_first())
    } else {
        s
    }
}

/// `s` without its trailing whitespace.
pub open spec fn spec_trim_end(s: Seq<char>) -> Seq<char>
    decreases s.len(),
{
    if s.len() > 0 && spec_is_whitespace(s.last()) {
        spec_trim_end(s.drop_last())
    } else {
        s
    }
}

/// `s` without leading and trailing whitespace, as `str::trim` gives it.
pub open spec fn spec_trim(s: Seq<char>) -> Seq<char> {
    spec_trim_end(spec_trim_start(s))
}

/// `s` with leading and trailing whitespace removed.
pub fn trim_chars(s: &[char]) -> (r: Vec<char>)
    ensures
        r@ == spec_trim(s@),
{
    let n = s.len();
    let mut a: usize = 0;
    assert(s@.subrange(0, n as int) == s@);
    while a < n && is_whitespace(s[a])
        invariant
            a <= n,
            n == s@.len(),
            spec_trim_start(s@) == spec_trim_start(s@.subrange(a as int, n as int)),
        decreases n - a,
    {
        assert(s@.subrange(a as int, n as int).drop_first() == s@.subrange(a + 1, n as int));
        a = a + 1;
    }
    let ghost t = s@.subrange(a as int, n as int);
    assert(spec_trim_start(t) == t);
    let mut b: usize = n;
    assert(t.subrange(0, (b - a) as int) == t);
    while b > a && is_whitespace(s[b - 1])
        invariant
            a <= b <= n,
            n == s@.len(),
            t == s@.subrange(a as int, n as int),
            spec_trim_end(t) == spec_trim_end(s@.subrange(a as int, b as int)),
        decreases b - a,
    {
        assert(s@.subrange(a as int, b as int).drop_last() == s@.subrange(a as int, b - 1));
        b = b - 1;
    }
    slice_chars(s, a, b)
}

/// `str::trim`, on the characters of a string.
pub fn trim_str(s: &str) -> (r: String)
    ensures
        r@ == spec_trim(s@),
{
    let v = chars_of(s);
    let t = trim_chars(v.as_slice());
    string_from(t.as_slice())
}

/// The ASCII lowercase of `c`; other characters are unchanged.
pub open spec fn spec_ascii_lower(c: char) -> char {
    if 'A' <= c && c <= 'Z' {
        ((c as u32) + 32) as char
    } else {
        c
    }
}

/// Whether `a` and `b` are equal ignoring ASCII case, as `str::eq_ignore_ascii_case` says.
pub open spec fn spec_eq_ignore_ascii_case(a: Seq<char>, b: Seq<char>) -> bool {
    a.len() == b.len() && forall|i: int|
        0 <= i < a.len() ==> spec_ascii_lower(#[trigger] a[i]) == spec_ascii_lower(b[i])
}

/// The ASCII lowercase of `c`.
pub fn ascii_lower(c: char) -> (r: char)
    ensures
        r == spec_ascii_lower(c),
{
    if 'A' <= c && c <= 'Z' {
        let u = (c as u32) + 32;
        assert(97 <= u <= 122);
        char_from_ascii(u)
    } else {
        c
    }
}

/// The character with ASCII code `u`.
fn char_from_ascii(u: u32) -> (c: char)
    requires
        u < 128,
    ensures
        c == u as char,
{
    let b = u as u8;
    b as char
}

/// Equality ignoring ASCII case.
pub fn eq_ignore_ascii_case(a: &[char], b: &[char]) -> (r: bool)
    ensures
        r == spec_eq_ignore_ascii_case(a@, b@),
{
    if a.len() != b.len() {
        return false;
    }
    let mut i: usize = 0;
    while i < a.len()
        invariant
            i <= a@.len(),
            a@.len() == b@.len(),
            forall|k: int| 0 <= k < i ==> spec_ascii_lower(#[trigger] a@[k]) == spec_ascii_lower(b@[k]),
        decreases a@.len() - i,
    {
        if ascii_lower(a[i]) != ascii_lower(b[i]) {
            return false;
        }
        i = i + 1;
    }
    true
}

/// Equality ignoring ASCII case, on strings.
pub fn str_eq_ignore_ascii_case(a: &str, b: &str) -> (r: bool)
    ensures
        r == spec_eq_ignore_ascii_case(a@, b@),
{
    let x = chars_of(a);
    let y = chars_of(b);
    eq_ignore_ascii_case(x.as_slice(), y.as_slice())
}

/// Whether `s` begins with `pat`.
pub open spec fn spec_starts_with(s: Seq<char>, pat: Seq<char>) -> bool {
    pat.len() <= s.len() && s.take(pat.len() as int) == pat
}

/// Whether `s` ends with `pat`.
pub open spec fn spec_ends_with(s: Seq<char>, pat: Seq<char>) -> bool {
    pat.len() <= s.len() && s.skip(s.len() - pat.len()) == pat
}

/// Whether `s` begins with `pat`.
pub fn starts_with(s: &[char], pat: &[char]) -> (r: bool)
    ensures
        r == spec_starts_with(s@, pat@),
{
    if pat.len() > s.len() {
        return false;
    }
    let mut i: usize = 0;
    while i < pat.len()
        invariant
            i <= pat@.len() <= s@.len(),
            forall|k: int| 0 <= k < i ==> s@[k] == pat@[k],
        decreases pat@.len() - i,
    {
        if s[i] != pat[i] {
            assert(s@.take(pat@.len() as int)[i as int] != pat@[i as int]);
            return false;
        }
        i = i + 1;
    }
    assert(s@.take(pat@.len() as int) == pat@);
    true
}

/// Whether `s` ends with `pat`.
pub fn ends_with(s: &[char], pat: &[char]) -> (r: bool)
    ensures
        r == spec_ends_with(s@, pat@),
{
    if pat.len() > s.len() {
        return false;
    }
    let off = s.len() - pat.len();
    let mut i: usize = 0;
    while i < pat.len()
        invariant
            i <= pat@.len() <= s@.len(),
            off == s@.len() - pat@.len(),
            s@.len() == s.len(),
            forall|k: int| 0 <= k < i ==> s@[off + k] == pat@[k],
        decreases pat@.len() - i,
    {
        if s[off + i] != pat[i] {
            assert(s@.skip(off as int)[i as int] != pat@[i as int]);
            return false;
        }
        i = i + 1;
    }
    assert(s@.skip(off as int) == pat@);
    true
}

/// What `str::to_uppercase` returns for a string with characters `s`.
pub uninterp spec fn spec_to_uppercase(s: Seq<char>) -> Seq<char>;

/// Whether every character of `s` is ASCII.
pub open spec fn all_ascii(s: Seq<char>) -> bool {
    forall|i: int| 0 <= i < s.len() ==> (#[trigger] s[i] as int) < 128
}

/// The ASCII uppercase of a character: `a`..`z` become `A`..`Z`.
pub open spec fn spec_ascii_upper(c: char) -> char {
    if 'a' <= c && c <= 'z' {
        ((c as int) - 32) as char
    } else {
        c
    }
}

/// Calls `str::to_uppercase`: the Unicode uppercase mapping of the string,
/// which the standard library defines by tables. The result is that
/// function of the argument; on ASCII text it maps `a`..`z` to `A`..`Z`
/// and keeps every other character, as the Unicode mapping does.
#[verifier::external_body]
pub(crate) fn to_uppercase(s: &str) -> (r: String)
    ensures
        r@ == spec_to_uppercase(s@),
        all_ascii(s@) ==> r@ == s@.map_values(|c: char| spec_ascii_upper(c)),
{
    s.to_uppercase()
}

/// What `str::to_lowercase` returns for a string with characters `s`.
pub uninterp spec fn spec_to_lowercase(s: Seq<char>) -> Seq<char>;

/// Calls `str::to_lowercase`: the Unicode lowercase mapping of the
/// string, which the standard library defines by tables. The result is
/// that function of the argument; on ASCII text it maps `A`..`Z` to
/// `a`..`z` and keeps every other character, as the Unicode mapping does.
#[verifier::external_body]
pub(crate) fn to_lowercase(s: &str) -> (r: String)
    ensures
        r@ == spec_to_lowercase(s@),
        all_ascii(s@) ==> r@ == s@.map_values(|c: char| spec_ascii_lower(c)),
{
    s.to_lowercase()
}

} // verus!

verus! {

/// `s` with every occurrence of the non-empty `pat` replaced by `rep`,
/// scanning left to right without overlaps, as `str::replace` does.
pub open spec fn spec_replace(s: Seq<char>, pat: Seq<char>, rep: Seq<char>) -> Seq<char>
    decreases s.len(),
{
    if pat.len() == 0 {
        s
    } else {
        match spec_find(s, pat) {
            None => s,
            Some(i) => {
                proof {
                    lemma_find_sound(s, pat);
                }
                s.take(i) + rep + spec_replace(s.skip(i + pat.len()), pat, rep)
            },
        }
    }
}

/// Replaces every occurrence of the non-empty `pat` in `s` by `rep`.
pub fn replace_chars(s: &[char], pat: &[char], rep: &[char]) -> (r: Vec<char>)
    requires
        pat@.len() > 0,
    ensures
        r@ == spec_replace(s@, pat@, rep@),
{
    let n = s.len();
    let mut out: Vec<char> = Vec::new();
    let mut pos: usize = 0;
    assert(s@.skip(0) == s@);
    loop
        invariant_except_break
            out@ + spec_replace(s@.skip(pos as int), pat@, rep@) == spec_replace(s@, pat@, rep@),
        invariant
            pos <= n,
            n == s@.len(),
            pat@.len() > 0,
        ensures
            out@ == spec_replace(s@, pat@, rep@),
        decreases n - pos,
    {
        let ghost t = s@.skip(pos as int);
        let ghost before = out@;
        match find_from(s, pos, pat) {
            None => {
                extend_chars(&mut out, &s[pos..n]);
                assert(s@.subrange(pos as int, n as int) == t);
                break;
            },
            Some(i) => {
                proof {
                    lemma_find_sound(t, pat@);
                }
                let ghost at = i - pos;
                let piece = slice_chars(s, pos, i);
                assert(piece@ == t.take(at));
                extend_chars(&mut out, piece.as_slice());
                extend_chars(&mut out, rep);
                assert(t.skip(at + pat@.len()) == s@.skip(i + pat@.len()));
                pos = i + pat.len();
                assert(out@ + spec_replace(s@.skip(pos as int), pat@, rep@) =~= before + (t.take(
                    at,
                ) + rep@ + spec_replace(t.skip(at + pat@.len()), pat@, rep@)));
            },
        }
    }
    out
}

/// Whether `a` and `b` hold the same characters.
pub fn str_eq(a: &str, b: &str) -> (r: bool)
    ensures
        r == (a@ == b@),
{
    let x = chars_of(a);
    let y = chars_of(b);
    chars_eq(x.as_slice(), y.as_slice())
}

/// Whether `a` and `b` hold the same characters.
pub fn chars_eq(a: &[char], b: &[char]) -> (r: bool)
    ensures
        r == (a@ == b@),
{
    if a.len() != b.len() {
        return false;
    }
    let mut i: usize = 0;
    while i < a.len()
        invariant
            i <= a@.len(),
            a@.len() == b@.len(),
            forall|k: int| 0 <= k < i ==> a@[k] == b@[k],
        decreases a@.len() - i,
    {
        if a[i] != b[i] {
            return false;
        }
        i = i + 1;
    }
    assert(a@ == b@);
    true
}

} // verus!

verus! {

/// The decimal digit for `d < 10`.
pub open spec fn digit_char(d: nat) -> char {
    (('0' as nat) + d) as char
}

/// The decimal form of `n`, as `to_string` writes an unsigned integer.
pub open spec fn spec_decimal(n: nat) -> Seq<char>
    decreases n,
{
    if n < 10 {
        seq![digit_char(n)]
    } else {
        spec_decimal(n / 10).push(digit_char(n % 10))
    }
}

/// The decimal form of `n`.
pub fn decimal(n: usize) -> (r: String)
    ensures
        r@ == spec_decimal(n as nat),
{
    let mut rev: Vec<char> = Vec::new();
    let mut m = n;
    let ghost mut done: Seq<char> = Seq::empty();
    loop
        invariant_except_break
            spec_decimal(n as nat) == spec_decimal(m as nat) + done,
            rev@ == done.reverse(),
        ensures
            rev@.reverse() == spec_decimal(n as nat),
        decreases m,
    {
        let d = (m % 10) as u32;
        let c = char_from_ascii(48 + d);
        assert(c == digit_char((m % 10) as nat));
        rev.push(c);
        if m < 10 {
            proof {
                assert(spec_decimal(m as nat) == seq![c]);
                assert(rev@.reverse() =~= seq![c] + done);
            }
            break;
        }
        proof {
            assert(spec_decimal(m as nat) == spec_decimal((m / 10) as nat).push(c));
            assert(spec_decimal(n as nat) =~= spec_decimal((m / 10) as nat) + (seq![c] + done));
            assert(rev@ =~= (seq![c] + done).reverse());
            done = seq![c] + done;
        }
        m = m / 10;
    }
    let mut out: Vec<char> = Vec::new();
    let mut i = rev.len();
    while i > 0
        invariant
            i <= rev@.len(),
            out@ == rev@.skip(i as int).reverse(),
        decreases i,
    {
        out.push(rev[i - 1]);
        assert(rev@.skip(i - 1).reverse() =~= rev@.skip(i as int).reverse().push(rev@[i - 1]));
        i = i - 1;
    }
    assert(rev@.skip(0) == rev@);
    string_from(out.as_slice())
}

} // verus!

verus! {

/// `s` without its leading whitespace.
pub fn trim_start_chars(s: &[char]) -> (r: Vec<char>)
    ensures
        r@ == spec_trim_start(s@),
{
    let n = s.len();
    let mut a: usize = 0;
    assert(s@.subrange(0, n as int) == s@);
    while a < n && is_whitespace(s[a])
        invariant
            a <= n,
            n == s@.len(),
            spec_trim_start(s@) == spec_trim_start(s@.subrange(a as int, n as int)),
        decreases n - a,
    {
        assert(s@.subrange(a as int, n as int).drop_first() == s@.subrange(a + 1, n as int));
        a = a + 1;
    }
    slice_chars(s, a, n)
}

/// The pieces of `s` between the separators `sep`, as `str::split` with a
/// character gives them: one more piece than separators, empty pieces
/// included.
pub open spec fn spec_split(s: Seq<char>, sep: char) -> Seq<Seq<char>>
    decreases s.len(),
{
    match spec_find(s, seq![sep]) {
        None => seq![s],
        Some(i) => {
            proof {
                lemma_find_sound(s, seq![sep]);
            }
            seq![s.take(i)] + spec_split(s.skip(i + 1), sep)
        },
    }
}

/// The pieces of `s` between the separators `sep`.
pub fn split_chars(s: &[char], sep: char) -> (r: Vec<Vec<char>>)
    ensures
        r@.map_values(|p: Vec<char>| p@) == spec_split(s@, sep),
{
    let pat: Vec<char> = vec![sep];
    let n = s.len();
    let mut out: Vec<Vec<char>> = Vec::new();
    let mut st: usize = 0;
    assert(s@.skip(0) == s@);
    loop
        invariant
            st <= n,
            n == s@.len(),
            pat@ == seq![sep],
            out@.map_values(|p: Vec<char>| p@) + spec_split(s@.skip(st as int), sep) == spec_split(
                s@,
                sep,
            ),
        decreases n - st,
    {
        let ghost before = out@.map_values(|p: Vec<char>| p@);
        match find_from(s, st, pat.as_slice()) {
            None => {
                let piece = slice_chars(s, st, n);
                assert(piece@ == s@.skip(st as int));
                out.push(piece);
                assert(out@.map_values(|p: Vec<char>| p@) =~= before.push(s@.skip(st as int)));
                assert(spec_split(s@.skip(st as int), sep) =~= seq![s@.skip(st as int)]);
                return out;
            },
            Some(j) => {
                let piece = slice_chars(s, st, j);
                let ghost rest = s@.skip(st as int);
                assert(spec_find(rest, pat@) == Some(j - st));
                assert(rest.take(j - st) =~= piece@);
                assert(rest.skip(j - st + 1) =~= s@.skip(j + 1));
                out.push(piece);
                assert(out@.map_values(|p: Vec<char>| p@) =~= before.push(piece@));
                st = j + 1;
            },
        }
    }
}

} // verus!
