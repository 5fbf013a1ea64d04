//! Per-request response history: one JSON-lines file per request, named
//! after a hash of the request id, newest entry last, at most
//! `MAX_ENTRIES` entries.
use vstd::prelude::*;
use vstd::string::StringSliceAdditionalSpecFns;
use crate::text::{chars_of, slice_chars, spec_trim, string_from};
use sha2::Digest;

verus! {

/// How many responses a history keeps: the last 10 fires per request.
pub const MAX_ENTRIES: usize = 10;

/// The SHA-256 digest of `data`.
pub uninterp spec fn spec_sha256(data: Seq<u8>) -> Seq<u8>;

/// Calls `sha2::Sha256::digest` (the `Digest` trait of the `digest`
/// crate): the SHA-256 hash of the bytes, 32 bytes long. Only the length
/// and that it is a function of the input are claimed.
#[verifier::external_body]
fn sha256(data: &[u8]) -> (r: Vec<u8>)
    ensures
        r@ == spec_sha256(data@),
        r@.len() == 32,
{
    sha2::Sha256::digest(data).to_vec()
}

/// The lowercase hex digit for `n < 16`.
pub open spec fn hex_digit(n: int) -> char {
    if n < 10 {
        (('0' as int) + n) as char
    } else {
        (('a' as int) + n - 10) as char
    }
}

/// Lowercase hex, two digits per byte, high nibble first.
pub open spec fn spec_hex(bytes: Seq<u8>) -> Seq<char>
    decreases bytes.len(),
{
    if bytes.len() == 0 {
        Seq::empty()
    } else {
        seq![hex_digit(bytes[0] as int / 16), hex_digit(bytes[0] as int % 16)] + spec_hex(bytes.drop_first())
    }
}

/// Hex text is twice as long as its bytes.
pub proof fn lemma_hex_len(bytes: Seq<u8>)
    ensures
        spec_hex(bytes).len() == 2 * bytes.len(),
    decreases bytes.len(),
{
    if bytes.len() > 0 {
        lemma_hex_len(bytes.drop_first());
    }
}

/// Calls `hex::encode`, whose documentation says it encodes the bytes as
/// lowercase hex, two digits per byte.
#[verifier::external_body]
fn hex_encode(data: &[u8]) -> (r: String)
    ensures
        r@ == spec_hex(data@),
{
    hex::encode(data)
}

/// The name of the history file of a request: the first 16 hex digits of
/// the SHA-256 of the request id's UTF-8 bytes, then `.jsonl`.
pub open spec fn spec_history_file_name(request_id: &str) -> Seq<char> {
    spec_hex(spec_sha256(request_id.spec_bytes())).take(16) + ".jsonl"@
}

/// The name of the history file of a request.
pub fn history_file_name(request_id: &str) -> (r: String)
    ensures
        r@ == spec_history_file_name(request_id),
{
    let bytes = request_id.as_bytes();
    let digest = sha256(bytes);
    let hex = hex_encode(digest.as_slice());
    proof {
        lemma_hex_len(digest@);
    }
    let hv = chars_of(hex.as_str());
    let mut name = slice_chars(hv.as_slice(), 0, 16);
    assert(name@ == hv@.take(16));
    crate::text::extend_str(&mut name, ".jsonl");
    string_from(name.as_slice())
}

/// The lines a history file keeps after `new_line` is added: the last
/// `MAX_ENTRIES` of the old lines and the new one.
pub open spec fn spec_keep_recent(lines: Seq<String>, new_line: String) -> Seq<String> {
    let all = lines.push(new_line);
    if all.len() > MAX_ENTRIES {
        all.skip(all.len() - MAX_ENTRIES)
    } else {
        all
    }
}

/// A history never holds more than `MAX_ENTRIES` lines; its last line is
/// the one just added; what it keeps is the newest part of the old lines
/// followed by the new one, and nothing is dropped while there is room.
pub proof fn law_keep_recent_bounded(lines: Seq<String>, new_line: String)
    ensures
        spec_keep_recent(lines, new_line).len() <= MAX_ENTRIES,
        spec_keep_recent(lines, new_line).last() == new_line,
        spec_keep_recent(lines, new_line) == lines.push(new_line).skip(
            lines.len() + 1 - spec_keep_recent(lines, new_line).len(),
        ),
        lines.len() < MAX_ENTRIES ==> spec_keep_recent(lines, new_line) == lines.push(new_line),
{
    let all = lines.push(new_line);
    assert(all.skip(0) =~= all);
}

/// Adds `new_line` after `lines` and keeps the last `MAX_ENTRIES`.
pub fn keep_recent(lines: Vec<String>, new_line: String) -> (r: Vec<String>)
    ensures
        r@ == spec_keep_recent(lines@, new_line),
{
    let mut all = lines;
    all.push(new_line);
    if all.len() <= MAX_ENTRIES {
        return all;
    }
    let overflow = all.len() - MAX_ENTRIES;
    let ghost a = all@;
    let mut rest = all.split_off(overflow);
    assert(rest@ == a.skip(overflow as int));
    rest
}

/// Whether a history line is blank.
pub fn is_blank(line: &str) -> (r: bool)
    ensures
        r == (spec_trim(line@).len() == 0),
{
    let t = crate::text::trim_str(line);
    t.as_str().is_empty()
}

/// The entries of a history file, newest first.
pub fn newest_first<T>(entries: Vec<T>) -> (r: Vec<T>)
    ensures
        r@ == entries@.reverse(),
{
    let ghost orig = entries@;
    let mut rest = entries;
    let mut out: Vec<T> = Vec::new();
    while rest.len() > 0
        invariant
            out@ + rest@.reverse() == orig.reverse(),
        decreases rest@.len(),
    {
        let ghost r0 = rest@;
        let x = rest.pop().unwrap();
        assert(rest@ == r0.drop_last());
        assert(r0.reverse() =~= seq![x] + rest@.reverse());
        out.push(x);
        assert(out@ + rest@.reverse() =~= orig.reverse());
    }
    assert(rest@.reverse() =~= Seq::<T>::empty());
    out
}

} // verus!

verus! {

/// The lines of a history file after the lines `rs` were appended one by
/// one to an empty file.
pub open spec fn appended(rs: Seq<String>) -> Seq<String>
    decreases rs.len(),
{
    if rs.len() == 0 {
        Seq::empty()
    } else {
        spec_keep_recent(appended(rs.drop_last()), rs.last())
    }
}

/// Appending fires one by one keeps the last `MAX_ENTRIES` of them, oldest
/// first, so that a load, newest first, gives the last ten fires in
/// reverse order of firing.
pub proof fn law_history_keeps_last_ten(rs: Seq<String>)
    ensures
        appended(rs) == rs.skip(
            if rs.len() > MAX_ENTRIES {
                rs.len() - MAX_ENTRIES
            } else {
                0
            },
        ),
        appended(rs).reverse().len() <= MAX_ENTRIES,
    decreases rs.len(),
{
    if rs.len() == 0 {
        assert(rs.skip(0) =~= rs);
    } else {
        let d = rs.drop_last();
        law_history_keeps_last_ten(d);
        let kd: int = if d.len() > MAX_ENTRIES {
            d.len() - MAX_ENTRIES
        } else {
            0
        };
        let all = d.skip(kd).push(rs.last());
        assert(all =~= rs.skip(kd));
        if all.len() > MAX_ENTRIES {
            assert(all.skip(all.len() - MAX_ENTRIES) =~= rs.skip(rs.len() - MAX_ENTRIES));
        } else {
            assert(rs.len() <= MAX_ENTRIES);
        }
    }
}

} // verus!
