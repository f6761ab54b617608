//! The remote path namespace shared by every store: `{name}-{id}/...` for a
//! snapshot's files, `{name}-{id}-logs/{seq}.flex` for its write-ahead-log
//! chunks, and `{name}-current` for the pointer object naming the active
//! snapshot.  Builders render these names; parsers recover ids and sequence
//! numbers from them.  The parsing pattern is centralized here so the
//! listing-based parser and the pointer-file parser cannot drift.

use vstd::prelude::*;

verus! {

use crate::digits::{
    all_digits,
    dec_digits,
    digit_run_end,
    digit_run_len,
    digits_val,
    is_ascii_digit,
    lemma_dec_digits,
    lemma_digit_run_len_is,
    parse_digits_range,
    parse_digits_spec,
    u128_to_dec_string,
};

/// `{name}-{id}`: the remote prefix of the file set of snapshot `id`.
pub open spec fn spec_snapshot_prefix(name: Seq<char>, id: nat) -> Seq<char> {
    name + "-"@ + dec_digits(id)
}

/// `{name}-{id}-logs`: the directory of snapshot `id`'s log chunks.
pub open spec fn spec_logs_dir(name: Seq<char>, id: nat) -> Seq<char> {
    spec_snapshot_prefix(name, id) + "-logs"@
}

/// `{name}-current`: the pointer object naming the active snapshot.
pub open spec fn spec_current_object(name: Seq<char>) -> Seq<char> {
    name + "-current"@
}

/// `{dir}/{seq}.flex`: the name of log chunk `seq` under `dir`.
pub open spec fn spec_log_chunk_name(dir: Seq<char>, seq_number: nat) -> Seq<char> {
    dir + "/"@ + dec_digits(seq_number) + ".flex"@
}

/// `{dir}/{file}`: a file of a snapshot under its remote prefix.
pub open spec fn spec_remote_file_path(dir: Seq<char>, file: Seq<char>) -> Seq<char> {
    dir + "/"@ + file
}

/// The length of the first `/`-separated segment of `s`.
pub open spec fn seg_len(s: Seq<char>) -> nat
    decreases s.len(),
{
    if s.len() == 0 || s[0] == '/' {
        0
    } else {
        1 + seg_len(s.drop_first())
    }
}

/// `seg_len` is the unique boundary `k` with no `/` in `s[..k]` and
/// `s[k]`, if it exists, equal to `/`.
pub proof fn lemma_seg_len_is(s: Seq<char>, k: int)
    requires
        0 <= k <= s.len(),
        forall|i: int| 0 <= i < k ==> #[trigger] s[i] != '/',
        k == s.len() || s[k] == '/',
    ensures
        seg_len(s) == k,
    decreases s.len(),
{
    if k == 0 {
    } else {
        lemma_seg_len_is(s.drop_first(), k - 1);
    }
}

/// The start of the last `/`-separated segment of `s`: the index right
/// after the last `/`, or `0` if there is none.
pub open spec fn last_seg_start(s: Seq<char>) -> nat
    decreases s.len(),
{
    if s.len() == 0 {
        0
    } else if s.last() == '/' {
        s.len()
    } else {
        last_seg_start(s.drop_last())
    }
}

/// `last_seg_start` is the unique boundary `k` preceded by `/` (or the
/// string's start) with no `/` in `s[k..]`.
pub proof fn lemma_last_seg_start_is(s: Seq<char>, k: int)
    requires
        0 <= k <= s.len(),
        forall|i: int| k <= i < s.len() ==> #[trigger] s[i] != '/',
        k == 0 || s[k - 1] == '/',
    ensures
        last_seg_start(s) == k,
    decreases s.len(),
{
    if s.len() == 0 {
    } else if k == s.len() {
    } else {
        assert(s.last() != '/');
        lemma_last_seg_start_is(s.drop_last(), k);
    }
}

/// Strip one trailing `-index-logs` or `-logs` marker, if present, from the
/// first segment of a snapshot file name; what remains should be the id.
pub open spec fn strip_logs_marker(seg: Seq<char>) -> Seq<char> {
    if "-index-logs"@.is_suffix_of(seg) {
        seg.take(seg.len() - "-index-logs"@.len())
    } else if "-logs"@.is_suffix_of(seg) {
        seg.take(seg.len() - "-logs"@.len())
    } else {
        seg
    }
}

/// The snapshot id embedded in a listed file name: the first segment must
/// start with `prefix` (the store name plus `-`) and, after an optional
/// `-logs` or `-index-logs` marker is stripped, consist of decimal digits
/// denoting a value that fits in 128 bits.  Names of any other shape carry
/// no id.
pub open spec fn spec_snapshot_id_of_path(prefix: Seq<char>, path: Seq<char>) -> Option<u128> {
    let seg = path.take(seg_len(path) as int);
    if prefix.is_prefix_of(seg) {
        parse_digits_spec(strip_logs_marker(seg.skip(prefix.len() as int)))
    } else {
        None
    }
}

/// The id announced by a pointer object's content: the content must begin
/// with `{name}-`; the id is the longest digit run that follows, which must
/// be non-empty and fit in 128 bits.
pub open spec fn spec_pointer_snapshot_id(name: Seq<char>, content: Seq<char>) -> Option<u128> {
    let pre = name + "-"@;
    if pre.is_prefix_of(content) {
        let tail = content.skip(pre.len() as int);
        parse_digits_spec(tail.take(digit_run_len(tail) as int))
    } else {
        None
    }
}

/// The id of a snapshot *file-set* name, as the catalog counts snapshots:
/// `{name}-{digits}/...`, with a `/` directly after the digits, so log
/// directories are not counted twice.
pub open spec fn spec_catalog_snapshot_id(name: Seq<char>, path: Seq<char>) -> Option<u128> {
    let pre = name + "-"@;
    if pre.is_prefix_of(path) {
        let tail = path.skip(pre.len() as int);
        let k = digit_run_len(tail);
        if k < tail.len() && tail[k as int] == '/' && k > 0 {
            parse_digits_spec(tail.take(k as int))
        } else {
            None
        }
    } else {
        None
    }
}

/// The sequence number of a log chunk name: its last `/`-separated segment,
/// with one trailing `.flex` stripped if present, must be decimal digits
/// denoting a value that fits in 64 bits.
pub open spec fn spec_log_seq(name: Seq<char>) -> Option<u64> {
    let seg = name.skip(last_seg_start(name) as int);
    let body = if ".flex"@.is_suffix_of(seg) {
        seg.take(seg.len() - ".flex"@.len())
    } else {
        seg
    };
    if body.len() > 0 && all_digits(body) && digits_val(body) <= u64::MAX {
        Some(digits_val(body) as u64)
    } else {
        None
    }
}

/// Build `{name}-{id}`.
pub fn snapshot_prefix(name: &str, id: u128) -> (r: String)
    ensures
        r@ == spec_snapshot_prefix(name@, id as nat),
{
    let mut s = String::from_str(name);
    s.append("-");
    let digits = u128_to_dec_string(id);
    s.append(digits.as_str());
    proof {
        assert(s@ =~= spec_snapshot_prefix(name@, id as nat));
    }
    s
}

/// Build `{name}-{id}-logs`.
pub fn logs_dir(name: &str, id: u128) -> (r: String)
    ensures
        r@ == spec_logs_dir(name@, id as nat),
{
    let mut s = snapshot_prefix(name, id);
    s.append("-logs");
    s
}

/// Build `{name}-current`.
pub fn current_object(name: &str) -> (r: String)
    ensures
        r@ == spec_current_object(name@),
{
    let mut s = String::from_str(name);
    s.append("-current");
    s
}

/// Build `{dir}/{seq}.flex`.
pub fn log_chunk_name(dir: &str, seq_number: u64) -> (r: String)
    ensures
        r@ == spec_log_chunk_name(dir@, seq_number as nat),
{
    let mut s = String::from_str(dir);
    s.append("/");
    let digits = u128_to_dec_string(seq_number as u128);
    s.append(digits.as_str());
    s.append(".flex");
    proof {
        assert(s@ =~= spec_log_chunk_name(dir@, seq_number as nat));
    }
    s
}

/// Build `{dir}/{file}`.
pub fn remote_file_path(dir: &str, file: &str) -> (r: String)
    ensures
        r@ == spec_remote_file_path(dir@, file@),
{
    let mut s = String::from_str(dir);
    s.append("/");
    s.append(file);
    proof {
        assert(s@ =~= spec_remote_file_path(dir@, file@));
    }
    s
}

/// Whether `pat` occurs in `s` exactly at position `at`.
fn range_eq(s: &str, at: usize, pat: &str) -> (b: bool)
    requires
        at <= s@.len(),
        pat@.len() <= s@.len() - at,
    ensures
        b == (s@.subrange(at as int, at + pat@.len()) == pat@),
{
    let pl = pat.unicode_len();
    let sl = s.unicode_len();
    let ghost range = s@.subrange(at as int, at + pat@.len());
    let mut i: usize = 0;
    while i < pl
        invariant
            i <= pl,
            pl == pat@.len(),
            sl == s@.len(),
            at + pl <= sl,
            range == s@.subrange(at as int, at + pat@.len()),
            forall|j: int| 0 <= j < i ==> #[trigger] range[j] == pat@[j],
        decreases pl - i,
    {
        let cs = s.get_char(at + i);
        let cp = pat.get_char(i);
        proof {
            assert(range[i as int] == s@[at + i]);
        }
        if cs != cp {
            proof {
                assert(range[i as int] != pat@[i as int]);
            }
            return false;
        }
        i = i + 1;
    }
    proof {
        assert(range =~= pat@);
    }
    true
}

/// Whether `s` begins with `prefix`.
fn starts_with_str(s: &str, prefix: &str) -> (b: bool)
    ensures
        b == prefix@.is_prefix_of(s@),
{
    let pl = prefix.unicode_len();
    let sl = s.unicode_len();
    if pl > sl {
        return false;
    }
    range_eq(s, 0, prefix)
}

/// Scan backward from the end of `s` to the start of its last segment.
fn last_seg_begin(s: &str) -> (r: usize)
    ensures
        r == last_seg_start(s@),
        r <= s@.len(),
{
    let len = s.unicode_len();
    let mut i = len;
    loop
        invariant_except_break
            i <= len,
            len == s@.len(),
            forall|j: int| i <= j < len ==> #[trigger] s@[j] != '/',
        ensures
            i <= len,
            len == s@.len(),
            forall|j: int| i <= j < len ==> #[trigger] s@[j] != '/',
            i == 0 || s@[i - 1] == '/',
        decreases i,
    {
        if i == 0 {
            break;
        }
        if s.get_char(i - 1) == '/' {
            break;
        }
        i = i - 1;
    }
    proof {
        lemma_last_seg_start_is(s@, i as int);
    }
    i
}

/// Scan forward from the start of `s` to the end of its first segment.
fn first_seg_end(s: &str) -> (r: usize)
    ensures
        r == seg_len(s@),
        r <= s@.len(),
{
    let len = s.unicode_len();
    let mut i: usize = 0;
    loop
        invariant_except_break
            i <= len,
            len == s@.len(),
            forall|j: int| 0 <= j < i ==> #[trigger] s@[j] != '/',
        ensures
            i <= len,
            len == s@.len(),
            forall|j: int| 0 <= j < i ==> #[trigger] s@[j] != '/',
            i == len || s@[i as int] == '/',
        decreases len - i,
    {
        if i == len {
            break;
        }
        if s.get_char(i) == '/' {
            break;
        }
        i = i + 1;
    }
    proof {
        lemma_seg_len_is(s@, i as int);
    }
    i
}

/// Recover the snapshot id embedded in a listed remote file name, given the
/// store prefix `{name}-`.  Returns exactly what the naming pattern
/// denotes; names of any other shape yield `None`.
pub fn snapshot_id_of_path(prefix: &str, path: &str) -> (r: Option<u128>)
    ensures
        r == spec_snapshot_id_of_path(prefix@, path@),
{
    let se = first_seg_end(path);
    let ghost seg = path@.take(se as int);
    let pl = prefix.unicode_len();
    if pl > se {
        proof {
            assert(!prefix@.is_prefix_of(seg));
        }
        return None;
    }
    if !range_eq(path, 0, prefix) {
        proof {
            if prefix@.is_prefix_of(seg) {
                assert(seg.subrange(0, pl as int) =~= path@.subrange(0, pl as int));
            }
        }
        return None;
    }
    proof {
        assert(seg.subrange(0, pl as int) =~= path@.subrange(0, pl as int));
        assert(prefix@.is_prefix_of(seg));
    }
    let ghost rest = seg.skip(pl as int);
    let il = "-index-logs".unicode_len();
    let lg = "-logs".unicode_len();
    let mut body_end = se;
    if se - pl >= il && range_eq(path, se - il, "-index-logs") {
        body_end = se - il;
        proof {
            assert(rest.subrange(rest.len() - il, rest.len() as int) =~= path@.subrange(
                se - il,
                se as int,
            ));
            assert("-index-logs"@.is_suffix_of(rest));
            assert(strip_logs_marker(rest) =~= path@.subrange(pl as int, body_end as int));
        }
    } else if se - pl >= lg && range_eq(path, se - lg, "-logs") {
        body_end = se - lg;
        proof {
            if "-index-logs"@.is_suffix_of(rest) {
                assert(rest.subrange(rest.len() - il, rest.len() as int) =~= path@.subrange(
                    se - il,
                    se as int,
                ));
            }
            assert(rest.subrange(rest.len() - lg, rest.len() as int) =~= path@.subrange(
                se - lg,
                se as int,
            ));
            assert("-logs"@.is_suffix_of(rest));
            assert(strip_logs_marker(rest) =~= path@.subrange(pl as int, body_end as int));
        }
    } else {
        proof {
            if "-index-logs"@.is_suffix_of(rest) {
                assert(rest.subrange(rest.len() - il, rest.len() as int) =~= path@.subrange(
                    se - il,
                    se as int,
                ));
            }
            if "-logs"@.is_suffix_of(rest) {
                assert(rest.subrange(rest.len() - lg, rest.len() as int) =~= path@.subrange(
                    se - lg,
                    se as int,
                ));
            }
            assert(strip_logs_marker(rest) =~= path@.subrange(pl as int, body_end as int));
        }
    }
    let r = parse_digits_range(path, pl, body_end);
    proof {
        assert(path@.subrange(pl as int, body_end as int) == strip_logs_marker(rest));
    }
    r
}

/// Recover the active snapshot id from the decoded content of the
/// `{name}-current` pointer object.
pub fn pointer_snapshot_id(name: &str, content: &str) -> (r: Option<u128>)
    ensures
        r == spec_pointer_snapshot_id(name@, content@),
{
    let nl = name.unicode_len();
    let cl = content.unicode_len();
    let ghost pre = name@ + "-"@;
    proof {
        reveal_strlit("-");
    }
    if nl >= cl {
        proof {
            assert(!pre.is_prefix_of(content@));
        }
        return None;
    }
    if !range_eq(content, 0, name) {
        proof {
            if pre.is_prefix_of(content@) {
                assert(content@.subrange(0, nl as int) =~= pre.subrange(0, nl as int));
                assert(pre.subrange(0, nl as int) =~= name@);
            }
        }
        return None;
    }
    if content.get_char(nl) != '-' {
        proof {
            if pre.is_prefix_of(content@) {
                assert(content@.subrange(0, nl + 1)[nl as int] == pre[nl as int]);
            }
        }
        return None;
    }
    proof {
        assert(pre =~= content@.subrange(0, nl + 1));
        assert(pre.is_prefix_of(content@));
    }
    let start = nl + 1;
    let e = digit_run_end(content, start);
    let ghost tail = content@.skip(start as int);
    let r = parse_digits_range(content, start, e);
    proof {
        assert(tail.take(digit_run_len(tail) as int) =~= content@.subrange(
            start as int,
            e as int,
        ));
    }
    r
}

/// Recover the id of a snapshot file-set name `{name}-{digits}/...`, the
/// shape the catalog counts; log directories and the pointer object do not
/// match.
pub fn catalog_snapshot_id(name: &str, path: &str) -> (r: Option<u128>)
    ensures
        r == spec_catalog_snapshot_id(name@, path@),
{
    let nl = name.unicode_len();
    let cl = path.unicode_len();
    let ghost pre = name@ + "-"@;
    proof {
        reveal_strlit("-");
    }
    if nl >= cl {
        proof {
            assert(!pre.is_prefix_of(path@));
        }
        return None;
    }
    if !range_eq(path, 0, name) {
        proof {
            if pre.is_prefix_of(path@) {
                assert(path@.subrange(0, nl as int) =~= pre.subrange(0, nl as int));
                assert(pre.subrange(0, nl as int) =~= name@);
            }
        }
        return None;
    }
    if path.get_char(nl) != '-' {
        proof {
            if pre.is_prefix_of(path@) {
                assert(path@.subrange(0, nl + 1)[nl as int] == pre[nl as int]);
            }
        }
        return None;
    }
    proof {
        assert(pre =~= path@.subrange(0, nl + 1));
        assert(pre.is_prefix_of(path@));
    }
    let start = nl + 1;
    let e = digit_run_end(path, start);
    let ghost tail = path@.skip(start as int);
    proof {
        if e < cl {
            assert(tail[e - start] == path@[e as int]);
        }
    }
    if e == start || e == cl || path.get_char(e) != '/' {
        return None;
    }
    let r = parse_digits_range(path, start, e);
    proof {
        assert(tail.take(digit_run_len(tail) as int) =~= path@.subrange(start as int, e as int));
    }
    r
}

/// Recover the sequence number of a write-ahead-log chunk from its remote
/// name `{dir}/{seq}.flex`.
pub fn log_seq_of_name(name: &str) -> (r: Option<u64>)
    ensures
        r == spec_log_seq(name@),
{
    let b = last_seg_begin(name);
    let len = name.unicode_len();
    let fl = ".flex".unicode_len();
    let ghost seg = name@.skip(b as int);
    let mut body_end = len;
    if len - b >= fl && range_eq(name, len - fl, ".flex") {
        body_end = len - fl;
        proof {
            assert(seg.subrange(seg.len() - fl, seg.len() as int) =~= name@.subrange(
                len - fl,
                len as int,
            ));
            assert(".flex"@.is_suffix_of(seg));
            assert(seg.take(seg.len() - fl) =~= name@.subrange(b as int, body_end as int));
        }
    } else {
        proof {
            if ".flex"@.is_suffix_of(seg) {
                assert(seg.subrange(seg.len() - fl, seg.len() as int) =~= name@.subrange(
                    len - fl,
                    len as int,
                ));
            }
            assert(seg =~= name@.subrange(b as int, body_end as int));
        }
    }
    match parse_digits_range(name, b, body_end) {
        None => None,
        Some(v) => if v <= u64::MAX as u128 {
            Some(v as u64)
        } else {
            None
        },
    }
}

/// The pointer protocol round-trips: writing a pointer whose content is the
/// snapshot prefix `{name}-{id}` followed by anything that does not begin
/// with a digit, and parsing it back, recovers exactly `id`.
pub proof fn lemma_pointer_round_trip(name: Seq<char>, id: u128, rest: Seq<char>)
    requires
        rest.len() == 0 || !is_ascii_digit(rest[0]),
    ensures
        spec_pointer_snapshot_id(name, spec_snapshot_prefix(name, id as nat) + rest) == Some(id),
{
    let pre = name + "-"@;
    let digits = dec_digits(id as nat);
    let content = spec_snapshot_prefix(name, id as nat) + rest;
    lemma_dec_digits(id as nat);
    assert(content =~= pre + (digits + rest));
    assert(content.subrange(0, pre.len() as int) =~= pre);
    assert(pre.is_prefix_of(content));
    let tail = content.skip(pre.len() as int);
    assert(tail =~= digits + rest);
    assert forall|i: int| 0 <= i < digits.len() implies is_ascii_digit(#[trigger] tail[i]) by {
        assert(tail[i] == digits[i]);
    }
    if rest.len() > 0 {
        assert(tail[digits.len() as int] == rest[0]);
    }
    lemma_digit_run_len_is(tail, digits.len() as int);
    assert(tail.take(digit_run_len(tail) as int) =~= digits);
}

} // verus!
