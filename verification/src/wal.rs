//! Write-ahead-log arithmetic: parsing LSNs (`X/Y`), naming WAL segment
//! files, and the rule that decides which archived files precede a given
//! segment (the rule `pg_archivecleanup` applies).

use vstd::prelude::*;
use vstd::utf8::*;
use vstd::string::StringSliceAdditionalSpecFns;
use crate::text::{hex8, u64_to_hex8};

verus! {

broadcast use vstd::seq_lib::group_seq_properties, vstd::seq_lib::group_to_multiset_ensures;

/// Why an LSN could not be read.
#[derive(Debug, Clone, Copy, PartialEq, Eq, Structural)]
pub enum LsnError {
    /// There is no `/` between the two halves.
    MissingSeparator,
    /// A half is not a hexadecimal number that fits in 64 bits.
    InvalidNumber,
}

/// Value of a hexadecimal digit character (either case).
pub open spec fn hex_value(c: char) -> int {
    if '0' <= c && c <= '9' {
        c as int - '0' as int
    } else if 'a' <= c && c <= 'f' {
        c as int - 'a' as int + 10
    } else {
        c as int - 'A' as int + 10
    }
}

/// Whether `c` is a hexadecimal digit (`0-9`, `a-f`, `A-F`).
pub open spec fn is_hex_char(c: char) -> bool {
    ('0' <= c && c <= '9') || ('a' <= c && c <= 'f') || ('A' <= c && c <= 'F')
}

/// Numeric value of a run of hexadecimal digits.
pub open spec fn hex_seq_value(s: Seq<char>) -> nat
    decreases s.len(),
{
    if s.len() == 0 {
        0
    } else {
        (hex_seq_value(s.drop_last()) * 16 + hex_value(s.last())) as nat
    }
}

/// The digits of a number written with an optional leading `+`.
pub open spec fn unsigned_body(s: Seq<char>) -> Seq<char> {
    if s.len() > 0 && s[0] == '+' { s.drop_first() } else { s }
}

/// Whether every character of `s` is a hexadecimal digit.
pub open spec fn all_hex(s: Seq<char>) -> bool {
    forall|i: int| 0 <= i < s.len() ==> is_hex_char(#[trigger] s[i])
}

/// What `u64::from_str_radix(s, 16)` returns: an optional leading `+`, then
/// one or more hexadecimal digits whose value fits in 64 bits.
pub open spec fn parse_hex_u64(s: Seq<char>) -> Option<u64> {
    let body = unsigned_body(s);
    if body.len() == 0 || !all_hex(body) || hex_seq_value(body) > u64::MAX {
        None
    } else {
        Some(hex_seq_value(body) as u64)
    }
}

/// Position of the first `/` in `s`, if any.
pub open spec fn first_slash(s: Seq<char>) -> Option<int> {
    if exists|i: int| 0 <= i < s.len() && s[i] == '/' {
        Some(choose|i: int| 0 <= i < s.len() && s[i] == '/' && forall|j: int| 0 <= j < i ==> s[j] != '/')
    } else {
        None
    }
}

/// The 64-bit LSN whose halves are `hi` and `lo`: `(hi << 32) | lo`, the
/// shift dropping the bits of `hi` above the low 32.
pub open spec fn lsn_from_halves(hi: u64, lo: u64) -> u64 {
    (hi << 32u64) | lo
}

/// The LSN that the text `X/Y` denotes, or why it denotes none.
pub open spec fn lsn_text_value(s: Seq<char>) -> Result<u64, LsnError> {
    match first_slash(s) {
        None => Err(LsnError::MissingSeparator),
        Some(i) => match (parse_hex_u64(s.take(i)), parse_hex_u64(s.skip(i + 1))) {
            (Some(hi), Some(lo)) => Ok(lsn_from_halves(hi, lo)),
            _ => Err(LsnError::InvalidNumber),
        },
    }
}

proof fn lemma_hex_value_grows(s: Seq<char>, i: int)
    requires
        0 <= i <= s.len(),
        forall|j: int| 0 <= j < s.len() ==> is_hex_char(#[trigger] s[j]),
    ensures
        hex_seq_value(s.take(i)) <= hex_seq_value(s),
    decreases s.len() - i,
{
    if i < s.len() {
        lemma_hex_value_grows(s, i + 1);
        assert(s.take(i + 1).drop_last() =~= s.take(i));
        let v = hex_seq_value(s.take(i));
        let d = hex_value(s.take(i + 1).last());
        assert(is_hex_char(s[i]));
        assert(0 <= d < 16);
        assert(hex_seq_value(s.take(i + 1)) == (v * 16 + d) as nat);
        assert(v * 16 + d >= v) by (nonlinear_arith)
            requires
                v >= 0,
                d >= 0,
        ;
    } else {
        assert(s.take(i) =~= s);
    }
}

fn hex_digit_value(c: char) -> (r: Option<u64>)
    ensures
        r is Some <==> is_hex_char(c),
        r matches Some(v) ==> v == hex_value(c) && v < 16,
{
    if '0' <= c && c <= '9' {
        Some((c as u64) - ('0' as u64))
    } else if 'a' <= c && c <= 'f' {
        Some((c as u64) - ('a' as u64) + 10)
    } else if 'A' <= c && c <= 'F' {
        Some((c as u64) - ('A' as u64) + 10)
    } else {
        None
    }
}

/// Reads `s[from..to]` (character positions) as `u64::from_str_radix(.., 16)`
/// does.
fn parse_hex_range(s: &str, from: usize, to: usize) -> (r: Option<u64>)
    requires
        from <= to <= s@.len(),
    ensures
        r == parse_hex_u64(s@.subrange(from as int, to as int)),
{
    let ghost t = s@.subrange(from as int, to as int);
    let mut start: usize = from;
    if from < to && s.get_char(from) == '+' {
        start = from + 1;
    }
    let ghost body = s@.subrange(start as int, to as int);
    assert(body =~= unsigned_body(t));
    if start == to {
        return None;
    }
    let mut acc: u64 = 0;
    let mut i: usize = start;
    assert(body.take(0) =~= seq![]);
    while i < to
        invariant
            from <= start <= i <= to <= s@.len(),
            start < to,
            body == s@.subrange(start as int, to as int),
            t == s@.subrange(from as int, to as int),
            body == unsigned_body(t),
            acc == hex_seq_value(body.take(i - start)),
            forall|j: int| 0 <= j < i - start ==> is_hex_char(#[trigger] body[j]),
        decreases to - i,
    {
        let c = s.get_char(i);
        assert(body[i - start] == c);
        let ghost k: int = i - start;
        assert(body.take(k + 1).drop_last() =~= body.take(k));
        assert(body.take(k + 1).last() == c);
        match hex_digit_value(c) {
            None => {
                assert(!is_hex_char(body[k]));
                assert(!all_hex(body));
                return None;
            },
            Some(d) => {
                if acc > (u64::MAX - d) / 16 {
                    proof {
                        assert(acc * 16 + d > u64::MAX) by (nonlinear_arith)
                            requires
                                acc > (u64::MAX - d) / 16,
                                d < 16,
                        ;
                        assert(hex_seq_value(body.take(k + 1)) == acc * 16 + d);
                        if all_hex(body) {
                            lemma_hex_value_grows(body, k + 1);
                        }
                    }
                    return None;
                }
                assert(acc * 16 + d <= u64::MAX) by (nonlinear_arith)
                    requires
                        acc <= (u64::MAX - d) / 16,
                        d < 16,
                ;
                acc = acc * 16 + d;
            },
        }
        i = i + 1;
    }
    assert(body.take(to - start) =~= body);
    Some(acc)
}

/// Reads an LSN written as two hexadecimal halves around a `/`
/// (`0/2000028`).
pub fn parse_lsn(s: &str) -> (r: Result<u64, LsnError>)
    ensures
        r == lsn_text_value(s@),
{
    let n: usize = s.unicode_len();
    let mut i: usize = 0;
    while i < n && s.get_char(i) != '/'
        invariant
            n == s@.len(),
            i <= n,
            forall|j: int| 0 <= j < i ==> s@[j] != '/',
        decreases n - i,
    {
        i = i + 1;
    }
    if i == n {
        assert(!exists|j: int| 0 <= j < s@.len() && s@[j] == '/');
        return Err(LsnError::MissingSeparator);
    }
    proof {
        assert(s@[i as int] == '/');
        let w = choose|k: int| 0 <= k < s@.len() && s@[k] == '/' && forall|j: int| 0 <= j < k ==> s@[j] != '/';
        assert(w == i) by {
            if w < i {
                assert(s@[w] != '/');
            } else if w > i {
                assert(s@[i as int] != '/');
            }
        }
        assert(s@.take(i as int) =~= s@.subrange(0, i as int));
        assert(s@.skip(i + 1) =~= s@.subrange(i + 1, n as int));
    }
    let hi = parse_hex_range(s, 0, i);
    let lo = parse_hex_range(s, i + 1, n);
    match (hi, lo) {
        (Some(h), Some(l)) => Ok((h << 32u64) | l),
        _ => Err(LsnError::InvalidNumber),
    }
}

/// The 24-character name of the WAL segment holding `lsn` on `timeline`:
/// timeline, log id and segment within the log id, each as eight upper-case
/// hexadecimal digits.
pub open spec fn wal_segment_name(timeline: u32, lsn: u64, wal_segment_size: u64) -> Seq<char> {
    let segs_per_id = 0x1_0000_0000nat / (wal_segment_size as nat);
    let segno = (lsn as nat) / (wal_segment_size as nat);
    hex8(timeline as nat) + hex8(segno / segs_per_id) + hex8(segno % segs_per_id)
}

/// Names the WAL segment file that holds `lsn` on `timeline`, for segments of
/// `wal_segment_size` bytes. The size divides the 4 GiB log id space.
pub fn segment_name(timeline: u32, lsn: u64, wal_segment_size: u64) -> (r: String)
    requires
        0 < wal_segment_size <= 0x1_0000_0000,
    ensures
        r@ == wal_segment_name(timeline, lsn, wal_segment_size),
{
    let segs_per_id: u64 = 0x1_0000_0000u64 / wal_segment_size;
    assert(segs_per_id >= 1) by (nonlinear_arith)
        requires
            0 < wal_segment_size <= 0x1_0000_0000,
            segs_per_id == 0x1_0000_0000u64 / wal_segment_size,
    ;
    let segno: u64 = lsn / wal_segment_size;
    let mut r = u64_to_hex8(timeline as u64);
    let a = u64_to_hex8(segno / segs_per_id);
    let b = u64_to_hex8(segno % segs_per_id);
    r.push_str(a.as_str());
    r.push_str(b.as_str());
    r
}

/// Whether `b` is an ASCII hexadecimal digit.
pub open spec fn is_hex_byte(b: u8) -> bool {
    (48 <= b && b <= 57) || (65 <= b && b <= 70) || (97 <= b && b <= 102)
}

/// The bytes of `.partial`.
pub open spec fn partial_suffix() -> Seq<u8> {
    seq![46u8, 112u8, 97u8, 114u8, 116u8, 105u8, 97u8, 108u8]
}

/// The bytes of `.backup`.
pub open spec fn backup_suffix() -> Seq<u8> {
    seq![46u8, 98u8, 97u8, 99u8, 107u8, 117u8, 112u8]
}

/// Whether the file name `name` (as bytes) is a WAL segment, a `.partial`
/// segment or a `.backup` history file: 24 hexadecimal digits followed by
/// nothing, by `.partial`, or by anything ending in `.backup`.
pub open spec fn is_wal_file(name: Seq<u8>) -> bool {
    &&& name.len() >= 24
    &&& forall|i: int| 0 <= i < 24 ==> is_hex_byte(#[trigger] name[i])
    &&& {
        let rest = name.skip(24);
        ||| rest.len() == 0
        ||| rest == partial_suffix()
        ||| (rest.len() >= 7 && rest.skip(rest.len() - 7) == backup_suffix())
    }
}

/// Strict lexicographic order on byte strings (the order of `str`'s `<`).
pub open spec fn bytes_lt(a: Seq<u8>, b: Seq<u8>) -> bool
    decreases a.len(),
{
    if a.len() == 0 {
        b.len() > 0
    } else if b.len() == 0 {
        false
    } else if a[0] != b[0] {
        a[0] < b[0]
    } else {
        bytes_lt(a.drop_first(), b.drop_first())
    }
}

/// The archive clean-up rule: `name` is a WAL file whose log and segment
/// part (bytes 8 to 24, ignoring the timeline) sorts before the threshold's.
pub open spec fn removable_before(name: Seq<u8>, threshold: Seq<u8>) -> bool {
    is_wal_file(name) && bytes_lt(name.subrange(8, 24), threshold.subrange(8, 24))
}

/// What the clean-up rule needs to compare: where `name` is a WAL file, the
/// threshold has the 24 bytes of a segment name.
pub open spec fn cleanup_threshold_fits(name: Seq<u8>, threshold: Seq<u8>) -> bool {
    is_wal_file(name) ==> threshold.len() >= 24
}

fn bytes_less(a: &[u8], b: &[u8], from: usize, to: usize) -> (r: bool)
    requires
        from <= to <= a@.len(),
        to <= b@.len(),
    ensures
        r == bytes_lt(a@.subrange(from as int, to as int), b@.subrange(from as int, to as int)),
{
    let mut i: usize = from;
    while i < to
        invariant
            from <= i <= to <= a@.len(),
            to <= b@.len(),
            bytes_lt(a@.subrange(from as int, to as int), b@.subrange(from as int, to as int))
                == bytes_lt(a@.subrange(i as int, to as int), b@.subrange(i as int, to as int)),
        decreases to - i,
    {
        let x = a[i];
        let y = b[i];
        let ghost sa = a@.subrange(i as int, to as int);
        let ghost sb = b@.subrange(i as int, to as int);
        assert(sa[0] == x && sb[0] == y);
        if x != y {
            return x < y;
        }
        assert(sa.drop_first() =~= a@.subrange(i + 1, to as int));
        assert(sb.drop_first() =~= b@.subrange(i + 1, to as int));
        i = i + 1;
    }
    false
}

fn has_suffix_bytes(rest: &[u8], from: usize, suffix: &[u8]) -> (r: bool)
    requires
        from <= rest@.len(),
    ensures
        r == (rest@.len() - from >= suffix@.len()
            && rest@.skip(rest@.len() - suffix@.len()) == suffix@),
{
    let n: usize = rest.len();
    let m: usize = suffix.len();
    if n - from < m {
        return false;
    }
    let base: usize = n - m;
    let mut i: usize = 0;
    while i < m
        invariant
            n == rest@.len(),
            m == suffix@.len(),
            base == n - m,
            i <= m,
            forall|j: int| 0 <= j < i ==> rest@[base + j] == suffix@[j],
        decreases m - i,
    {
        if rest[base + i] != suffix[i] {
            assert(rest@.skip(base as int)[i as int] != suffix@[i as int]);
            return false;
        }
        i = i + 1;
    }
    assert(rest@.skip(base as int) =~= suffix@);
    true
}

/// Whether the archived file `name` is no longer needed once the oldest kept
/// base backup starts at segment `threshold`: WAL segments, `.partial`
/// segments and `.backup` files whose log/segment part sorts before the
/// threshold's; the timeline is ignored and `.history` files are always kept.
pub fn is_removable_before(name: &str, threshold: &str) -> (r: bool)
    requires
        cleanup_threshold_fits(name.spec_bytes(), threshold.spec_bytes()),
    ensures
        r == removable_before(name.spec_bytes(), threshold.spec_bytes()),
{
    let nb = name.as_bytes();
    let tb = threshold.as_bytes();
    let n: usize = nb.len();
    if n < 24 {
        return false;
    }
    let mut i: usize = 0;
    while i < 24
        invariant
            n == nb@.len(),
            nb@ == name.spec_bytes(),
            n >= 24,
            i <= 24,
            forall|j: int| 0 <= j < i ==> is_hex_byte(#[trigger] nb@[j]),
        decreases 24 - i,
    {
        let b = nb[i];
        if !((48 <= b && b <= 57) || (65 <= b && b <= 70) || (97 <= b && b <= 102)) {
            assert(!is_hex_byte(nb@[i as int]));
            return false;
        }
        i = i + 1;
    }
    let ghost rest = nb@.skip(24);
    let partial: [u8; 8] = [46u8, 112u8, 97u8, 114u8, 116u8, 105u8, 97u8, 108u8];
    let backup: [u8; 7] = [46u8, 98u8, 97u8, 99u8, 107u8, 117u8, 112u8];
    assert(partial@ =~= partial_suffix());
    assert(backup@ =~= backup_suffix());
    let is_partial: bool = n == 32 && has_suffix_bytes(nb, 24, partial.as_slice());
    assert(is_partial == (rest == partial_suffix())) by {
        if n == 32 && rest == partial_suffix() {
            assert(nb@.skip(n - 8) =~= rest);
        }
        if is_partial {
            assert(nb@.skip(n - 8) =~= rest);
        }
    }
    let is_backup: bool = has_suffix_bytes(nb, 24, backup.as_slice());
    assert(is_backup == (rest.len() >= 7 && rest.skip(rest.len() - 7) == backup_suffix())) by {
        if rest.len() >= 7 {
            assert(rest.skip(rest.len() - 7) =~= nb@.skip(n - 7));
        }
    }
    let is_wal: bool = n == 24 || is_partial || is_backup;
    assert(is_wal == is_wal_file(nb@));
    if !is_wal {
        return false;
    }
    let less = bytes_less(nb, tb, 8, 24);
    less
}

/// The bytes of `.history`.
pub open spec fn history_suffix() -> Seq<u8> {
    seq![46u8, 104u8, 105u8, 115u8, 116u8, 111u8, 114u8, 121u8]
}

/// Timeline history files (`*.history`) are never removed.
pub proof fn law_history_files_kept(name: Seq<u8>, threshold: Seq<u8>)
    requires
        name.len() >= 8,
        name.skip(name.len() - 8) == history_suffix(),
    ensures
        !removable_before(name, threshold),
{
    let last = name[name.len() - 1];
    assert(name.skip(name.len() - 8)[7] == last);
    assert(last == 121u8);
    if is_wal_file(name) {
        let rest = name.skip(24);
        if rest.len() == 0 {
            assert(is_hex_byte(name[23]));
        } else if rest == partial_suffix() {
            assert(rest[7] == last);
        } else {
            let tail = rest.skip(rest.len() - 7);
            assert(tail[6] == last);
        }
    }
}

/// The rule ignores the timeline: two WAL file names that differ only in
/// their first eight (hexadecimal) bytes are removed alike.
pub proof fn law_removal_ignores_timeline(a: Seq<u8>, b: Seq<u8>, threshold: Seq<u8>)
    requires
        a.len() == b.len(),
        forall|i: int| 0 <= i < 8 && i < a.len() ==> is_hex_byte(#[trigger] a[i]) && is_hex_byte(b[i]),
        forall|i: int| 8 <= i < a.len() ==> #[trigger] a[i] == b[i],
    ensures
        removable_before(a, threshold) == removable_before(b, threshold),
{
    if a.len() >= 24 {
        assert(a.skip(24) =~= b.skip(24));
        assert(a.subrange(8, 24) =~= b.subrange(8, 24));
        assert forall|i: int| 0 <= i < 24 implies (is_hex_byte(#[trigger] a[i]) <==> is_hex_byte(b[i])) by {
            if i >= 8 {
                assert(a[i] == b[i]);
            }
        }
        if forall|i: int| 0 <= i < 24 ==> is_hex_byte(#[trigger] a[i]) {
            assert forall|i: int| 0 <= i < 24 implies is_hex_byte(#[trigger] b[i]) by {
                assert(is_hex_byte(a[i]));
            }
        }
        if forall|i: int| 0 <= i < 24 ==> is_hex_byte(#[trigger] b[i]) {
            assert forall|i: int| 0 <= i < 24 implies is_hex_byte(#[trigger] a[i]) by {
                assert(is_hex_byte(b[i]));
            }
        }
        assert(is_wal_file(a) == is_wal_file(b));
    } else {
        assert(!is_wal_file(a));
        assert(!is_wal_file(b));
    }
}

/// Nothing whose log/segment part is at or after the threshold's is
/// removed; in particular the threshold's own segment is kept.
pub proof fn law_threshold_segment_kept(name: Seq<u8>, threshold: Seq<u8>)
    requires
        name.len() >= 24,
        threshold.len() >= 24,
        !bytes_lt(name.subrange(8, 24), threshold.subrange(8, 24)),
    ensures
        !removable_before(name, threshold),
        !removable_before(threshold, threshold),
{
    crate::sorting::lemma_bytes_lt_asymmetric(threshold.subrange(8, 24), threshold.subrange(8, 24));
}

/// The WAL segment size a server reports (`pg_settings.setting`, in bytes)
/// when it is a whole number that segment naming accepts: more than zero and
/// at most the 4 GiB of a log id.
pub open spec fn reported_segment_size(text: Seq<char>) -> Option<u64> {
    match crate::time::parse_i64_text(text) {
        Some(v) => if 0 < v <= 0x1_0000_0000 {
            Some(v as u64)
        } else {
            None
        },
        None => None,
    }
}

/// Reads the WAL segment size a server reports; `None` where it is not a
/// size segment naming accepts.
pub fn segment_size_from_setting(text: &str) -> (r: Option<u64>)
    ensures
        r == reported_segment_size(text@),
        r matches Some(v) ==> 0 < v <= 0x1_0000_0000,
{
    match crate::time::parse_i64(text) {
        Some(v) => if 0 < v && v <= 0x1_0000_0000i64 {
            Some(v as u64)
        } else {
            None
        },
        None => None,
    }
}

} // verus!
