//! The WAL archive of an instance: which archived files can go once the
//! oldest kept base backup starts at a given segment, in what order they are
//! listed, what they weigh, and the segment that anchors the archive.

use vstd::prelude::*;
use vstd::utf8::*;
use vstd::string::StringSliceAdditionalSpecFns;
use crate::backups::BaseBackup;
use crate::config::opt_text;
use crate::sorting::{
    is_sorted, lemma_bytes_le_transitive, lemma_bytes_lt_asymmetric, lemma_bytes_lt_total,
    slice_bytes_less, sort_stable, sorted_stable, Ordered,
};
use crate::text::{digits, hex8, texts};
use crate::wal::{bytes_lt, cleanup_threshold_fits, is_removable_before, removable_before, wal_segment_name};

verus! {

broadcast use vstd::seq_lib::group_seq_properties, vstd::seq_lib::group_to_multiset_ensures;

/// An archived file: its name in the archive directory and its size.
#[derive(Clone, Debug)]
pub struct ArchiveFile {
    pub name: String,
    pub size: u64,
}

impl Ordered for ArchiveFile {
    /// Files order by the bytes of their names, then by size; the paths of
    /// files of one directory order as their names do.
    open spec fn before(&self, other: &Self) -> bool {
        let a = encode_utf8(self.name@);
        let b = encode_utf8(other.name@);
        bytes_lt(a, b) || (a == b && self.size < other.size)
    }

    proof fn lemma_before_asymmetric(a: &Self, b: &Self) {
        lemma_bytes_lt_asymmetric(encode_utf8(a.name@), encode_utf8(b.name@));
    }

    proof fn lemma_not_before_transitive(a: &Self, b: &Self, c: &Self) {
        let x = encode_utf8(a.name@);
        let y = encode_utf8(b.name@);
        let z = encode_utf8(c.name@);
        lemma_bytes_le_transitive(x, y, z);
        lemma_bytes_lt_total(x, y);
        lemma_bytes_lt_total(y, z);
        lemma_bytes_lt_total(x, z);
        lemma_bytes_lt_asymmetric(x, y);
        lemma_bytes_lt_asymmetric(y, z);
        lemma_bytes_lt_asymmetric(x, z);
    }

    fn is_before(&self, other: &Self) -> (r: bool) {
        let a = self.name.as_str().as_bytes();
        let b = other.name.as_str().as_bytes();
        if slice_bytes_less(a, b) {
            return true;
        }
        if slice_bytes_less(b, a) {
            proof {
                lemma_bytes_lt_asymmetric(b@, a@);
            }
            return false;
        }
        proof {
            lemma_bytes_lt_total(a@, b@);
        }
        self.size < other.size
    }
}

/// Whether the archived file `f` can go once the oldest kept backup starts
/// at segment `threshold`.
pub open spec fn file_removable(f: ArchiveFile, threshold: Seq<char>) -> bool {
    removable_before(encode_utf8(f.name@), encode_utf8(threshold))
}

/// The archived files that are no longer needed once the oldest kept base
/// backup starts at segment `threshold`, in path order (the rule
/// `pg_archivecleanup` applies).
pub open spec fn files_before(files: Seq<ArchiveFile>, threshold: Seq<char>) -> Seq<ArchiveFile> {
    sorted_stable(files.filter(|f: ArchiveFile| file_removable(f, threshold)))
}

/// The archived files that can be removed once the oldest kept base backup
/// starts at segment `threshold`, sorted by name and size.
pub fn select_archive_files(files: Vec<ArchiveFile>, threshold: &str) -> (r: Vec<ArchiveFile>)
    requires
        forall|i: int| 0 <= i < files@.len() ==> cleanup_threshold_fits(
            encode_utf8(#[trigger] files@[i].name@),
            encode_utf8(threshold@),
        ),
    ensures
        r@ == files_before(files@, threshold@),
        is_sorted(r@),
{
    let ghost s = files@;
    let ghost p = |f: ArchiveFile| file_removable(f, threshold@);
    let n: usize = files.len();
    let mut rest = files;
    let mut kept: Vec<ArchiveFile> = Vec::new();
    let mut i: usize = 0;
    assert(s.take(0) =~= seq![]);
    assert(s.skip(0) =~= s);
    proof {
        reveal(Seq::filter);
    }
    while i < n
        invariant
            n == s.len(),
            i <= n,
            rest@ == s.skip(i as int),
            kept@ == s.take(i as int).filter(p),
            p == (|f: ArchiveFile| file_removable(f, threshold@)),
            forall|j: int| 0 <= j < s.len() ==> cleanup_threshold_fits(
                encode_utf8(#[trigger] s[j].name@),
                encode_utf8(threshold@),
            ),
        decreases n - i,
    {
        let f = rest.remove(0);
        assert(f == s[i as int]);
        assert(rest@ =~= s.skip(i + 1));
        assert(s.take(i + 1) =~= s.take(i as int).push(f));
        proof {
            s.take(i as int).lemma_filter_push(f, p);
        }
        if is_removable_before(f.name.as_str(), threshold) {
            kept.push(f);
        }
        i = i + 1;
    }
    assert(s.take(n as int) =~= s);
    sort_stable(kept)
}

/// Total size of the files.
pub open spec fn total_size(files: Seq<ArchiveFile>) -> nat
    decreases files.len(),
{
    if files.len() == 0 {
        0
    } else {
        total_size(files.drop_last()) + files.last().size as nat
    }
}

/// The total size of the files, which fits in 64 bits.
pub fn files_size(files: &Vec<ArchiveFile>) -> (r: u64)
    requires
        total_size(files@) <= u64::MAX,
    ensures
        r == total_size(files@),
{
    let n: usize = files.len();
    let mut sum: u64 = 0;
    let mut i: usize = 0;
    assert(files@.take(0) =~= seq![]);
    while i < n
        invariant
            n == files@.len(),
            i <= n,
            sum == total_size(files@.take(i as int)),
            total_size(files@) <= u64::MAX,
        decreases n - i,
    {
        proof {
            let t = files@.take(i + 1);
            assert(t.drop_last() =~= files@.take(i as int));
            lemma_total_size_prefix(files@, i + 1);
        }
        sum = sum + files[i].size;
        i = i + 1;
    }
    assert(files@.take(n as int) =~= files@);
    sum
}

proof fn lemma_total_size_prefix(files: Seq<ArchiveFile>, k: int)
    requires
        0 <= k <= files.len(),
    ensures
        total_size(files.take(k)) <= total_size(files),
    decreases files.len() - k,
{
    if k < files.len() {
        lemma_total_size_prefix(files, k + 1);
        assert(files.take(k + 1).drop_last() =~= files.take(k));
    } else {
        assert(files.take(k) =~= files);
    }
}

proof fn lemma_digits_ascii(n: nat, base: nat)
    ensures
        vstd::utf8::is_ascii_chars(digits(n, base)),
        digits(n, base).len() >= 1,
    decreases n,
{
    if !(base < 2 || n < base) {
        assert(n / base < n) by (nonlinear_arith)
            requires
                base >= 2,
                n >= base,
        ;
        lemma_digits_ascii(n / base, base);
    }
}

proof fn lemma_hex8_ascii(n: nat)
    ensures
        vstd::utf8::is_ascii_chars(hex8(n)),
        hex8(n).len() >= 8,
{
    lemma_digits_ascii(n, 16);
}

/// Segment names are ASCII and at least 24 characters long.
pub proof fn lemma_segment_name_ascii(timeline: u32, lsn: u64, wal_segment_size: u64)
    requires
        0 < wal_segment_size,
    ensures
        vstd::utf8::is_ascii_chars(wal_segment_name(timeline, lsn, wal_segment_size)),
        wal_segment_name(timeline, lsn, wal_segment_size).len() >= 24,
{
    let spi = 0x1_0000_0000nat / (wal_segment_size as nat);
    let segno = (lsn as nat) / (wal_segment_size as nat);
    lemma_hex8_ascii(timeline as nat);
    lemma_hex8_ascii(segno / spi);
    lemma_hex8_ascii(segno % spi);
}

/// The bytes of a name from byte 8 on: the log and segment part of a
/// segment name, without the timeline.
pub open spec fn after_timeline(name: Seq<char>) -> Seq<u8> {
    let b = encode_utf8(name);
    b.subrange(8, b.len() as int)
}

/// The names the archive threshold is chosen among: the start segments of
/// the kept backups, then the pending segment if there is one.
pub open spec fn threshold_candidates(
    kept: Seq<BaseBackup>,
    wal_segment_size: u64,
    pending: Option<Seq<char>>,
) -> Seq<Seq<char>> {
    Seq::new(kept.len(), |i: int| wal_segment_name(kept[i].timeline, kept[i].start_lsn, wal_segment_size))
        + match pending {
        Some(p) => seq![p],
        None => seq![],
    }
}

/// Position of the first candidate whose log/segment part is smallest.
pub open spec fn first_smallest(c: Seq<Seq<char>>) -> int {
    choose|m: int|
        #![trigger c[m]]
        0 <= m < c.len() && (forall|j: int| 0 <= j < c.len() ==> !bytes_lt(after_timeline(#[trigger] c[j]), after_timeline(c[m])))
            && (forall|j: int| 0 <= j < m ==> bytes_lt(after_timeline(c[m]), after_timeline(#[trigger] c[j])))
}

/// The segment that anchors the archive: among the kept backups' start
/// segments and the pending one, the first whose log/segment part is
/// smallest; none when there are no candidates.
pub open spec fn archive_threshold_text(
    kept: Seq<BaseBackup>,
    wal_segment_size: u64,
    pending: Option<Seq<char>>,
) -> Option<Seq<char>> {
    let c = threshold_candidates(kept, wal_segment_size, pending);
    if c.len() == 0 {
        None
    } else {
        Some(c[first_smallest(c)])
    }
}

/// What choosing the threshold needs: where the pending segment is compared
/// with another candidate, it has at least the 8 bytes of a timeline.
pub open spec fn threshold_inputs_sliceable(kept_len: nat, pending: Option<Seq<char>>) -> bool {
    match pending {
        Some(p) => kept_len >= 1 ==> encode_utf8(p).len() >= 8,
        None => true,
    }
}

fn less_after_timeline(a: &str, b: &str) -> (r: bool)
    requires
        a.spec_bytes().len() >= 8,
        b.spec_bytes().len() >= 8,
    ensures
        r == bytes_lt(after_timeline(a@), after_timeline(b@)),
{
    let x = a.as_bytes();
    let y = b.as_bytes();
    let n: usize = x.len();
    let m: usize = y.len();
    let mut i: usize = 8;
    assert(x@.skip(8) =~= after_timeline(a@));
    assert(y@.skip(8) =~= after_timeline(b@));
    while i < n && i < m
        invariant
            n == x@.len(),
            m == y@.len(),
            8 <= i,
            i <= n,
            i <= m,
            bytes_lt(after_timeline(a@), after_timeline(b@)) == bytes_lt(x@.skip(i as int), y@.skip(i as int)),
        decreases n - i,
    {
        if x[i] != y[i] {
            return x[i] < y[i];
        }
        assert(x@.skip(i as int).drop_first() =~= x@.skip(i + 1));
        assert(y@.skip(i as int).drop_first() =~= y@.skip(i + 1));
        i = i + 1;
    }
    i == n && i < m
}

/// A candidate strictly below the smallest so far is the new first
/// smallest.
proof fn lemma_new_smallest(c: Seq<Seq<char>>, best: int, k: int)
    requires
        0 <= best < k < c.len(),
        bytes_lt(after_timeline(c[k]), after_timeline(c[best])),
        forall|j: int| 0 <= j < k ==> !bytes_lt(after_timeline(#[trigger] c[j]), after_timeline(c[best])),
        forall|j: int| 0 <= j < best ==> bytes_lt(after_timeline(c[best]), after_timeline(#[trigger] c[j])),
    ensures
        forall|j: int| 0 <= j < k + 1 ==> !bytes_lt(after_timeline(#[trigger] c[j]), after_timeline(c[k])),
        forall|j: int| 0 <= j < k ==> bytes_lt(after_timeline(c[k]), after_timeline(#[trigger] c[j])),
{
    let x = after_timeline(c[k]);
    let y = after_timeline(c[best]);
    assert forall|j: int| 0 <= j < k + 1 implies !bytes_lt(after_timeline(#[trigger] c[j]), x) by {
        if j < k {
            let z = after_timeline(c[j]);
            lemma_bytes_le_transitive(x, y, z);
            lemma_bytes_lt_asymmetric(x, y);
        } else {
            lemma_bytes_lt_asymmetric(x, x);
        }
    }
    assert forall|j: int| 0 <= j < k implies bytes_lt(x, after_timeline(#[trigger] c[j])) by {
        let z = after_timeline(c[j]);
        lemma_bytes_lt_total(y, z);
        if j != best {
            crate::sorting::lemma_bytes_lt_transitive(x, y, z);
            if !bytes_lt(y, z) {
                assert(y == z);
            }
        }
    }
}

/// The position found by the scan is the one [`first_smallest`] picks.
proof fn lemma_first_smallest_at(c: Seq<Seq<char>>, best: int)
    requires
        0 <= best < c.len(),
        forall|j: int| 0 <= j < c.len() ==> !bytes_lt(after_timeline(#[trigger] c[j]), after_timeline(c[best])),
        forall|j: int| 0 <= j < best ==> bytes_lt(after_timeline(c[best]), after_timeline(#[trigger] c[j])),
    ensures
        first_smallest(c) == best,
{
    let m = first_smallest(c);
    assert(0 <= best < c.len() && (forall|j: int| 0 <= j < c.len() ==> !bytes_lt(after_timeline(#[trigger] c[j]), after_timeline(c[best])))
        && (forall|j: int| 0 <= j < best ==> bytes_lt(after_timeline(c[best]), after_timeline(#[trigger] c[j]))));
    assert(m == best) by {
        if m < best {
            assert(bytes_lt(after_timeline(c[best]), after_timeline(c[m])));
        }
        if m > best {
            assert(bytes_lt(after_timeline(c[m]), after_timeline(c[best])));
        }
    }
}

/// Where the equal-length prefixes of two byte strings are ordered, so are
/// the strings.
proof fn lemma_bytes_lt_prefix(x: Seq<u8>, y: Seq<u8>, k: int)
    requires
        0 <= k <= x.len(),
        k <= y.len(),
        bytes_lt(x.take(k), y.take(k)),
    ensures
        bytes_lt(x, y),
    decreases k,
{
    assert(k > 0);
    assert(x.take(k)[0] == x[0]);
    assert(y.take(k)[0] == y[0]);
    if x[0] == y[0] {
        assert(x.take(k).drop_first() =~= x.drop_first().take(k - 1));
        assert(y.take(k).drop_first() =~= y.drop_first().take(k - 1));
        lemma_bytes_lt_prefix(x.drop_first(), y.drop_first(), k - 1);
    }
}

/// Position of the first smallest candidate among the first `k`, found by
/// scanning left to right.
spec fn scan_smallest(c: Seq<Seq<char>>, k: int) -> int
    decreases k,
{
    if k <= 1 {
        0
    } else {
        let b = scan_smallest(c, k - 1);
        if bytes_lt(after_timeline(c[k - 1]), after_timeline(c[b])) {
            k - 1
        } else {
            b
        }
    }
}

proof fn lemma_scan_smallest(c: Seq<Seq<char>>, k: int)
    requires
        1 <= k <= c.len(),
    ensures
        0 <= scan_smallest(c, k) < k,
        forall|j: int| 0 <= j < k ==> !bytes_lt(after_timeline(#[trigger] c[j]), after_timeline(c[scan_smallest(c, k)])),
        forall|j: int| 0 <= j < scan_smallest(c, k) ==> bytes_lt(after_timeline(c[scan_smallest(c, k)]), after_timeline(#[trigger] c[j])),
    decreases k,
{
    if k == 1 {
        lemma_bytes_lt_asymmetric(after_timeline(c[0]), after_timeline(c[0]));
    } else {
        lemma_scan_smallest(c, k - 1);
        let b = scan_smallest(c, k - 1);
        if bytes_lt(after_timeline(c[k - 1]), after_timeline(c[b])) {
            lemma_new_smallest(c, b, k - 1);
        }
    }
}

/// Compaction never removes WAL that a kept backup needs: once the archive
/// threshold is chosen among the kept backups' start segments (and the
/// pending segment), no file whose log/segment part is at or after the start
/// segment of a kept backup is removable.
pub proof fn law_kept_backup_wal_kept(
    kept: Seq<BaseBackup>,
    wal_segment_size: u64,
    pending: Option<Seq<char>>,
    i: int,
    name: Seq<u8>,
)
    requires
        0 < wal_segment_size <= 0x1_0000_0000,
        0 <= i < kept.len(),
        pending matches Some(p) ==> encode_utf8(p).len() >= 24,
        name.len() >= 24,
        !bytes_lt(
            name.subrange(8, 24),
            encode_utf8(wal_segment_name(kept[i].timeline, kept[i].start_lsn, wal_segment_size)).subrange(8, 24),
        ),
    ensures
        archive_threshold_text(kept, wal_segment_size, pending) is Some,
        !removable_before(name, encode_utf8(archive_threshold_text(kept, wal_segment_size, pending)->0)),
{
    let c = threshold_candidates(kept, wal_segment_size, pending);
    assert(c.len() >= 1);
    lemma_scan_smallest(c, c.len() as int);
    let m = scan_smallest(c, c.len() as int);
    lemma_first_smallest_at(c, m);
    let th = c[m];
    let ci = c[i];
    assert(ci == wal_segment_name(kept[i].timeline, kept[i].start_lsn, wal_segment_size));
    lemma_segment_name_ascii(kept[i].timeline, kept[i].start_lsn, wal_segment_size);
    vstd::utf8::is_ascii_chars_encode_utf8(ci);
    if m < kept.len() {
        lemma_segment_name_ascii(kept[m].timeline, kept[m].start_lsn, wal_segment_size);
        vstd::utf8::is_ascii_chars_encode_utf8(th);
    }
    let a = after_timeline(th);
    let b = after_timeline(ci);
    assert(!bytes_lt(b, a));
    assert(encode_utf8(th).subrange(8, 24) =~= a.take(16));
    assert(encode_utf8(ci).subrange(8, 24) =~= b.take(16));
    if bytes_lt(b.take(16), a.take(16)) {
        lemma_bytes_lt_prefix(b, a, 16);
    }
    lemma_bytes_le_transitive(encode_utf8(th).subrange(8, 24), encode_utf8(ci).subrange(8, 24), name.subrange(8, 24));
}

/// The candidate names, each as text: the kept backups' start segments,
/// then the pending segment.
fn candidate_names(kept: &Vec<BaseBackup>, wal_segment_size: u64, pending: Option<String>) -> (r: Vec<String>)
    requires
        0 < wal_segment_size <= 0x1_0000_0000,
        threshold_inputs_sliceable(kept@.len(), opt_text(pending)),
    ensures
        texts(r@) == threshold_candidates(kept@, wal_segment_size, opt_text(pending)),
        r@.len() >= 2 ==> forall|j: int| 0 <= j < r@.len() ==> encode_utf8(#[trigger] r@[j]@).len() >= 8,
{
    let ghost c = threshold_candidates(kept@, wal_segment_size, opt_text(pending));
    let n: usize = kept.len();
    let mut names: Vec<String> = Vec::new();
    let mut i: usize = 0;
    while i < n
        invariant
            n == kept@.len(),
            i <= n,
            0 < wal_segment_size <= 0x1_0000_0000,
            names@.len() == i,
            forall|j: int| 0 <= j < i ==> (#[trigger] names@[j])@ == c[j],
            c == threshold_candidates(kept@, wal_segment_size, opt_text(pending)),
        decreases n - i,
    {
        let s = kept[i].start_segment(wal_segment_size);
        names.push(s);
        i = i + 1;
    }
    match pending {
        Some(p) => names.push(p),
        None => {},
    }
    assert(texts(names@) =~= c);
    proof {
        assert forall|j: int| 0 <= j < names@.len() && names@.len() >= 2 implies encode_utf8(#[trigger] names@[j]@).len() >= 8 by {
            if j < n {
                lemma_segment_name_ascii(kept@[j].timeline, kept@[j].start_lsn, wal_segment_size);
                vstd::utf8::is_ascii_chars_encode_utf8(c[j]);
            }
        }
    }
    names
}

/// Position of the first name whose log/segment part is smallest.
fn first_smallest_index(names: &Vec<String>) -> (best: usize)
    requires
        names@.len() > 0,
        names@.len() >= 2 ==> forall|j: int| 0 <= j < names@.len() ==> encode_utf8(#[trigger] names@[j]@).len() >= 8,
    ensures
        best < names@.len(),
        best == first_smallest(texts(names@)),
{
    let ghost c = texts(names@);
    let total: usize = names.len();
    let mut best: usize = 0;
    let mut k: usize = 1;
    proof {
        lemma_bytes_lt_asymmetric(after_timeline(c[0]), after_timeline(c[0]));
    }
    while k < total
        invariant
            total == names@.len(),
            c == texts(names@),
            1 <= k <= total,
            best < k,
            total >= 2 ==> forall|j: int| 0 <= j < total ==> encode_utf8(#[trigger] names@[j]@).len() >= 8,
            forall|j: int| 0 <= j < k ==> !bytes_lt(after_timeline(#[trigger] c[j]), after_timeline(c[best as int])),
            forall|j: int| 0 <= j < best ==> bytes_lt(after_timeline(c[best as int]), after_timeline(#[trigger] c[j])),
        decreases total - k,
    {
        assert(names@[k as int]@ == c[k as int]);
        assert(names@[best as int]@ == c[best as int]);
        assert(encode_utf8(names@[k as int]@).len() >= 8);
        assert(encode_utf8(names@[best as int]@).len() >= 8);
        if less_after_timeline(names[k].as_str(), names[best].as_str()) {
            proof {
                lemma_new_smallest(c, best as int, k as int);
            }
            best = k;
        }
        k = k + 1;
    }
    proof {
        lemma_first_smallest_at(c, best as int);
    }
    best
}

/// Chooses the segment that anchors the archive after a compaction (see
/// [`archive_threshold_text`]); `None` when there is nothing to anchor it.
pub fn archive_threshold(kept: &Vec<BaseBackup>, wal_segment_size: u64, pending: Option<String>) -> (r: Option<String>)
    requires
        0 < wal_segment_size <= 0x1_0000_0000,
        threshold_inputs_sliceable(kept@.len(), opt_text(pending)),
    ensures
        match r {
            Some(t) => archive_threshold_text(kept@, wal_segment_size, opt_text(pending)) == Some(t@),
            None => archive_threshold_text(kept@, wal_segment_size, opt_text(pending)) is None,
        },
{
    let names = candidate_names(kept, wal_segment_size, pending);
    if names.len() == 0 {
        return None;
    }
    let best = first_smallest_index(&names);
    let ghost c = texts(names@);
    assert(c[best as int] == names@[best as int]@);
    let mut names = names;
    let chosen = names.remove(best);
    Some(chosen)
}

} // verus!
