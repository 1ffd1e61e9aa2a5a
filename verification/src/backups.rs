//! Base backups: where a new one goes, which to keep under a retention
//! cutoff, which one a recovery target starts from, their order, and the
//! sizes printed about them.

use vstd::prelude::*;
use crate::paths::{join, join_path, paths_equal, same_path, trim_start_matches_str, trim_start_repeated};
use crate::text::{concat2, decimal, hex_digit_char, owned, u64_to_decimal};
use vstd::arithmetic::power2::{pow2, lemma2_to64, lemma2_to64_rest, lemma_pow2_unfold};
use vstd::arithmetic::div_mod::lemma_div_denominator;
use crate::time::{format_text, format_utc, ts_lt, Timestamp};
use crate::wal::{segment_name, wal_segment_name};
use crate::sorting::{is_sorted, sort_stable, sorted_stable, Ordered};

verus! {

broadcast use vstd::seq_lib::group_seq_properties, vstd::seq_lib::group_to_multiset_ensures;

/// A completed base backup of an instance.
#[derive(Clone, Debug)]
pub struct BaseBackup {
    /// Directory name under the instance's `backups/`.
    pub name: String,
    /// Host path of the backup directory.
    pub dir: String,
    /// When the backup completed (modification time of `backup_manifest`,
    /// which `pg_basebackup` writes last). Recovery targets must be at or
    /// after this.
    pub taken_at: Timestamp,
    /// Timeline the backup starts on.
    pub timeline: u32,
    /// LSN the backup starts at.
    pub start_lsn: u64,
}

impl BaseBackup {
    /// Name of the WAL segment this backup starts in.
    pub fn start_segment(&self, wal_segment_size: u64) -> (r: String)
        requires
            0 < wal_segment_size <= 0x1_0000_0000,
        ensures
            r@ == wal_segment_name(self.timeline, self.start_lsn, wal_segment_size),
    {
        segment_name(self.timeline, self.start_lsn, wal_segment_size)
    }
}

/// Path inside the container (`/backups` is the instance's backups
/// directory) of a base backup taken at `now`: `/backups/` followed by the
/// instant as `%Y%m%dT%H%M%SZ`.
pub open spec fn backup_path_text(now: Timestamp) -> Option<Seq<char>> {
    match format_text(now.secs, now.nanos, "%Y%m%dT%H%M%SZ"@) {
        Some(stamp) => Some("/backups/"@ + stamp),
        None => None,
    }
}

/// Path inside the container for a new base backup taken at `now`; `None`
/// where chrono cannot represent `now`.
pub fn new_backup_path(now: Timestamp) -> (r: Option<String>)
    ensures
        r is Some <==> backup_path_text(now) is Some,
        r matches Some(p) ==> p@ == backup_path_text(now)->0,
{
    match format_utc(now, "%Y%m%dT%H%M%SZ") {
        Some(stamp) => Some(concat2("/backups/", stamp.as_str())),
        None => None,
    }
}

/// Host path of the backup directory that `container_path` names inside the
/// container: the part after any leading `/backups/` prefixes, under the
/// instance's `backups` directory.
pub open spec fn host_backup_path(instance_dir: Seq<char>, container_path: Seq<char>) -> Seq<char> {
    join(join(instance_dir, "backups"@), trim_start_repeated(container_path, "/backups/"@))
}

/// Host path of the backup directory created at `container_path` (see
/// [`new_backup_path`]).
pub fn host_backup_dir(instance_dir: &str, container_path: &str) -> (r: String)
    ensures
        r@ == host_backup_path(instance_dir@, container_path@),
{
    let name = trim_start_matches_str(container_path, "/backups/");
    let backups = join_path(instance_dir, "backups");
    join_path(backups.as_str(), name.as_str())
}

/// The characters of an optional path.
pub open spec fn path_view(p: Option<&str>) -> Option<Seq<char>> {
    match p {
        Some(k) => Some(k@),
        None => None,
    }
}

/// The newest (last in `backups`) backup taken strictly before `cutoff`.
pub open spec fn anchor_index(backups: Seq<BaseBackup>, cutoff: Timestamp) -> Option<int> {
    if exists|i: int| 0 <= i < backups.len() && ts_lt(#[trigger] backups[i].taken_at, cutoff) {
        Some(choose|i: int|
            0 <= i < backups.len() && ts_lt(backups[i].taken_at, cutoff) && forall|j: int|
                i < j < backups.len() ==> !ts_lt(#[trigger] backups[j].taken_at, cutoff))
    } else {
        None
    }
}

/// Whether `b`, one of `backups`, survives a retention cutoff: taken at or
/// after the cutoff, or at the path to always keep, or (unless `strict`) at
/// the path of the newest backup older than the cutoff, which anchors the
/// start of the recovery window.
pub open spec fn retained(
    b: BaseBackup,
    backups: Seq<BaseBackup>,
    cutoff: Timestamp,
    always_keep: Option<Seq<char>>,
    strict: bool,
) -> bool {
    ||| !ts_lt(b.taken_at, cutoff)
    ||| (always_keep matches Some(k) && same_path(b.dir@, k))
    ||| (!strict && (anchor_index(backups, cutoff) matches Some(a) && same_path(
        b.dir@,
        backups[a].dir@,
    )))
}

/// The backups of `backups` that survive, in order.
pub open spec fn kept_backups(
    backups: Seq<BaseBackup>,
    cutoff: Timestamp,
    always_keep: Option<Seq<char>>,
    strict: bool,
) -> Seq<BaseBackup> {
    backups.filter(|b: BaseBackup| retained(b, backups, cutoff, always_keep, strict))
}

/// The backups of `backups` that do not survive, in order.
pub open spec fn removed_backups(
    backups: Seq<BaseBackup>,
    cutoff: Timestamp,
    always_keep: Option<Seq<char>>,
    strict: bool,
) -> Seq<BaseBackup> {
    backups.filter(|b: BaseBackup| !retained(b, backups, cutoff, always_keep, strict))
}

fn find_anchor(backups: &Vec<BaseBackup>, cutoff: Timestamp) -> (r: Option<usize>)
    ensures
        r matches Some(i) ==> anchor_index(backups@, cutoff) == Some(i as int) && i < backups@.len(),
        r is None ==> anchor_index(backups@, cutoff) is None,
{
    let n: usize = backups.len();
    let mut j: usize = n;
    while j > 0
        invariant
            j <= n == backups@.len(),
            forall|k: int| j <= k < n ==> !ts_lt(#[trigger] backups@[k].taken_at, cutoff),
        decreases j,
    {
        if backups[j - 1].taken_at.is_before(&cutoff) {
            let ghost i = (j - 1) as int;
            proof {
                let bs = backups@;
                assert(0 <= i < bs.len() && ts_lt(bs[i].taken_at, cutoff));
                let c = choose|x: int|
                    0 <= x < bs.len() && ts_lt(bs[x].taken_at, cutoff) && forall|y: int|
                        x < y < bs.len() ==> !ts_lt(#[trigger] bs[y].taken_at, cutoff);
                assert(0 <= i < bs.len() && ts_lt(bs[i].taken_at, cutoff) && forall|y: int|
                    i < y < bs.len() ==> !ts_lt(#[trigger] bs[y].taken_at, cutoff));
                assert(c == i) by {
                    if c < i {
                        assert(!ts_lt(bs[i].taken_at, cutoff));
                    }
                    if c > i {
                        assert(!ts_lt(bs[c].taken_at, cutoff));
                    }
                }
            }
            return Some(j - 1);
        }
        j = j - 1;
    }
    None
}

/// Splits backups (oldest first) into those kept and those removed under a
/// retention cutoff. Backups newer than the cutoff and `always_keep` are
/// kept. Unless `strict`, the newest backup older than the cutoff is kept
/// too: it anchors the start of the window, so recovery reaches back the
/// full retention period.
pub fn select_retained(
    backups: Vec<BaseBackup>,
    cutoff: Timestamp,
    always_keep: Option<&str>,
    strict: bool,
) -> (r: (Vec<BaseBackup>, Vec<BaseBackup>))
    ensures
        r.0@ == kept_backups(backups@, cutoff, path_view(always_keep), strict),
        r.1@ == removed_backups(backups@, cutoff, path_view(always_keep), strict),
{
    let ghost bs = backups@;
    let ghost keep = path_view(always_keep);
    let anchor: Option<usize> = if strict { None } else { find_anchor(&backups, cutoff) };
    let anchor_dir: Option<String> = match anchor {
        Some(a) => Some(backups[a].dir.clone()),
        None => None,
    };
    let ghost p = |b: BaseBackup| retained(b, bs, cutoff, keep, strict);
    let ghost np = |b: BaseBackup| !retained(b, bs, cutoff, keep, strict);
    let n: usize = backups.len();
    let mut rest = backups;
    let mut kept: Vec<BaseBackup> = Vec::new();
    let mut removed: Vec<BaseBackup> = Vec::new();
    let mut i: usize = 0;
    assert(bs.take(0) =~= seq![]);
    proof {
        reveal(Seq::filter);
    }
    assert(bs.skip(0) =~= bs);
    while i < n
        invariant
            n == bs.len(),
            i <= n,
            rest@ == bs.skip(i as int),
            kept@ == bs.take(i as int).filter(p),
            removed@ == bs.take(i as int).filter(np),
            p == (|b: BaseBackup| retained(b, bs, cutoff, keep, strict)),
            np == (|b: BaseBackup| !retained(b, bs, cutoff, keep, strict)),
            keep == path_view(always_keep),
            strict ==> anchor_dir is None,
            !strict ==> match anchor_index(bs, cutoff) {
                Some(a) => 0 <= a < bs.len() && (anchor_dir matches Some(d) && d@ == bs[a].dir@),
                None => anchor_dir is None,
            },
        decreases n - i,
    {
        let b = rest.remove(0);
        assert(b == bs[i as int]);
        assert(rest@ =~= bs.skip(i + 1));
        let recent: bool = !b.taken_at.is_before(&cutoff);
        let pinned: bool = match always_keep {
            Some(k) => paths_equal(b.dir.as_str(), k),
            None => false,
        };
        let anchored: bool = match &anchor_dir {
            Some(d) => paths_equal(b.dir.as_str(), d.as_str()),
            None => false,
        };
        assert((recent || pinned || anchored) == retained(b, bs, cutoff, keep, strict));
        assert(bs.take(i + 1) =~= bs.take(i as int).push(b));
        proof {
            bs.take(i as int).lemma_filter_push(b, p);
            bs.take(i as int).lemma_filter_push(b, np);
        }
        if recent || pinned || anchored {
            kept.push(b);
        } else {
            removed.push(b);
        }
        i = i + 1;
    }
    assert(bs.take(n as int) =~= bs);
    (kept, removed)
}

/// Index of the newest (last in `backups`) backup that completed at or
/// before `target`.
pub open spec fn target_backup_index(backups: Seq<BaseBackup>, target: Timestamp) -> Option<int> {
    if exists|i: int| 0 <= i < backups.len() && !ts_lt(target, #[trigger] backups[i].taken_at) {
        Some(choose|i: int|
            0 <= i < backups.len() && !ts_lt(target, backups[i].taken_at) && forall|j: int|
                i < j < backups.len() ==> ts_lt(target, #[trigger] backups[j].taken_at))
    } else {
        None
    }
}

/// The newest backup that completed at or before `target`.
pub fn backup_for_target(backups: &[BaseBackup], target: Timestamp) -> (r: Option<&BaseBackup>)
    ensures
        r is Some <==> target_backup_index(backups@, target) is Some,
        r matches Some(b) ==> *b == backups@[target_backup_index(backups@, target)->0],
{
    let n: usize = backups.len();
    let mut j: usize = n;
    while j > 0
        invariant
            j <= n == backups@.len(),
            forall|k: int| j <= k < n ==> ts_lt(target, #[trigger] backups@[k].taken_at),
        decreases j,
    {
        if !target.is_before(&backups[j - 1].taken_at) {
            let ghost i = (j - 1) as int;
            proof {
                let bs = backups@;
                let c = choose|x: int|
                    0 <= x < bs.len() && !ts_lt(target, bs[x].taken_at) && forall|y: int|
                        x < y < bs.len() ==> ts_lt(target, #[trigger] bs[y].taken_at);
                assert(0 <= i < bs.len() && !ts_lt(target, bs[i].taken_at) && forall|y: int|
                    i < y < bs.len() ==> ts_lt(target, #[trigger] bs[y].taken_at));
                assert(c == i) by {
                    if c < i {
                        assert(ts_lt(target, bs[i].taken_at));
                    }
                    if c > i {
                        assert(ts_lt(target, bs[c].taken_at));
                    }
                }
            }
            return Some(&backups[j - 1]);
        }
        j = j - 1;
    }
    None
}

proof fn lemma_filter_complement<A>(s: Seq<A>, p: spec_fn(A) -> bool, q: spec_fn(A) -> bool)
    requires
        forall|x: A| #[trigger] q(x) == !p(x),
    ensures
        s.filter(p).len() + s.filter(q).len() == s.len(),
        s.filter(p).to_multiset().add(s.filter(q).to_multiset()) == s.to_multiset(),
    decreases s.len(),
{
    reveal(Seq::filter);
    if s.len() == 0 {
        assert(s.to_multiset() =~= vstd::multiset::Multiset::empty());
        assert(s.filter(p).to_multiset() =~= vstd::multiset::Multiset::empty());
        assert(s.filter(q).to_multiset() =~= vstd::multiset::Multiset::empty());
    } else {
        let d = s.drop_last();
        lemma_filter_complement(d, p, q);
        assert(d.push(s.last()) =~= s);
        d.lemma_filter_push(s.last(), p);
        d.lemma_filter_push(s.last(), q);
        vstd::seq_lib::to_multiset_build(d, s.last());
        if p(s.last()) {
            vstd::seq_lib::to_multiset_build(d.filter(p), s.last());
        } else {
            vstd::seq_lib::to_multiset_build(d.filter(q), s.last());
        }
        assert(s.filter(p).to_multiset().add(s.filter(q).to_multiset()) =~= s.to_multiset());
    }
}

/// Retention splits the backups: every backup is either kept or removed,
/// none is both, and none is lost or invented.
pub proof fn law_retention_partitions(
    backups: Seq<BaseBackup>,
    cutoff: Timestamp,
    always_keep: Option<Seq<char>>,
    strict: bool,
)
    ensures
        kept_backups(backups, cutoff, always_keep, strict).len() + removed_backups(
            backups,
            cutoff,
            always_keep,
            strict,
        ).len() == backups.len(),
        kept_backups(backups, cutoff, always_keep, strict).to_multiset().add(
            removed_backups(backups, cutoff, always_keep, strict).to_multiset(),
        ) == backups.to_multiset(),
{
    let p = |b: BaseBackup| retained(b, backups, cutoff, always_keep, strict);
    let q = |b: BaseBackup| !retained(b, backups, cutoff, always_keep, strict);
    lemma_filter_complement(backups, p, q);
}

/// Retention keeps every backup taken at or after the cutoff, every backup
/// at the path to always keep, and, unless strict, the newest backup older
/// than the cutoff, so recovery reaches back the full retention period.
pub proof fn law_retention_keeps(
    backups: Seq<BaseBackup>,
    cutoff: Timestamp,
    always_keep: Option<Seq<char>>,
    strict: bool,
    i: int,
)
    requires
        0 <= i < backups.len(),
    ensures
        !ts_lt(backups[i].taken_at, cutoff) ==> kept_backups(backups, cutoff, always_keep, strict).contains(backups[i]),
        (always_keep matches Some(k) && same_path(backups[i].dir@, k)) ==> kept_backups(
            backups,
            cutoff,
            always_keep,
            strict,
        ).contains(backups[i]),
        (!strict && anchor_index(backups, cutoff) == Some(i)) ==> kept_backups(
            backups,
            cutoff,
            always_keep,
            strict,
        ).contains(backups[i]),
{
    let p = |b: BaseBackup| retained(b, backups, cutoff, always_keep, strict);
    if p(backups[i]) {
        backups.lemma_filter_contains_rev(p, backups[i]);
    }
}

/// A strict retention keeps nothing older than the cutoff but the backups
/// at the path to always keep; a backup is removed only if it is older than
/// the cutoff.
pub proof fn law_retention_strict(
    backups: Seq<BaseBackup>,
    cutoff: Timestamp,
    always_keep: Option<Seq<char>>,
    strict: bool,
)
    ensures
        forall|j: int| 0 <= j < kept_backups(backups, cutoff, always_keep, true).len() ==> {
            let b = #[trigger] kept_backups(backups, cutoff, always_keep, true)[j];
            !ts_lt(b.taken_at, cutoff) || (always_keep matches Some(k) && same_path(b.dir@, k))
        },
        forall|j: int| 0 <= j < removed_backups(backups, cutoff, always_keep, strict).len() ==> ts_lt(
            (#[trigger] removed_backups(backups, cutoff, always_keep, strict)[j]).taken_at,
            cutoff,
        ),
{
    let p = |b: BaseBackup| retained(b, backups, cutoff, always_keep, true);
    let q = |b: BaseBackup| !retained(b, backups, cutoff, always_keep, strict);
    assert forall|j: int| 0 <= j < backups.filter(p).len() implies p(#[trigger] backups.filter(p)[j]) by {
        backups.lemma_filter_pred(p, j);
    }
    assert forall|j: int| 0 <= j < backups.filter(q).len() implies q(#[trigger] backups.filter(q)[j]) by {
        backups.lemma_filter_pred(q, j);
    }
}

proof fn lemma_target_index_exists(backups: Seq<BaseBackup>, target: Timestamp, k: int)
    requires
        0 <= k <= backups.len(),
        forall|j: int| k <= j < backups.len() ==> ts_lt(target, #[trigger] backups[j].taken_at),
        exists|i: int| 0 <= i < k && !ts_lt(target, #[trigger] backups[i].taken_at),
    ensures
        exists|m: int|
            0 <= m < backups.len() && !ts_lt(target, backups[m].taken_at) && forall|j: int|
                m < j < backups.len() ==> ts_lt(target, #[trigger] backups[j].taken_at),
    decreases k,
{
    if !ts_lt(target, backups[k - 1].taken_at) {
        assert(0 <= k - 1 < backups.len() && !ts_lt(target, backups[k - 1].taken_at) && forall|j: int|
            k - 1 < j < backups.len() ==> ts_lt(target, #[trigger] backups[j].taken_at));
    } else {
        lemma_target_index_exists(backups, target, k - 1);
    }
}

/// The backup a recovery target starts from completed at or before the
/// target, and for backups listed oldest first no other backup that
/// completed at or before the target is newer.
pub proof fn law_target_backup_is_newest_before(backups: Seq<BaseBackup>, target: Timestamp)
    ensures
        target_backup_index(backups, target) matches Some(m) ==> {
            &&& 0 <= m < backups.len()
            &&& !ts_lt(target, backups[m].taken_at)
            &&& (is_sorted(backups) ==> forall|j: int|
                0 <= j < backups.len() && !ts_lt(target, #[trigger] backups[j].taken_at) ==> !ts_lt(
                    backups[m].taken_at,
                    backups[j].taken_at,
                ))
        },
        target_backup_index(backups, target) is None ==> forall|j: int|
            0 <= j < backups.len() ==> ts_lt(target, #[trigger] backups[j].taken_at),
{
    if let Some(m) = target_backup_index(backups, target) {
        lemma_target_index_exists(backups, target, backups.len() as int);
        assert(0 <= m < backups.len() && !ts_lt(target, backups[m].taken_at) && forall|j: int|
            m < j < backups.len() ==> ts_lt(target, #[trigger] backups[j].taken_at));
        assert forall|j: int| is_sorted(backups) && 0 <= j < backups.len() && !ts_lt(target, #[trigger] backups[j].taken_at)
            implies !ts_lt(backups[m].taken_at, backups[j].taken_at) by {
            if j > m {
                assert(ts_lt(target, backups[j].taken_at));
            } else if j < m {
                assert(!backups[m].before(&backups[j]));
            }
        }
    }
}

/// The last backup completed at or before `target` is at index `m`.
proof fn lemma_target_index_is(backups: Seq<BaseBackup>, target: Timestamp, m: int)
    requires
        0 <= m < backups.len(),
        !ts_lt(target, backups[m].taken_at),
        forall|j: int| m < j < backups.len() ==> ts_lt(target, #[trigger] backups[j].taken_at),
    ensures
        target_backup_index(backups, target) == Some(m),
{
    let c = choose|i: int|
        0 <= i < backups.len() && !ts_lt(target, backups[i].taken_at) && forall|j: int|
            i < j < backups.len() ==> ts_lt(target, #[trigger] backups[j].taken_at);
    assert(0 <= m < backups.len() && !ts_lt(target, backups[m].taken_at) && forall|j: int|
        m < j < backups.len() ==> ts_lt(target, #[trigger] backups[j].taken_at));
    assert(c == m) by {
        if c < m {
            assert(ts_lt(target, backups[m].taken_at));
        }
        if c > m {
            assert(ts_lt(target, backups[c].taken_at));
        }
    }
}

/// Filtering keeps the last backup completed at or before `target` where
/// the filter lets that backup through: it is still the one a recovery to
/// `target` starts from.
proof fn lemma_filter_keeps_target(s: Seq<BaseBackup>, p: spec_fn(BaseBackup) -> bool, target: Timestamp)
    requires
        target_backup_index(s, target) matches Some(m) ==> p(s[m]),
    ensures
        target_backup_index(s.filter(p), target) is Some <==> target_backup_index(s, target) is Some,
        target_backup_index(s, target) matches Some(m) ==> s.filter(p)[target_backup_index(s.filter(p), target)->0] == s[m],
    decreases s.len(),
{
    if s.len() == 0 {
        assert(s.filter(p).len() == 0) by {
            reveal(Seq::filter);
        }
    } else {
        let d = s.drop_last();
        let f = s.filter(p);
        let fd = d.filter(p);
        assert(f == if p(s.last()) { fd.push(s.last()) } else { fd }) by {
            reveal(Seq::filter);
        }
        if !ts_lt(target, s.last().taken_at) {
            let k = s.len() - 1;
            lemma_target_index_is(s, target, k);
            assert(p(s[k]));
            lemma_target_index_is(f, target, f.len() - 1);
        } else {
            // The last backup is too new: the answer comes from the rest.
            assert forall|i: int| 0 <= i < d.len() implies (!ts_lt(target, #[trigger] d[i].taken_at) <==> !ts_lt(target, s[i].taken_at)) by {
                assert(d[i] == s[i]);
            }
            if let Some(m) = target_backup_index(s, target) {
                lemma_target_index_exists(s, target, s.len() as int);
                assert(m < s.len() - 1);
                assert(d[m] == s[m]);
                lemma_target_index_is(d, target, m);
            } else {
                assert(target_backup_index(d, target) is None) by {
                    if target_backup_index(d, target) is Some {
                        let i = choose|i: int| 0 <= i < d.len() && !ts_lt(target, #[trigger] d[i].taken_at);
                        assert(!ts_lt(target, s[i].taken_at));
                    }
                }
            }
            lemma_filter_keeps_target(d, p, target);
            if let Some(mi) = target_backup_index(fd, target) {
                lemma_target_index_exists(fd, target, fd.len() as int);
                if p(s.last()) {
                    assert(f[f.len() - 1] == s.last());
                    assert forall|j: int| mi < j < f.len() implies ts_lt(target, #[trigger] f[j].taken_at) by {
                        if j < fd.len() {
                            assert(f[j] == fd[j]);
                        }
                    }
                    assert(f[mi] == fd[mi]);
                    lemma_target_index_is(f, target, mi);
                }
            } else {
                assert(target_backup_index(f, target) is None) by {
                    if target_backup_index(f, target) is Some {
                        let i = choose|i: int| 0 <= i < f.len() && !ts_lt(target, #[trigger] f[i].taken_at);
                        if i < fd.len() {
                            assert(f[i] == fd[i]);
                            assert(exists|x: int| 0 <= x < fd.len() && !ts_lt(target, #[trigger] fd[x].taken_at));
                        }
                    }
                }
            }
        }
    }
}

/// Retention keeps the recovery window: unless strict, a recovery to any
/// time at or after the cutoff starts from the same backup whether or not
/// the removed backups are still there.
pub proof fn law_retention_keeps_window(
    backups: Seq<BaseBackup>,
    cutoff: Timestamp,
    always_keep: Option<Seq<char>>,
    target: Timestamp,
)
    requires
        !ts_lt(target, cutoff),
    ensures
        target_backup_index(kept_backups(backups, cutoff, always_keep, false), target) is Some
            <==> target_backup_index(backups, target) is Some,
        target_backup_index(backups, target) matches Some(m) ==> kept_backups(backups, cutoff, always_keep, false)[
            target_backup_index(kept_backups(backups, cutoff, always_keep, false), target)->0] == backups[m],
{
    let p = |b: BaseBackup| retained(b, backups, cutoff, always_keep, false);
    if let Some(m) = target_backup_index(backups, target) {
        lemma_target_index_exists(backups, target, backups.len() as int);
        let b = backups[m];
        if ts_lt(b.taken_at, cutoff) {
            // The backup is the newest one older than the cutoff: the anchor.
            assert(anchor_index(backups, cutoff) == Some(m)) by {
                assert(0 <= m < backups.len() && ts_lt(backups[m].taken_at, cutoff) && forall|j: int|
                    m < j < backups.len() ==> !ts_lt(#[trigger] backups[j].taken_at, cutoff));
                let a = choose|i: int|
                    0 <= i < backups.len() && ts_lt(backups[i].taken_at, cutoff) && forall|j: int|
                        i < j < backups.len() ==> !ts_lt(#[trigger] backups[j].taken_at, cutoff);
                assert(a == m) by {
                    if a < m {
                        assert(!ts_lt(backups[m].taken_at, cutoff));
                    }
                    if a > m {
                        assert(ts_lt(target, backups[a].taken_at));
                    }
                }
            }
            assert(same_path(b.dir@, backups[m].dir@));
        }
        assert(p(b));
    }
    lemma_filter_keeps_target(backups, p, target);
}

/// A backup placed at `new_backup_path` inside the container is found on
/// the host under the instance's `backups` directory, named by its stamp
/// (stamps never start with `/backups/`).
pub proof fn law_backup_path_roundtrip(instance_dir: Seq<char>, stamp: Seq<char>)
    requires
        !(stamp.len() >= 9 && stamp.take(9) == "/backups/"@),
    ensures
        host_backup_path(instance_dir, "/backups/"@ + stamp) == join(join(instance_dir, "backups"@), stamp),
{
    reveal_strlit("/backups/");
    let p = "/backups/"@;
    let s = p + stamp;
    assert(s.take(9) =~= p);
    assert(s.skip(9) =~= stamp);
    if stamp.len() >= 9 {
        assert(!(stamp.take(p.len() as int) == p));
    }
    assert(trim_start_repeated(stamp, p) == stamp);
    assert(trim_start_repeated(s, p) == trim_start_repeated(stamp, p));
}

impl Ordered for BaseBackup {
    /// Backups order by when they completed.
    open spec fn before(&self, other: &Self) -> bool {
        ts_lt(self.taken_at, other.taken_at)
    }

    proof fn lemma_before_asymmetric(a: &Self, b: &Self) {
    }

    proof fn lemma_not_before_transitive(a: &Self, b: &Self, c: &Self) {
    }

    fn is_before(&self, other: &Self) -> (r: bool) {
        self.taken_at.is_before(&other.taken_at)
    }
}

/// Orders backups oldest first, keeping the given order among backups that
/// completed at the same instant (as a stable sort by completion time does).
pub fn sort_backups(backups: Vec<BaseBackup>) -> (r: Vec<BaseBackup>)
    ensures
        r@ == sorted_stable(backups@),
        is_sorted(r@),
        r@.to_multiset() == backups@.to_multiset(),
{
    sort_stable(backups)
}

/// How many low bits of `b` an `f64` cannot hold: halvings until the value
/// fits in the 53-bit significand.
pub open spec fn excess_bits(b: nat) -> nat
    decreases b,
{
    if b < 0x20_0000_0000_0000 {
        0
    } else {
        1 + excess_bits(b / 2)
    }
}

/// `n / 2^e` rounded to the nearest integer, ties to even.
pub open spec fn shift_round_even(n: nat, e: nat) -> nat {
    let q = n / pow2(e);
    let r = n % pow2(e);
    if e > 0 && (2 * r > pow2(e) || (2 * r == pow2(e) && q % 2 == 1)) {
        q + 1
    } else {
        q
    }
}

/// The value of `b as f64`: `b` rounded to 53 significant bits, ties to even.
pub open spec fn f64_value(b: nat) -> nat {
    shift_round_even(b, excess_bits(b)) * pow2(excess_bits(b))
}

/// Index into `B, KB, MB, GB, TB` of the unit a size of `f` bytes is shown
/// in: the largest power of 1024 not above `f`, at most `TB`.
pub open spec fn size_unit(f: nat) -> nat {
    if f >= pow2(40) {
        4
    } else if f >= pow2(30) {
        3
    } else if f >= pow2(20) {
        2
    } else if f >= pow2(10) {
        1
    } else {
        0
    }
}

/// Name of a size unit.
pub open spec fn unit_name(u: nat) -> Seq<char> {
    if u == 0 {
        "B"@
    } else if u == 1 {
        "KB"@
    } else if u == 2 {
        "MB"@
    } else if u == 3 {
        "GB"@
    } else {
        "TB"@
    }
}

/// The text of a byte count: below 1 KiB the exact count and `B`; otherwise
/// the size in the largest fitting unit with one decimal (the `f64` value
/// divided by the unit, rounded half to even, as `{:.1}` prints it).
pub open spec fn human_bytes_text(bytes: nat) -> Seq<char> {
    let f = f64_value(bytes);
    let u = size_unit(f);
    if u == 0 {
        decimal(bytes) + " B"@
    } else {
        let tenths = shift_round_even(f * 10, 10 * u);
        decimal(tenths / 10) + seq!['.', hex_digit_char((tenths % 10) as int), ' '] + unit_name(u)
    }
}

proof fn lemma_excess_step(b: nat, e: nat, t: nat)
    requires
        t == b / pow2(e),
        t >= 0x20_0000_0000_0000,
    ensures
        t / 2 == b / pow2(e + 1),
        pow2(e + 1) == 2 * pow2(e),
{
    lemma_pow2_unfold(e + 1);
    vstd::arithmetic::power2::lemma_pow2_pos(e);
    lemma_div_denominator(b as int, pow2(e) as int, 2);
    assert(pow2(e) * 2 == 2 * pow2(e));
}

/// Rounds `n / den` to the nearest integer, ties to even.
fn div_round_even(n: u128, den: u128) -> (r: u128)
    requires
        den >= 1,
    ensures
        r == (if den > 1 && (2 * (n % den) > den || (2 * (n % den) == den && (n / den) % 2 == 1)) {
            (n / den) as int + 1
        } else {
            (n / den) as int
        }),
{
    let q = n / den;
    let r = n % den;
    assert(r < den);
    assert(q <= n) by (nonlinear_arith)
        requires
            den >= 1,
            q == n / den,
    ;
    if den > 1 && (r > den - r || (r == den - r && q % 2 == 1)) {
        assert(q < u128::MAX) by (nonlinear_arith)
            requires
                den > 1,
                q == n / den,
                n <= u128::MAX,
        ;
        q + 1
    } else {
        q
    }
}

/// A byte count for people: `512 B`, `1.5 KB`, `3.2 GB`.
pub fn human_bytes(bytes: u64) -> (r: String)
    ensures
        r@ == human_bytes_text(bytes as nat),
{
    proof {
        lemma2_to64();
        lemma2_to64_rest();
    }
    // The value `bytes as f64` holds, rounded to 53 significant bits.
    let mut t: u64 = bytes;
    let mut e: u64 = 0;
    let mut p: u64 = 1;
    while t >= 0x20_0000_0000_0000u64
        invariant
            t == bytes as nat / pow2(e as nat),
            p == pow2(e as nat),
            excess_bits(bytes as nat) == e + excess_bits(t as nat),
            e <= 11,
            t as nat * p <= bytes,
            t * pow2(e as nat) <= u64::MAX,
        decreases t,
    {
        proof {
            lemma_excess_step(bytes as nat, e as nat, t as nat);
            lemma2_to64();
            assert(e < 11) by {
                if e >= 11 {
                    assert(p == 2048);
                    assert(t * p >= 0x20_0000_0000_0000u64 * 2048) by (nonlinear_arith)
                        requires
                            t >= 0x20_0000_0000_0000u64,
                            p >= 2048,
                    ;
                }
            }
            assert(pow2(e as nat + 1) <= 4096) by {
                vstd::arithmetic::power2::lemma_pow2_strictly_increases(e as nat + 1, 12);
            }
            assert((t / 2) * (2 * p) <= t * p) by (nonlinear_arith)
                requires
                    p >= 1,
            ;
        }
        t = t / 2;
        e = e + 1;
        p = p * 2;
    }
    let ghost eb = excess_bits(bytes as nat);
    assert(eb == e);
    let r: u64 = bytes - t * p;
    assert(r == bytes as nat % pow2(e as nat)) by {
        vstd::arithmetic::div_mod::lemma_fundamental_div_mod(bytes as int, p as int);
        assert(p * ((bytes as nat) / (p as nat)) == t * p) by (nonlinear_arith)
            requires
                t == (bytes as nat) / (p as nat),
        ;
    }
    let rounded = div_round_even(bytes as u128, p as u128);
    assert(rounded == shift_round_even(bytes as nat, e as nat));
    assert(rounded <= 0x20_0000_0000_0000) by (nonlinear_arith)
        requires
            t < 0x20_0000_0000_0000,
            rounded <= t + 1,
    ;
    assert(rounded * p <= 0x20_0000_0000_0000 * 2048) by (nonlinear_arith)
        requires
            rounded <= 0x20_0000_0000_0000,
            p <= 2048,
    ;
    let f: u128 = rounded * (p as u128);
    assert(f == f64_value(bytes as nat));
    assert(f <= 0x20_0000_0000_0000 * 2048) by (nonlinear_arith)
        requires
            rounded <= 0x20_0000_0000_0000,
            p <= 2048,
            f == rounded * p,
    ;
    if f < 1024 {
        assert(size_unit(f as nat) == 0);
        let mut s = u64_to_decimal(bytes);
        s.push_str(" B");
        return s;
    }
    let (unit, den, name): (u64, u128, &str) = if f >= 0x100_0000_0000u128 {
        (4, 0x100_0000_0000u128, "TB")
    } else if f >= 0x4000_0000u128 {
        (3, 0x4000_0000u128, "GB")
    } else if f >= 0x10_0000u128 {
        (2, 0x10_0000u128, "MB")
    } else {
        (1, 0x400u128, "KB")
    };
    assert(unit == size_unit(f as nat));
    assert(den == pow2((10 * unit) as nat));
    assert(name@ == unit_name(unit as nat));
    let tenths = div_round_even(f * 10, den);
    assert(tenths == shift_round_even((f * 10) as nat, (10 * unit) as nat));
    assert(tenths <= ((f * 10) as int) / (den as int) + 1);
    assert(((f * 10) as int) / (den as int) <= 0x20_0000_0000_0000 * 2048 * 10 / 1024) by (nonlinear_arith)
        requires
            den >= 1024,
            f <= 0x20_0000_0000_0000 * 2048,
    ;
    let whole = (tenths / 10) as u64;
    let frac = (tenths % 10) as u64;
    let mut s = u64_to_decimal(whole);
    s.push('.');
    s.push(crate::text::digit_char(frac));
    s.push(' ');
    s.push_str(name);
    assert(s@ =~= human_bytes_text(bytes as nat));
    s
}

} // verus!
