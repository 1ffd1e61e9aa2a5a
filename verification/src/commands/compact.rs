//! `compact`: dropping base backups and archived WAL that a retention
//! period no longer needs, for one instance or all of them.

use vstd::prelude::*;
use vstd::utf8::*;
use vstd::string::StringSliceAdditionalSpecFns;
use crate::backups::{human_bytes, human_bytes_text, BaseBackup};
use crate::text::{decimal, join_lines, join_with_newlines, owned, push_decimal, texts, concat2};
use crate::time::{rfc3339_text, to_rfc3339, Timestamp};
use crate::wal::{bytes_lt, wal_segment_name};

verus! {

broadcast use vstd::seq_lib::group_seq_properties, vstd::seq_lib::group_to_multiset_ensures;

/// What compacting one instance did (or, in a dry run, would do).
#[derive(Clone, Debug)]
pub struct CompactResult {
    pub name: String,
    pub dry_run: bool,
    pub backups_kept: Vec<String>,
    pub backups_removed: Vec<String>,
    pub wal_files_removed: usize,
    pub bytes_freed: u64,
    /// Oldest time a `fork --at` can target after this compaction.
    pub restorable_from: String,
}

/// Result of `compact`.
#[derive(Clone, Debug)]
pub struct CompactOutput {
    pub results: Vec<CompactResult>,
    pub skipped: Vec<String>,
}

/// The two lines reporting one compacted instance.
pub open spec fn compact_result_text(r: CompactResult) -> Seq<char> {
    r.name@ + ": "@ + (if r.dry_run { "Would free"@ } else { "Freed"@ }) + seq![' ']
        + human_bytes_text(r.bytes_freed as nat) + " ("@ + decimal(r.wal_files_removed as nat)
        + " WAL files, "@ + decimal(r.backups_removed@.len()) + " backups removed; "@
        + decimal(r.backups_kept@.len()) + " kept)\n  PITR window: "@ + r.restorable_from@ + " -> now"@
}

/// The report lines: one per compacted instance, then one per skipped one.
pub open spec fn compact_lines(o: CompactOutput) -> Seq<Seq<char>> {
    Seq::new(o.results@.len(), |i: int| compact_result_text(o.results@[i]))
        + Seq::new(o.skipped@.len(), |i: int| "Skipped "@ + o.skipped@[i]@)
}

/// What `compact` prints: the report lines joined by newlines.
pub open spec fn compact_output_text(o: CompactOutput) -> Seq<char> {
    join_lines(compact_lines(o))
}

impl CompactResult {
    /// The lines reporting this instance.
    pub fn to_text(&self) -> (r: String)
        ensures
            r@ == compact_result_text(*self),
    {
        let mut out = owned(self.name.as_str());
        out.push_str(": ");
        if self.dry_run {
            out.push_str("Would free");
        } else {
            out.push_str("Freed");
        }
        out.push(' ');
        let size = human_bytes(self.bytes_freed);
        out.push_str(size.as_str());
        out.push_str(" (");
        push_decimal(&mut out, self.wal_files_removed as u64);
        out.push_str(" WAL files, ");
        push_decimal(&mut out, self.backups_removed.len() as u64);
        out.push_str(" backups removed; ");
        push_decimal(&mut out, self.backups_kept.len() as u64);
        out.push_str(" kept)\n  PITR window: ");
        out.push_str(self.restorable_from.as_str());
        out.push_str(" -> now");
        assert(out@ =~= compact_result_text(*self));
        out
    }
}

impl CompactOutput {
    /// The report printed by `compact`.
    pub fn to_text(&self) -> (r: String)
        ensures
            r@ == compact_output_text(*self),
    {
        let mut lines: Vec<String> = Vec::new();
        let n: usize = self.results.len();
        let mut i: usize = 0;
        while i < n
            invariant
                n == self.results@.len(),
                i <= n,
                texts(lines@) == Seq::new(i as nat, |k: int| compact_result_text(self.results@[k])),
            decreases n - i,
        {
            let line = self.results[i].to_text();
            let ghost before = lines@;
            lines.push(line);
            proof {
                crate::text::lemma_texts_push(before, line);
            }
            assert(texts(lines@) =~= Seq::new((i + 1) as nat, |k: int| compact_result_text(self.results@[k])));
            i = i + 1;
        }
        let m: usize = self.skipped.len();
        let mut j: usize = 0;
        while j < m
            invariant
                n == self.results@.len(),
                m == self.skipped@.len(),
                j <= m,
                texts(lines@) == Seq::new(n as nat, |k: int| compact_result_text(self.results@[k]))
                    + Seq::new(j as nat, |k: int| "Skipped "@ + self.skipped@[k]@),
            decreases m - j,
        {
            let line = concat2("Skipped ", self.skipped[j].as_str());
            let ghost before = lines@;
            lines.push(line);
            proof {
                crate::text::lemma_texts_push(before, line);
            }
            assert(texts(lines@) =~= Seq::new(n as nat, |k: int| compact_result_text(self.results@[k]))
                + Seq::new((j + 1) as nat, |k: int| "Skipped "@ + self.skipped@[k]@));
            j = j + 1;
        }
        assert(texts(lines@) =~= compact_lines(*self));
        join_with_newlines(&lines)
    }
}

/// The instant from which a fork can recover after compaction: when the
/// oldest kept backup completed, or `now` when none is kept.
pub open spec fn restorable_instant(kept: Seq<BaseBackup>, now: Timestamp) -> Timestamp {
    if kept.len() > 0 {
        kept[0].taken_at
    } else {
        now
    }
}

/// The RFC 3339 text of [`restorable_instant`]; `None` where chrono cannot
/// represent it.
pub fn restorable_from(kept: &Vec<BaseBackup>, now: Timestamp) -> (r: Option<String>)
    ensures
        r is Some <==> rfc3339_text(restorable_instant(kept@, now).secs, restorable_instant(kept@, now).nanos) is Some,
        r matches Some(t) ==> t@ == rfc3339_text(restorable_instant(kept@, now).secs, restorable_instant(kept@, now).nanos)->0,
{
    let instant = if kept.len() > 0 { kept[0].taken_at } else { now };
    to_rfc3339(instant)
}

/// The names of the backups.
pub open spec fn backup_names(v: Seq<BaseBackup>) -> Seq<Seq<char>> {
    Seq::new(v.len(), |i: int| v[i].name@)
}

fn names_of(v: &Vec<BaseBackup>) -> (r: Vec<String>)
    ensures
        texts(r@) == backup_names(v@),
{
    let n: usize = v.len();
    let mut r: Vec<String> = Vec::new();
    let mut i: usize = 0;
    while i < n
        invariant
            n == v@.len(),
            i <= n,
            texts(r@) == backup_names(v@).take(i as int),
        decreases n - i,
    {
        let ghost before = r@;
        r.push(v[i].name.clone());
        proof {
            crate::text::lemma_texts_push(before, v@[i as int].name);
        }
        assert(texts(r@) =~= backup_names(v@).take(i + 1));
        i = i + 1;
    }
    assert(backup_names(v@).take(n as int) =~= backup_names(v@));
    r
}

/// The report of compacting instance `name`.
pub fn compact_result(
    name: &str,
    dry_run: bool,
    kept: &Vec<BaseBackup>,
    removed: &Vec<BaseBackup>,
    wal_files_removed: usize,
    bytes_freed: u64,
    restorable_from: String,
) -> (r: CompactResult)
    ensures
        r.name@ == name@,
        r.dry_run == dry_run,
        texts(r.backups_kept@) == backup_names(kept@),
        texts(r.backups_removed@) == backup_names(removed@),
        r.wal_files_removed == wal_files_removed,
        r.bytes_freed == bytes_freed,
        r.restorable_from == restorable_from,
{
    CompactResult {
        name: owned(name),
        dry_run,
        backups_kept: names_of(kept),
        backups_removed: names_of(removed),
        wal_files_removed,
        bytes_freed,
        restorable_from,
    }
}

/// The instances `compact --all` goes through, in name order.
pub fn compact_all_names(config: &crate::config::Config) -> (r: Vec<String>)
    ensures
        crate::sorting::is_sorted(r@),
        r@.len() == config.instances.view().dom().len(),
        forall|i: int| 0 <= i < r@.len() ==> config.instances.view().dom().contains(#[trigger] r@[i]@),
        forall|k: Seq<char>| #[trigger] config.instances.view().dom().contains(k) ==> exists|i: int| 0 <= i < r@.len() && r@[i]@ == k,
{
    let names = config.instances.keys();
    let ghost before = names@;
    let sorted = crate::sorting::sort_strings(names);
    proof {
        assert(sorted@.len() == sorted@.to_multiset().len());
        assert(before.len() == before.to_multiset().len());
        assert forall|i: int| 0 <= i < sorted@.len() implies config.instances.view().dom().contains(#[trigger] sorted@[i]@) by {
            assert(sorted@.to_multiset().count(sorted@[i]) > 0);
            assert(before.to_multiset().count(sorted@[i]) > 0);
            assert(before.contains(sorted@[i]));
        }
        assert forall|k: Seq<char>| #[trigger] config.instances.view().dom().contains(k) implies exists|i: int| 0 <= i < sorted@.len() && sorted@[i]@ == k by {
            let j = choose|j: int| 0 <= j < before.len() && before[j]@ == k;
            assert(before.to_multiset().count(before[j]) > 0);
            assert(sorted@.contains(before[j]));
        }
    }
    sorted
}

/// Joining one more line onto lines adds it after a newline (or alone).
proof fn lemma_join_lines_push(lines: Seq<Seq<char>>, x: Seq<char>)
    ensures
        join_lines(lines.push(x)) == (if lines.len() == 0 { x } else { join_lines(lines) + seq!['\n'] + x }),
{
    assert(lines.push(x).drop_last() =~= lines);
}

/// The report lists every compacted instance in order: compacting one more
/// instance (with nothing skipped) adds that instance's own report, on the
/// lines after everything reported before.
pub proof fn law_compact_report_appends_result(before: CompactOutput, after: CompactOutput, added: CompactResult)
    requires
        after.results@ == before.results@.push(added),
        before.skipped@.len() == 0,
        after.skipped@.len() == 0,
    ensures
        compact_output_text(after) == (if before.results@.len() == 0 {
            compact_result_text(added)
        } else {
            compact_output_text(before) + seq!['\n'] + compact_result_text(added)
        }),
{
    assert(compact_lines(after) =~= compact_lines(before).push(compact_result_text(added)));
    lemma_join_lines_push(compact_lines(before), compact_result_text(added));
}

/// Skipped instances come last, one `Skipped <reason>` line each, in order:
/// skipping one more instance adds its line after everything else.
pub proof fn law_compact_report_appends_skipped(before: CompactOutput, after: CompactOutput, reason: String)
    requires
        after.results@ == before.results@,
        after.skipped@ == before.skipped@.push(reason),
    ensures
        compact_output_text(after) == (if before.results@.len() + before.skipped@.len() == 0 {
            "Skipped "@ + reason@
        } else {
            compact_output_text(before) + seq!['\n'] + "Skipped "@ + reason@
        }),
{
    assert(compact_lines(after) =~= compact_lines(before).push("Skipped "@ + reason@));
    lemma_join_lines_push(compact_lines(before), "Skipped "@ + reason@);
    assert(compact_output_text(before) + seq!['\n'] + "Skipped "@ + reason@ =~= compact_output_text(before)
        + seq!['\n'] + ("Skipped "@ + reason@));
}

} // verus!
