//! `show`: details of an instance, its recovery window and its compaction
//! schedules.

use vstd::prelude::*;
use crate::backups::{human_bytes, human_bytes_text};
use crate::commands::schedule::ScheduleStatus;
use crate::config::{
    connection_string_text, copy_opt, default_password_text, resolved_image_text, InitMode,
    InstanceMetadata,
};
use crate::paths::{join, join_path};
use crate::text::{decimal, owned, push_decimal};

verus! {

/// Result of `show`.
#[derive(Clone, Debug)]
pub struct ShowOutput {
    pub name: String,
    pub version: String,
    pub port: u16,
    pub password: String,
    pub connection_string: String,
    pub data_directory: String,
    pub image: String,
    pub init_mode: String,
    pub shared_preload_libraries: Option<String>,
    pub archive_bytes: u64,
    /// Oldest time `fork --at` can target, if any base backup exists.
    pub restorable_from: Option<String>,
    pub compact_schedules: Vec<ScheduleStatus>,
}

/// The line of one compaction schedule.
pub open spec fn schedule_line(s: ScheduleStatus) -> Seq<char> {
    "\nCompaction schedule: '"@ + s.cron@ + "' retain "@ + s.retain@ + (if s.strict {
        " (strict)"@
    } else {
        seq![]
    }) + (if s.all_instances {
        " via --all"@
    } else {
        seq![]
    }) + " ["@ + s.state@ + "]"@
}

/// The lines of the schedules, in order.
pub open spec fn schedule_lines(v: Seq<ScheduleStatus>) -> Seq<char>
    decreases v.len(),
{
    if v.len() == 0 {
        seq![]
    } else {
        schedule_lines(v.drop_last()) + schedule_line(v.last())
    }
}

/// What `show` prints.
pub open spec fn show_output_text(o: ShowOutput) -> Seq<char> {
    "Instance: "@ + o.name@ + "\nVersion: "@ + o.version@ + "\nImage: "@ + o.image@ + "\nInit mode: "@
        + o.init_mode@ + "\nPort: "@ + decimal(o.port as nat) + "\nPassword: "@ + o.password@
        + "\nConnection string: "@ + o.connection_string@ + "\nData directory: "@
        + o.data_directory@ + match o.shared_preload_libraries {
        Some(s) => "\nshared_preload_libraries: "@ + s@,
        None => seq![],
    } + "\nWAL archive: "@ + human_bytes_text(o.archive_bytes as nat) + match o.restorable_from {
        Some(t) => "\nPITR window: "@ + t@ + " -> now"@,
        None => "\nPITR window: none (no base backup)"@,
    } + (if o.compact_schedules@.len() == 0 {
        "\nCompaction schedule: none"@
    } else {
        seq![]
    }) + schedule_lines(o.compact_schedules@)
}

fn push_schedule_line(out: &mut String, s: &ScheduleStatus)
    ensures
        final(out)@ == old(out)@ + schedule_line(*s),
{
    let ghost before = out@;
    out.push_str("\nCompaction schedule: '");
    out.push_str(s.cron.as_str());
    out.push_str("' retain ");
    out.push_str(s.retain.as_str());
    if s.strict {
        out.push_str(" (strict)");
    }
    if s.all_instances {
        out.push_str(" via --all");
    }
    out.push_str(" [");
    out.push_str(s.state.as_str());
    out.push_str("]");
    assert(out@ =~= before + schedule_line(*s));
}

impl ShowOutput {
    /// The lines printed by `show`.
    pub fn to_text(&self) -> (r: String)
        ensures
            r@ == show_output_text(*self),
    {
        let mut out = owned("Instance: ");
        out.push_str(self.name.as_str());
        out.push_str("\nVersion: ");
        out.push_str(self.version.as_str());
        out.push_str("\nImage: ");
        out.push_str(self.image.as_str());
        out.push_str("\nInit mode: ");
        out.push_str(self.init_mode.as_str());
        out.push_str("\nPort: ");
        push_decimal(&mut out, self.port as u64);
        out.push_str("\nPassword: ");
        out.push_str(self.password.as_str());
        out.push_str("\nConnection string: ");
        out.push_str(self.connection_string.as_str());
        out.push_str("\nData directory: ");
        out.push_str(self.data_directory.as_str());
        match &self.shared_preload_libraries {
            Some(s) => {
                out.push_str("\nshared_preload_libraries: ");
                out.push_str(s.as_str());
            },
            None => {},
        }
        out.push_str("\nWAL archive: ");
        let size = human_bytes(self.archive_bytes);
        out.push_str(size.as_str());
        match &self.restorable_from {
            Some(t) => {
                out.push_str("\nPITR window: ");
                out.push_str(t.as_str());
                out.push_str(" -> now");
            },
            None => {
                out.push_str("\nPITR window: none (no base backup)");
            },
        }
        let n: usize = self.compact_schedules.len();
        if n == 0 {
            out.push_str("\nCompaction schedule: none");
        }
        let ghost head = out@;
        let mut i: usize = 0;
        assert(self.compact_schedules@.take(0) =~= seq![]);
        while i < n
            invariant
                n == self.compact_schedules@.len(),
                i <= n,
                out@ == head + schedule_lines(self.compact_schedules@.take(i as int)),
            decreases n - i,
        {
            let s = &self.compact_schedules[i];
            push_schedule_line(&mut out, s);
            proof {
                let t = self.compact_schedules@.take(i + 1);
                assert(t.drop_last() =~= self.compact_schedules@.take(i as int));
                assert(t.last() == self.compact_schedules@[i as int]);
            }
            i = i + 1;
        }
        assert(self.compact_schedules@.take(n as int) =~= self.compact_schedules@);
        assert(out@ =~= show_output_text(*self));
        out
    }
}

/// The name `show` prints for an init mode.
pub open spec fn init_mode_name_text(mode: InitMode) -> Seq<char> {
    match mode {
        InitMode::Standard => "standard"@,
        InitMode::Cnpg => "cnpg"@,
    }
}

/// `standard` or `cnpg`.
pub fn init_mode_name(mode: InitMode) -> (r: &'static str)
    ensures
        r@ == init_mode_name_text(mode),
{
    match mode {
        InitMode::Standard => "standard",
        InitMode::Cnpg => "cnpg",
    }
}

/// The details `show` reports for an instance whose files are under
/// `instance_dir`.
pub fn show_output(
    metadata: &InstanceMetadata,
    instance_dir: &str,
    archive_bytes: u64,
    restorable_from: Option<String>,
    compact_schedules: Vec<ScheduleStatus>,
) -> (r: ShowOutput)
    ensures
        r.name == metadata.name,
        r.version == metadata.version,
        r.port == metadata.port,
        r.password@ == default_password_text(metadata.init_mode),
        r.connection_string@ == connection_string_text(*metadata),
        r.data_directory@ == join(instance_dir@, "data"@),
        r.image@ == resolved_image_text(*metadata),
        r.init_mode@ == init_mode_name_text(metadata.init_mode),
        r.shared_preload_libraries == metadata.shared_preload_libraries,
        r.archive_bytes == archive_bytes,
        r.restorable_from == restorable_from,
        r.compact_schedules == compact_schedules,
{
    ShowOutput {
        name: metadata.name.clone(),
        version: metadata.version.clone(),
        port: metadata.port,
        password: owned(metadata.default_password()),
        connection_string: metadata.connection_string(),
        data_directory: join_path(instance_dir, "data"),
        image: metadata.resolved_image(),
        init_mode: owned(init_mode_name(metadata.init_mode)),
        shared_preload_libraries: copy_opt(&metadata.shared_preload_libraries),
        archive_bytes,
        restorable_from,
        compact_schedules,
    }
}

/// The instant `show` reports as the start of the recovery window: when the
/// first listed (oldest) base backup completed; none without backups.
pub fn earliest_restore_point(backups: &Vec<crate::backups::BaseBackup>) -> (r: Option<crate::time::Timestamp>)
    ensures
        r == (if backups@.len() > 0 { Some(backups@[0].taken_at) } else { None::<crate::time::Timestamp> }),
{
    if backups.len() > 0 {
        Some(backups[0].taken_at)
    } else {
        None
    }
}

/// A schedule's line says ` via --all` exactly for the schedule of all
/// instances: two schedules that differ only in that respect print the same
/// line, but for ` via --all` just before the state.
pub proof fn law_schedule_line_marks_all(one: ScheduleStatus, all: ScheduleStatus)
    requires
        !one.all_instances,
        all.all_instances,
        one.cron@ == all.cron@,
        one.retain@ == all.retain@,
        one.strict == all.strict,
        one.state@ == all.state@,
    ensures
        exists|head: Seq<char>|
            schedule_line(one) == head + " ["@ + one.state@ + "]"@ && schedule_line(all) == head + " via --all"@
                + " ["@ + one.state@ + "]"@,
{
    let head = "\nCompaction schedule: '"@ + one.cron@ + "' retain "@ + one.retain@ + (if one.strict {
        " (strict)"@
    } else {
        seq![]
    });
    assert(schedule_line(one) =~= head + " ["@ + one.state@ + "]"@);
    assert(schedule_line(all) =~= head + " via --all"@ + " ["@ + one.state@ + "]"@);
}

/// A schedule's line says ` (strict)` exactly for strict retention, right
/// after the retention, whatever it compacts: two schedules that differ only
/// in that respect print the same line, but for ` (strict)`.
pub proof fn law_schedule_line_marks_strict(lax: ScheduleStatus, strict: ScheduleStatus)
    requires
        !lax.strict,
        strict.strict,
        lax.cron@ == strict.cron@,
        lax.retain@ == strict.retain@,
        lax.all_instances == strict.all_instances,
        lax.state@ == strict.state@,
    ensures
        exists|head: Seq<char>, tail: Seq<char>|
            schedule_line(lax) == head + tail && schedule_line(strict) == head + " (strict)"@ + tail
                && head == "\nCompaction schedule: '"@ + lax.cron@ + "' retain "@ + lax.retain@,
{
    let head = "\nCompaction schedule: '"@ + lax.cron@ + "' retain "@ + lax.retain@;
    let tail = (if lax.all_instances { " via --all"@ } else { seq![] }) + " ["@ + lax.state@ + "]"@;
    assert(schedule_line(lax) =~= head + tail);
    assert(schedule_line(strict) =~= head + " (strict)"@ + tail);
}

} // verus!
