//! `schedule` / `unschedule`: periodic compaction registered with the OS
//! scheduler, one job per instance plus one for all instances.

use vstd::prelude::*;
use crate::config::{copy_opt, CompactSchedule, Config};
use crate::paths::{join, join_path};
use crate::text::{concat2, owned, str_eq};
use crate::sorting::{is_sorted, lemma_bytes_le_transitive, lemma_bytes_lt_asymmetric, sort_stable, text_less, text_lt, Ordered};

verus! {

broadcast use vstd::seq_lib::group_seq_properties, vstd::seq_lib::group_to_multiset_ensures;

/// Job id of the schedule that compacts all instances; the `_` keeps it
/// apart from every instance's `paagan-compact-<name>`.
pub open spec fn all_job_id_text() -> Seq<char> {
    "paagan_compact_all"@
}

/// Whether the OS scheduler accepts `c` in a job name.
pub open spec fn job_name_char(c: char) -> bool {
    ('a' <= c && c <= 'z') || ('A' <= c && c <= 'Z') || ('0' <= c && c <= '9') || c == '-' || c == '_'
}

/// Why a job id could not be formed.
#[derive(Clone, Debug, PartialEq, Eq)]
pub enum ScheduleError {
    /// The instance name holds characters the OS scheduler refuses in job
    /// names (anything but letters, digits, `-` and `_`).
    InvalidJobName(String),
}

/// The job id of the schedule for `instance` (`None` for all instances).
pub open spec fn job_id_text(instance: Option<Seq<char>>) -> Option<Seq<char>> {
    match instance {
        None => Some(all_job_id_text()),
        Some(name) => if forall|i: int| 0 <= i < name.len() ==> job_name_char(#[trigger] name[i]) {
            Some("paagan-compact-"@ + name)
        } else {
            None
        },
    }
}

/// The characters of an optional name.
pub open spec fn name_view(o: Option<&str>) -> Option<Seq<char>> {
    match o {
        Some(s) => Some(s@),
        None => None,
    }
}

/// The job id under which the compaction of `instance` (or of all
/// instances) is registered.
pub fn job_id(instance: Option<&str>) -> (r: Result<String, ScheduleError>)
    ensures
        job_id_text(name_view(instance)) matches Some(id) ==> (r matches Ok(s) && s@ == id),
        job_id_text(name_view(instance)) is None ==> (r matches Err(ScheduleError::InvalidJobName(n)) && Some(n@) == name_view(instance)),
{
    match instance {
        None => Ok(owned("paagan_compact_all")),
        Some(name) => {
            let n: usize = name.unicode_len();
            let mut i: usize = 0;
            while i < n
                invariant
                    n == name@.len(),
                    name_view(instance) == Some(name@),
                    i <= n,
                    forall|j: int| 0 <= j < i ==> job_name_char(#[trigger] name@[j]),
                decreases n - i,
            {
                let c = name.get_char(i);
                if !(('a' <= c && c <= 'z') || ('A' <= c && c <= 'Z') || ('0' <= c && c <= '9') || c == '-' || c == '_') {
                    assert(!job_name_char(name@[i as int]));
                    return Err(ScheduleError::InvalidJobName(owned(name)));
                }
                i = i + 1;
            }
            Ok(concat2("paagan-compact-", name))
        },
    }
}

/// Distinct targets get distinct job ids: two instances share a job id only
/// if they are the same instance, and no instance's job id is that of the
/// schedule for all instances.
pub proof fn law_job_ids_distinct(a: Option<Seq<char>>, b: Option<Seq<char>>)
    requires
        job_id_text(a) is Some,
        job_id_text(b) is Some,
        job_id_text(a) == job_id_text(b),
    ensures
        a == b,
{
    reveal_strlit("paagan-compact-");
    reveal_strlit("paagan_compact_all");
    let p = "paagan-compact-"@;
    match (a, b) {
        (Some(x), Some(y)) => {
            assert((p + x).subrange(15, (p + x).len() as int) =~= x);
            assert((p + y).subrange(15, (p + y).len() as int) =~= y);
        },
        (Some(x), None) => {
            assert((p + x)[6] == '-');
            assert(all_job_id_text()[6] == '_');
        },
        (None, Some(y)) => {
            assert((p + y)[6] == '-');
            assert(all_job_id_text()[6] == '_');
        },
        (None, None) => {},
    }
}

/// Result of `schedule` or `unschedule`.
#[derive(Clone, Debug)]
pub struct ScheduleOutput {
    pub job_id: String,
    pub instance: Option<String>,
    pub scheduled: bool,
    pub cron: Option<String>,
    pub command: Option<Vec<String>>,
    pub log: Option<String>,
}

/// What `schedule` / `unschedule` print.
pub open spec fn schedule_output_text(o: ScheduleOutput) -> Seq<char> {
    let target = match o.instance {
        Some(name) => "'"@ + name@ + "'"@,
        None => "all instances"@,
    };
    match (o.cron, o.log) {
        (Some(cron), Some(log)) => if o.scheduled {
            "Scheduled compaction of "@ + target + " at '"@ + cron@ + "' ("@ + o.job_id@ + ")\nLog: "@ + log@
        } else {
            "Removed compaction schedule for "@ + target
        },
        _ => "Removed compaction schedule for "@ + target,
    }
}

impl ScheduleOutput {
    /// The lines printed after `schedule` or `unschedule`.
    pub fn to_text(&self) -> (r: String)
        ensures
            r@ == schedule_output_text(*self),
    {
        let target = match &self.instance {
            Some(name) => {
                let mut t = owned("'");
                t.push_str(name.as_str());
                t.push_str("'");
                t
            },
            None => owned("all instances"),
        };
        match (&self.cron, &self.log) {
            (Some(cron), Some(log)) => {
                if self.scheduled {
                    let mut r = owned("Scheduled compaction of ");
                    r.push_str(target.as_str());
                    r.push_str(" at '");
                    r.push_str(cron.as_str());
                    r.push_str("' (");
                    r.push_str(self.job_id.as_str());
                    r.push_str(")\nLog: ");
                    r.push_str(log.as_str());
                    return r;
                }
            },
            _ => {},
        }
        concat2("Removed compaction schedule for ", target.as_str())
    }
}

/// A schedule as `show` reports it.
#[derive(Clone, Debug)]
pub struct ScheduleStatus {
    pub job_id: String,
    pub all_instances: bool,
    pub cron: String,
    pub retain: String,
    pub strict: bool,
    /// `active` / `inactive` / `missing`, as reported by the OS scheduler.
    pub state: String,
}

/// The status line data of a recorded schedule and its scheduler state.
pub fn schedule_status(job_id: String, schedule: &CompactSchedule, state: String) -> (r: ScheduleStatus)
    ensures
        r.job_id == job_id,
        r.all_instances == (schedule.instance is None),
        r.cron == schedule.cron,
        r.retain == schedule.retain,
        r.strict == schedule.strict,
        r.state == state,
{
    ScheduleStatus {
        job_id,
        all_instances: schedule.instance.is_none(),
        cron: schedule.cron.clone(),
        retain: schedule.retain.clone(),
        strict: schedule.strict,
        state,
    }
}

/// Removes instance `name`'s own schedule, if its name can have one and one
/// is recorded: the schedule leaves the configuration and its job id is
/// returned for the OS scheduler to drop. Every other schedule (the one for
/// all instances among them) and every instance stays as it was.
pub fn remove_instance_schedule(config: &mut Config, name: &str) -> (r: Option<String>)
    ensures
        r is Some <==> (job_id_text(Some(name@)) matches Some(id)
            && old(config).compact_schedules.view().dom().contains(id)),
        r matches Some(id) ==> Some(id@) == job_id_text(Some(name@)),
        final(config).compact_schedules.view() == (match r {
            Some(id) => old(config).compact_schedules.view().remove(id@),
            None => old(config).compact_schedules.view(),
        }),
        final(config).instances.view() == old(config).instances.view(),
{
    match job_id(Some(name)) {
        Err(_) => None,
        Ok(id) => {
            if config.compact_schedules.contains_key(id.as_str()) {
                let _ = config.compact_schedules.remove(id.as_str());
                Some(id)
            } else {
                None
            }
        },
    }
}

/// Deleting an instance never drops the schedule for all instances, nor any
/// other instance's own schedule: removing the job of `name` from the
/// recorded schedules keeps every job id that belongs to anything else.
pub proof fn law_instance_unschedule_keeps_others(
    schedules: Map<Seq<char>, CompactSchedule>,
    name: Seq<char>,
    other: Option<Seq<char>>,
)
    requires
        job_id_text(Some(name)) is Some,
        job_id_text(other) is Some,
        other != Some(name),
    ensures
        schedules.remove(job_id_text(Some(name))->0).dom().contains(job_id_text(other)->0)
            == schedules.dom().contains(job_id_text(other)->0),
{
    if job_id_text(other) == job_id_text(Some(name)) {
        law_job_ids_distinct(other, Some(name));
    }
}

/// Forgets the recorded schedule `job_id`; returns whether one was recorded
/// (the configuration then needs saving).
pub fn forget_schedule(config: &mut Config, job_id: &str) -> (r: bool)
    ensures
        r == old(config).compact_schedules.view().dom().contains(job_id@),
        final(config).compact_schedules.view() == old(config).compact_schedules.view().remove(job_id@),
        final(config).instances.view() == old(config).instances.view(),
{
    config.compact_schedules.remove(job_id)
}

/// Records a schedule under its job id.
pub fn record_schedule(config: &mut Config, job_id: String, schedule: CompactSchedule)
    ensures
        final(config).compact_schedules.view() == old(config).compact_schedules.view().insert(job_id@, schedule),
        final(config).instances.view() == old(config).instances.view(),
{
    config.compact_schedules.insert(job_id, schedule);
}

/// The command line the scheduler runs: the executable, `compact --retain
/// <retain>`, `--strict` when strict, then the instance or `--all`.
pub open spec fn compact_command_text(exe: Seq<char>, retain: Seq<char>, strict: bool, instance: Option<Seq<char>>) -> Seq<Seq<char>> {
    seq![exe, "compact"@, "--retain"@, retain] + (if strict { seq!["--strict"@] } else { seq![] }) + seq![
        match instance {
            Some(n) => n,
            None => "--all"@,
        },
    ]
}

/// The command line registered for a compaction schedule.
pub fn compact_command(exe: &str, retain: &str, strict: bool, instance: Option<&str>) -> (r: Vec<String>)
    ensures
        crate::text::texts(r@) == compact_command_text(exe@, retain@, strict, name_view(instance)),
{
    let mut r: Vec<String> = Vec::new();
    r.push(owned(exe));
    r.push(owned("compact"));
    r.push(owned("--retain"));
    r.push(owned(retain));
    if strict {
        r.push(owned("--strict"));
    }
    match instance {
        Some(n) => r.push(owned(n)),
        None => r.push(owned("--all")),
    }
    assert(crate::text::texts(r@) =~= compact_command_text(exe@, retain@, strict, name_view(instance)));
    r
}

/// `<logs_dir>/<job_id>.log`, where a scheduled job writes its output.
pub fn schedule_log_path(logs_dir: &str, job_id: &str) -> (r: String)
    ensures
        r@ == join(logs_dir@, job_id@ + ".log"@),
{
    let file = concat2(job_id, ".log");
    join_path(logs_dir, file.as_str())
}

/// The environment variables a scheduled job gets from the scheduling
/// shell, so that it finds and reaches docker.
pub fn scheduler_env_vars() -> (r: Vec<&'static str>)
    ensures
        r@.len() == 5,
        r@[0]@ == "PATH"@,
        r@[1]@ == "HOME"@,
        r@[2]@ == "DOCKER_HOST"@,
        r@[3]@ == "DOCKER_CONTEXT"@,
        r@[4]@ == "DOCKER_CONFIG"@,
{
    let mut r: Vec<&'static str> = Vec::new();
    r.push("PATH");
    r.push("HOME");
    r.push("DOCKER_HOST");
    r.push("DOCKER_CONTEXT");
    r.push("DOCKER_CONFIG");
    r
}

/// The record of a new schedule.
pub fn new_compact_schedule(instance: &Option<String>, cron: &str, retain: &str, strict: bool) -> (r: CompactSchedule)
    ensures
        r.instance == *instance,
        r.cron@ == cron@,
        r.retain@ == retain@,
        r.strict == strict,
{
    CompactSchedule { instance: copy_opt(instance), cron: owned(cron), retain: owned(retain), strict }
}

/// A recorded schedule and its job id.
#[derive(Clone, Debug)]
pub struct ScheduleEntry {
    pub job_id: String,
    pub schedule: CompactSchedule,
}

impl Ordered for ScheduleEntry {
    /// Entries order by job id.
    open spec fn before(&self, other: &Self) -> bool {
        text_lt(self.job_id@, other.job_id@)
    }

    proof fn lemma_before_asymmetric(a: &Self, b: &Self) {
        lemma_bytes_lt_asymmetric(vstd::utf8::encode_utf8(a.job_id@), vstd::utf8::encode_utf8(b.job_id@));
    }

    proof fn lemma_not_before_transitive(a: &Self, b: &Self, c: &Self) {
        lemma_bytes_le_transitive(
            vstd::utf8::encode_utf8(a.job_id@),
            vstd::utf8::encode_utf8(b.job_id@),
            vstd::utf8::encode_utf8(c.job_id@),
        );
    }

    fn is_before(&self, other: &Self) -> (r: bool) {
        text_less(self.job_id.as_str(), other.job_id.as_str())
    }
}

/// Whether a schedule compacts instance `name`: its own, or one for all
/// instances.
pub open spec fn compacts(s: CompactSchedule, name: Seq<char>) -> bool {
    match s.instance {
        Some(i) => i@ == name,
        None => true,
    }
}

/// The schedules that compact instance `name` (its own and the one for all
/// instances), by job id.
pub fn schedules_for(config: &Config, name: &str) -> (r: Vec<ScheduleEntry>)
    ensures
        is_sorted(r@),
        forall|i: int| 0 <= i < r@.len() ==> {
            &&& config.compact_schedules.view().dom().contains(#[trigger] r@[i].job_id@)
            &&& r@[i].schedule == config.compact_schedules.view()[r@[i].job_id@]
            &&& compacts(r@[i].schedule, name@)
        },
        forall|k: Seq<char>| #[trigger] config.compact_schedules.view().dom().contains(k)
            && compacts(config.compact_schedules.view()[k], name@) ==> exists|i: int| 0 <= i < r@.len() && r@[i].job_id@ == k,
        forall|i: int, j: int| 0 <= i < j < r@.len() ==> (#[trigger] r@[i]).job_id@ != (#[trigger] r@[j]).job_id@,
{
    let keys = config.compact_schedules.keys();
    let n: usize = keys.len();
    let mut found: Vec<ScheduleEntry> = Vec::new();
    let mut i: usize = 0;
    while i < n
        invariant
            n == keys@.len(),
            i <= n,
            forall|j: int| 0 <= j < n ==> config.compact_schedules.view().dom().contains(#[trigger] keys@[j]@),
            forall|j: int| 0 <= j < found@.len() ==> {
                &&& config.compact_schedules.view().dom().contains(#[trigger] found@[j].job_id@)
                &&& found@[j].schedule == config.compact_schedules.view()[found@[j].job_id@]
                &&& compacts(found@[j].schedule, name@)
            },
            forall|j: int| 0 <= j < i && compacts(config.compact_schedules.view()[#[trigger] keys@[j]@], name@)
                ==> exists|m: int| 0 <= m < found@.len() && found@[m].job_id@ == keys@[j]@,
            forall|a: int, b: int| 0 <= a < b < n ==> (#[trigger] keys@[a])@ != (#[trigger] keys@[b])@,
            forall|j: int| 0 <= j < found@.len() ==> exists|m: int| 0 <= m < i && (#[trigger] found@[j]).job_id@ == keys@[m]@,
            forall|a: int, b: int| 0 <= a < b < found@.len() ==> (#[trigger] found@[a]).job_id@ != (#[trigger] found@[b]).job_id@,
        decreases n - i,
    {
        let key = keys[i].as_str();
        let s = config.compact_schedules.get(key).unwrap();
        let wanted: bool = match &s.instance {
            Some(inst) => str_eq(inst.as_str(), name),
            None => true,
        };
        if wanted {
            let ghost before = found@;
            found.push(ScheduleEntry { job_id: keys[i].clone(), schedule: s.duplicate() });
            proof {
                assert forall|j: int| 0 <= j < i + 1 && compacts(config.compact_schedules.view()[#[trigger] keys@[j]@], name@)
                    implies exists|m: int| 0 <= m < found@.len() && found@[m].job_id@ == keys@[j]@ by {
                    if j < i {
                        let m = choose|m: int| 0 <= m < before.len() && before[m].job_id@ == keys@[j]@;
                        assert(found@[m] == before[m]);
                    } else {
                        assert(found@[found@.len() - 1].job_id@ == keys@[j]@);
                    }
                }
                assert forall|j: int| 0 <= j < found@.len() implies exists|m: int| 0 <= m < i + 1 && (#[trigger] found@[j]).job_id@ == keys@[m]@ by {
                    if j < before.len() {
                        assert(found@[j] == before[j]);
                    } else {
                        assert(found@[j].job_id@ == keys@[i as int]@);
                    }
                }
                assert forall|a: int, b: int| 0 <= a < b < found@.len() implies (#[trigger] found@[a]).job_id@ != (#[trigger] found@[b]).job_id@ by {
                    if b == before.len() {
                        assert(found@[a] == before[a]);
                        let m = choose|m: int| 0 <= m < i && before[a].job_id@ == keys@[m]@;
                        assert(keys@[m]@ != keys@[i as int]@);
                    } else {
                        assert(found@[a] == before[a]);
                        assert(found@[b] == before[b]);
                    }
                }
            }
        }
        i = i + 1;
    }
    let ghost unsorted = found@;
    let sorted = sort_stable(found);
    proof {
        assert forall|i: int| 0 <= i < sorted@.len() implies {
            &&& config.compact_schedules.view().dom().contains(#[trigger] sorted@[i].job_id@)
            &&& sorted@[i].schedule == config.compact_schedules.view()[sorted@[i].job_id@]
            &&& compacts(sorted@[i].schedule, name@)
        } by {
            assert(sorted@.to_multiset().count(sorted@[i]) > 0);
            assert(unsorted.contains(sorted@[i]));
        }
        assert forall|k: Seq<char>| #[trigger] config.compact_schedules.view().dom().contains(k)
            && compacts(config.compact_schedules.view()[k], name@) implies exists|i: int| 0 <= i < sorted@.len() && sorted@[i].job_id@ == k by {
            let j = choose|j: int| 0 <= j < keys@.len() && keys@[j]@ == k;
            let m = choose|m: int| 0 <= m < unsorted.len() && unsorted[m].job_id@ == keys@[j]@;
            assert(unsorted.to_multiset().count(unsorted[m]) > 0);
            assert(sorted@.contains(unsorted[m]));
        }
        assert(unsorted.no_duplicates()) by {
            assert forall|a: int, b: int| 0 <= a < unsorted.len() && 0 <= b < unsorted.len() && a != b implies unsorted[a] != unsorted[b] by {
                if a < b {
                    assert(unsorted[a].job_id@ != unsorted[b].job_id@);
                } else {
                    assert(unsorted[b].job_id@ != unsorted[a].job_id@);
                }
            }
        }
        unsorted.lemma_multiset_has_no_duplicates();
        sorted@.lemma_multiset_has_no_duplicates_conv();
        assert forall|a: int, b: int| 0 <= a < b < sorted@.len() implies (#[trigger] sorted@[a]).job_id@ != (#[trigger] sorted@[b]).job_id@ by {
            assert(sorted@.to_multiset().count(sorted@[a]) > 0);
            assert(sorted@.to_multiset().count(sorted@[b]) > 0);
            assert(unsorted.contains(sorted@[a]));
            assert(unsorted.contains(sorted@[b]));
            let x = choose|x: int| 0 <= x < unsorted.len() && unsorted[x] == sorted@[a];
            let y = choose|y: int| 0 <= y < unsorted.len() && unsorted[y] == sorted@[b];
            if sorted@[a].job_id@ == sorted@[b].job_id@ {
                if x < y {
                    assert(unsorted[x].job_id@ != unsorted[y].job_id@);
                } else if y < x {
                    assert(unsorted[y].job_id@ != unsorted[x].job_id@);
                }
                assert(sorted@[a] == sorted@[b]);
            }
        }
    }
    sorted
}

/// The scheduled command is the same whether it compacts one instance or
/// all of them, up to its last argument (the instance, or `--all`); it
/// carries `--strict` right after the retention exactly when strict
/// retention was asked for.
pub proof fn law_compact_command_shape(exe: Seq<char>, retain: Seq<char>, strict: bool, name: Seq<char>)
    ensures
        compact_command_text(exe, retain, strict, Some(name)).drop_last()
            == compact_command_text(exe, retain, strict, None).drop_last(),
        compact_command_text(exe, retain, strict, Some(name)).last() == name,
        compact_command_text(exe, retain, strict, None).last() == "--all"@,
        compact_command_text(exe, retain, strict, None).len() == (if strict { 6int } else { 5int }),
        compact_command_text(exe, retain, strict, None).take(4) == seq![exe, "compact"@, "--retain"@, retain],
        strict ==> compact_command_text(exe, retain, strict, None)[4] == "--strict"@,
{
    let a = compact_command_text(exe, retain, strict, Some(name));
    let b = compact_command_text(exe, retain, strict, None);
    assert(a.drop_last() =~= b.drop_last());
    assert(b.take(4) =~= seq![exe, "compact"@, "--retain"@, retain]);
}

} // verus!
