//! `list`: every managed instance with its version, port and container
//! state.

use vstd::prelude::*;
use crate::config::{Config, InstanceMetadata};
use crate::text::{decimal, owned, pad_right, pad_right_to, str_eq, u64_to_decimal};

verus! {

/// An instance and the state of its container.
#[derive(Clone, Debug)]
pub struct InstanceStatus {
    pub metadata: InstanceMetadata,
    pub status: String,
}

/// Result of `list`.
#[derive(Clone, Debug)]
pub struct ListOutput {
    pub instances: Vec<InstanceStatus>,
}

/// One table row: columns of 15, 10, 10 and 10 characters, left aligned.
pub open spec fn table_row(a: Seq<char>, b: Seq<char>, c: Seq<char>, d: Seq<char>) -> Seq<char> {
    pad_right(a, 15) + seq![' '] + pad_right(b, 10) + seq![' '] + pad_right(c, 10) + seq![' ']
        + pad_right(d, 10) + seq!['\n']
}

/// The rows of the instances, in order.
pub open spec fn instance_rows(s: Seq<InstanceStatus>) -> Seq<char>
    decreases s.len(),
{
    if s.len() == 0 {
        seq![]
    } else {
        instance_rows(s.drop_last()) + table_row(
            s.last().metadata.name@,
            s.last().metadata.version@,
            decimal(s.last().metadata.port as nat),
            s.last().status@,
        )
    }
}

/// The table `list` prints: a header row, then one row per instance.
pub open spec fn list_output_text(o: ListOutput) -> Seq<char> {
    table_row("NAME"@, "VERSION"@, "PORT"@, "STATUS"@) + instance_rows(o.instances@)
}

fn push_row(out: &mut String, a: &str, b: &str, c: &str, d: &str)
    ensures
        final(out)@ == old(out)@ + table_row(a@, b@, c@, d@),
{
    let pa = pad_right_to(a, 15);
    let pb = pad_right_to(b, 10);
    let pc = pad_right_to(c, 10);
    let pd = pad_right_to(d, 10);
    let ghost before = out@;
    out.push_str(pa.as_str());
    out.push(' ');
    out.push_str(pb.as_str());
    out.push(' ');
    out.push_str(pc.as_str());
    out.push(' ');
    out.push_str(pd.as_str());
    out.push('\n');
    assert(out@ =~= before + table_row(a@, b@, c@, d@));
}

impl ListOutput {
    /// The table printed by `list`.
    pub fn to_text(&self) -> (r: String)
        ensures
            r@ == list_output_text(*self),
    {
        let mut out = String::new();
        push_row(&mut out, "NAME", "VERSION", "PORT", "STATUS");
        assert(out@ =~= table_row("NAME"@, "VERSION"@, "PORT"@, "STATUS"@));
        let n: usize = self.instances.len();
        let mut i: usize = 0;
        while i < n
            invariant
                n == self.instances@.len(),
                i <= n,
                out@ == table_row("NAME"@, "VERSION"@, "PORT"@, "STATUS"@) + instance_rows(self.instances@.take(i as int)),
            decreases n - i,
        {
            let inst = &self.instances[i];
            let port = u64_to_decimal(inst.metadata.port as u64);
            push_row(&mut out, inst.metadata.name.as_str(), inst.metadata.version.as_str(), port.as_str(), inst.status.as_str());
            proof {
                let t = self.instances@.take(i + 1);
                assert(t.drop_last() =~= self.instances@.take(i as int));
                assert(t.last() == self.instances@[i as int]);
            }
            i = i + 1;
        }
        assert(self.instances@.take(n as int) =~= self.instances@);
        out
    }
}

/// The state of instance `name` among (instance, state) pairs of the
/// containers: that of its first container, or `not found`.
pub open spec fn status_text(containers: Seq<(String, String)>, name: Seq<char>) -> Seq<char> {
    if exists|i: int| 0 <= i < containers.len() && containers[i].0@ == name {
        containers[choose|i: int|
            0 <= i < containers.len() && containers[i].0@ == name && forall|j: int|
                0 <= j < i ==> containers[j].0@ != name].1@
    } else {
        "not found"@
    }
}

/// The state of instance `name`'s container, or `not found`.
pub fn instance_status(containers: &Vec<(String, String)>, name: &str) -> (r: String)
    ensures
        r@ == status_text(containers@, name@),
{
    let n: usize = containers.len();
    let mut i: usize = 0;
    while i < n
        invariant
            n == containers@.len(),
            i <= n,
            forall|j: int| 0 <= j < i ==> containers@[j].0@ != name@,
        decreases n - i,
    {
        if str_eq(containers[i].0.as_str(), name) {
            proof {
                let c = containers@;
                let w = choose|x: int|
                    0 <= x < c.len() && c[x].0@ == name@ && forall|j: int| 0 <= j < x ==> c[j].0@ != name@;
                assert(0 <= i < c.len() && c[i as int].0@ == name@ && forall|j: int| 0 <= j < i ==> c[j].0@ != name@);
                assert(w == i) by {
                    if w < i {
                        assert(c[w].0@ != name@);
                    }
                    if w > i {
                        assert(c[i as int].0@ != name@);
                    }
                }
            }
            return containers[i].1.clone();
        }
        i = i + 1;
    }
    owned("not found")
}

/// Whether `s` reports one of the managed instances: its record and the
/// state of its container.
pub open spec fn reports_instance(config: &Config, containers: Seq<(String, String)>, s: InstanceStatus) -> bool {
    exists|k: Seq<char>|
        #[trigger] config.instances.view().dom().contains(k) && s.metadata == config.instances.view()[k]
            && s.status@ == status_text(containers, k)
}

/// One status per managed instance: its record and its container's state.
pub fn list_statuses(config: &Config, containers: &Vec<(String, String)>) -> (r: Vec<InstanceStatus>)
    ensures
        r@.len() == config.instances.view().dom().len(),
        forall|k: Seq<char>| #[trigger] config.instances.view().dom().contains(k) ==> exists|i: int|
            0 <= i < r@.len() && r@[i].metadata.name@ == config.instances.view()[k].name@
                && r@[i].metadata == config.instances.view()[k] && r@[i].status@ == status_text(containers@, k),
        forall|i: int| 0 <= i < r@.len() ==> #[trigger] reports_instance(config, containers@, r@[i]),
{
    let names = config.instances.keys();
    let n: usize = names.len();
    let mut r: Vec<InstanceStatus> = Vec::new();
    let mut i: usize = 0;
    while i < n
        invariant
            n == names@.len(),
            i <= n,
            r@.len() == i,
            forall|j: int| 0 <= j < n ==> config.instances.view().dom().contains(#[trigger] names@[j]@),
            forall|j: int| 0 <= j < i ==> (#[trigger] r@[j]).metadata == config.instances.view()[names@[j]@]
                && r@[j].status@ == status_text(containers@, names@[j]@),
        decreases n - i,
    {
        let key = names[i].as_str();
        let m = config.instances.get(key).unwrap().duplicate();
        let status = instance_status(containers, key);
        r.push(InstanceStatus { metadata: m, status });
        i = i + 1;
    }
    proof {
        assert forall|k: Seq<char>| #[trigger] config.instances.view().dom().contains(k) implies exists|i: int|
            0 <= i < r@.len() && r@[i].metadata.name@ == config.instances.view()[k].name@
                && r@[i].metadata == config.instances.view()[k] && r@[i].status@ == status_text(containers@, k) by {
            let j = choose|j: int| 0 <= j < names@.len() && names@[j]@ == k;
            assert(r@[j].metadata == config.instances.view()[names@[j]@]);
        }
        assert forall|i: int| 0 <= i < r@.len() implies #[trigger] reports_instance(config, containers@, r@[i]) by {
            let k = names@[i]@;
            assert(config.instances.view().dom().contains(k));
            assert(r@[i].metadata == config.instances.view()[k]);
            assert(r@[i].status@ == status_text(containers@, k));
        }
    }
    r
}

/// The table lists every instance in order: listing one more instance adds
/// exactly its row (name, version, port, status) at the end.
pub proof fn law_list_table_appends_instance(before: ListOutput, after: ListOutput, added: InstanceStatus)
    requires
        after.instances@ == before.instances@.push(added),
    ensures
        list_output_text(after) == list_output_text(before) + table_row(
            added.metadata.name@,
            added.metadata.version@,
            decimal(added.metadata.port as nat),
            added.status@,
        ),
{
    assert(after.instances@.drop_last() =~= before.instances@);
    assert(after.instances@.last() == added);
    let h = table_row("NAME"@, "VERSION"@, "PORT"@, "STATUS"@);
    let r = table_row(added.metadata.name@, added.metadata.version@, decimal(added.metadata.port as nat), added.status@);
    assert(h + (instance_rows(before.instances@) + r) =~= (h + instance_rows(before.instances@)) + r);
}

} // verus!
