//! `fork`: a new instance recovered from another's base backup and WAL
//! archive, optionally up to a point in time.

use vstd::prelude::*;
use crate::config::{copy_opt, InstanceMetadata};
use crate::paths::{join, join_path};
use crate::text::{decimal, owned, push_decimal};

verus! {

/// Result of `fork`.
#[derive(Clone, Debug)]
pub struct ForkOutput {
    pub old_name: String,
    pub new_name: String,
    pub port: u16,
    pub connection_string: String,
}

/// `Forked '<old>' to '<new>' on port <port>` and the connection string on
/// the next line.
pub open spec fn fork_output_text(o: ForkOutput) -> Seq<char> {
    "Forked '"@ + o.old_name@ + "' to '"@ + o.new_name@ + "' on port "@ + decimal(o.port as nat)
        + "\nConnection string: "@ + o.connection_string@
}

impl ForkOutput {
    /// The lines printed after `fork`.
    pub fn to_text(&self) -> (r: String)
        ensures
            r@ == fork_output_text(*self),
    {
        let mut r = owned("Forked '");
        r.push_str(self.old_name.as_str());
        r.push_str("' to '");
        r.push_str(self.new_name.as_str());
        r.push_str("' on port ");
        push_decimal(&mut r, self.port as u64);
        r.push_str("\nConnection string: ");
        r.push_str(self.connection_string.as_str());
        r
    }
}

/// Whether `fork` takes a new base backup of the source: always for a plain
/// fork, and for a point-in-time fork when no earlier snapshot exists.
pub fn needs_fresh_backup(target_given: bool, snapshot_exists: bool) -> (r: bool)
    ensures
        r == (!target_given || !snapshot_exists),
{
    !target_given || !snapshot_exists
}

/// The recovery settings appended to the new instance's `postgresql.conf`:
/// fetch WAL from the source's archive, stop at the target time if one is
/// given, then promote.
pub open spec fn recovery_config_text(target: Option<Seq<char>>) -> Seq<char> {
    "\n# Paagan Recovery Config\n"@ + "restore_command = 'cp /restore/%f %p'\n"@ + match target {
        Some(t) => "recovery_target_time = '"@ + t + "'\n"@,
        None => seq![],
    } + "recovery_target_action = 'promote'\n"@
}

/// The recovery settings for a fork, up to `target` when given.
pub fn recovery_config(target: Option<&str>) -> (r: String)
    ensures
        r@ == recovery_config_text(match target {
            Some(t) => Some(t@),
            None => None,
        }),
{
    let mut r = owned("\n# Paagan Recovery Config\n");
    r.push_str("restore_command = 'cp /restore/%f %p'\n");
    match target {
        Some(t) => {
            r.push_str("recovery_target_time = '");
            r.push_str(t);
            r.push_str("'\n");
        },
        None => {},
    }
    r.push_str("recovery_target_action = 'promote'\n");
    r
}

/// Which file of the base snapshot `fork` unpacks.
#[derive(Clone, Copy, Debug, PartialEq, Eq, Structural)]
pub enum BaseArchive {
    /// `base.tar.gz`
    Compressed,
    /// `base.tar`
    Plain,
}

/// The compressed archive when it exists, else the plain one; `None` when
/// neither exists (the fork fails: no base backup file).
pub fn pick_base_archive(compressed_exists: bool, plain_exists: bool) -> (r: Option<BaseArchive>)
    ensures
        compressed_exists ==> r == Some(BaseArchive::Compressed),
        !compressed_exists && plain_exists ==> r == Some(BaseArchive::Plain),
        !compressed_exists && !plain_exists ==> r is None,
{
    if compressed_exists {
        Some(BaseArchive::Compressed)
    } else if plain_exists {
        Some(BaseArchive::Plain)
    } else {
        None
    }
}

/// Where the new instance's cluster is unpacked: the data directory, or the
/// image's subdirectory of it.
pub fn fork_data_dir(data_root: &str, data_subdir: &Option<String>) -> (r: String)
    ensures
        r@ == (match *data_subdir {
            Some(sub) => join(data_root@, sub@),
            None => data_root@,
        }),
{
    match data_subdir {
        Some(sub) => join_path(data_root, sub.as_str()),
        None => owned(data_root),
    }
}

/// The record kept for a fork: the source's version, image, init mode and
/// preloaded libraries, under the new name, port and container.
pub fn fork_metadata(
    source: &InstanceMetadata,
    new_name: String,
    port: u16,
    container_id: String,
    data_subdir: Option<String>,
) -> (r: InstanceMetadata)
    ensures
        r.name == new_name,
        r.version == source.version,
        r.port == port,
        r.container_id == Some(container_id),
        r.data_subdir == data_subdir,
        r.image == source.image,
        r.init_mode == source.init_mode,
        r.shared_preload_libraries == source.shared_preload_libraries,
{
    InstanceMetadata {
        name: new_name,
        version: source.version.clone(),
        port,
        container_id: Some(container_id),
        data_subdir,
        image: copy_opt(&source.image),
        init_mode: source.init_mode,
        shared_preload_libraries: copy_opt(&source.shared_preload_libraries),
    }
}

} // verus!
