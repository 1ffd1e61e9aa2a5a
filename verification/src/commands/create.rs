//! `create`: a new instance from an image, with its directories, container
//! and an initial base backup.

use vstd::prelude::*;
use crate::config::{copy_opt, InitMode, InstanceMetadata};
use crate::text::{concat2, decimal, owned, push_decimal};

verus! {

/// What `create` is asked for.
#[derive(Clone, Debug)]
pub struct CreateArgs {
    /// PostgreSQL version, used to build `postgres:<version>` when no image
    /// is given.
    pub version: String,
    /// Full image to use instead.
    pub image: Option<String>,
    /// Comma-separated list passed as `shared_preload_libraries`.
    pub shared_preload_libraries: Option<String>,
    pub init_mode: InitMode,
    pub name: String,
}

/// Result of `create`.
#[derive(Clone, Debug)]
pub struct CreateOutput {
    pub name: String,
    pub port: u16,
    pub connection_string: String,
}

/// `Created instance '<name>' on port <port>` and the connection string on
/// the next line.
pub open spec fn create_output_text(o: CreateOutput) -> Seq<char> {
    "Created instance '"@ + o.name@ + "' on port "@ + decimal(o.port as nat) + "\nConnection string: "@
        + o.connection_string@
}

impl CreateOutput {
    /// The lines printed after `create`.
    pub fn to_text(&self) -> (r: String)
        ensures
            r@ == create_output_text(*self),
    {
        let mut r = owned("Created instance '");
        r.push_str(self.name.as_str());
        r.push_str("' on port ");
        push_decimal(&mut r, self.port as u64);
        r.push_str("\nConnection string: ");
        r.push_str(self.connection_string.as_str());
        r
    }
}

/// The connection string printed for a new instance on `port`.
pub open spec fn new_connection_string_text(port: u16) -> Seq<char> {
    "postgresql://postgres@localhost:"@ + decimal(port as nat) + "/postgres"@
}

/// `postgresql://postgres@localhost:<port>/postgres`.
pub fn new_connection_string(port: u16) -> (r: String)
    ensures
        r@ == new_connection_string_text(port),
{
    let mut r = owned("postgresql://postgres@localhost:");
    push_decimal(&mut r, port as u64);
    r.push_str("/postgres");
    r
}

/// The image to run: the one given, or `postgres:<version>`.
pub fn image_for(image: &Option<String>, version: &str) -> (r: String)
    ensures
        r@ == (match *image {
            Some(i) => i@,
            None => "postgres:"@ + version@,
        }),
{
    match image {
        Some(i) => i.clone(),
        None => concat2("postgres:", version),
    }
}

/// Container path of the initial base backup taken after `create`.
pub fn base_snapshot_path() -> (r: &'static str)
    ensures
        r@ == "/backups/base_snapshot"@,
{
    "/backups/base_snapshot"
}

/// The record kept for a new instance.
pub fn new_instance_metadata(
    args: &CreateArgs,
    port: u16,
    container_id: String,
    data_subdir: Option<String>,
) -> (r: InstanceMetadata)
    ensures
        r.name == args.name,
        r.version == args.version,
        r.port == port,
        r.container_id == Some(container_id),
        r.data_subdir == data_subdir,
        r.image == args.image,
        r.init_mode == args.init_mode,
        r.shared_preload_libraries == args.shared_preload_libraries,
{
    InstanceMetadata {
        name: args.name.clone(),
        version: args.version.clone(),
        port,
        container_id: Some(container_id),
        data_subdir,
        image: copy_opt(&args.image),
        init_mode: args.init_mode,
        shared_preload_libraries: copy_opt(&args.shared_preload_libraries),
    }
}

} // verus!
