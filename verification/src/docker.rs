//! What the containers of an instance look like: names, mounts, ports,
//! entrypoints, commands, environment, the init script, and the files that
//! let a host user run `initdb`. The calls to the container engine are made
//! elsewhere; everything they are handed is decided here.

use vstd::prelude::*;
use crate::config::{InitMode, InstanceMetadata};
use crate::paths::{join, join_path};
use crate::text::{concat2, concat3, decimal, owned, push_decimal, str_eq, texts};

verus! {

broadcast use vstd::seq_lib::group_seq_properties;

/// Everything needed to create an instance's container.
pub struct ContainerSpec<'a> {
    pub name: &'a str,
    pub image: &'a str,
    pub version: &'a str,
    pub init_mode: InitMode,
    pub port: u16,
    pub data_dir: &'a str,
    pub archive_dir: &'a str,
    pub backup_dir: &'a str,
    pub restore_dir: Option<&'a str>,
    pub shared_preload_libraries: Option<&'a str>,
}

/// The directories of an instance: data, WAL archive and base backups.
pub fn instance_paths(instance_dir: &str) -> (r: (String, String, String))
    ensures
        r.0@ == join(instance_dir@, "data"@),
        r.1@ == join(instance_dir@, "archive"@),
        r.2@ == join(instance_dir@, "backups"@),
{
    (join_path(instance_dir, "data"), join_path(instance_dir, "archive"), join_path(instance_dir, "backups"))
}

/// The container of instance `name` with `metadata`'s version, init mode
/// and preloaded libraries, on `port`, over the given directories, with the
/// archive to recover from at `/restore` when there is one.
pub fn instance_container_spec<'a>(
    name: &'a str,
    metadata: &'a InstanceMetadata,
    image: &'a str,
    port: u16,
    data_dir: &'a str,
    archive_dir: &'a str,
    backup_dir: &'a str,
    restore_dir: Option<&'a str>,
) -> (r: ContainerSpec<'a>)
    ensures
        r.name == name,
        r.image == image,
        r.version@ == metadata.version@,
        r.init_mode == metadata.init_mode,
        r.port == port,
        r.data_dir == data_dir,
        r.archive_dir == archive_dir,
        r.backup_dir == backup_dir,
        r.restore_dir == restore_dir,
        opt_view(r.shared_preload_libraries) == crate::config::opt_text(metadata.shared_preload_libraries),
{
    let libraries: Option<&'a str> = match &metadata.shared_preload_libraries {
        Some(s) => Some(s.as_str()),
        None => None,
    };
    ContainerSpec {
        name,
        image,
        version: metadata.version.as_str(),
        init_mode: metadata.init_mode,
        port,
        data_dir,
        archive_dir,
        backup_dir,
        restore_dir,
        shared_preload_libraries: libraries,
    }
}

/// The port key of PostgreSQL inside every container, exposed and bound.
pub fn postgres_port_key() -> (r: &'static str)
    ensures
        r@ == "5432/tcp"@,
{
    "5432/tcp"
}

/// The host address the instance's port is bound on: every interface.
pub fn bind_host_ip() -> (r: &'static str)
    ensures
        r@ == "0.0.0.0"@,
{
    "0.0.0.0"
}

/// The entrypoint of a CloudNativePG-style instance container.
pub fn cnpg_entrypoint() -> (r: Vec<String>)
    ensures
        texts(r@) == seq!["postgres"@],
{
    let mut r: Vec<String> = Vec::new();
    r.push(owned("postgres"));
    assert(texts(r@) =~= seq!["postgres"@]);
    r
}

/// The entrypoint of the one-shot init container: a strict `bash -c`.
pub fn init_entrypoint() -> (r: Vec<String>)
    ensures
        texts(r@) == seq!["bash"@, "-eu"@, "-c"@],
{
    let mut r: Vec<String> = Vec::new();
    r.push(owned("bash"));
    r.push(owned("-eu"));
    r.push(owned("-c"));
    assert(texts(r@) =~= seq!["bash"@, "-eu"@, "-c"@]);
    r
}

/// What the one-shot init container runs: `initdb` (password from
/// `$POSTGRES_PASSWORD`, scram over TCP, trust locally, remote scram lines
/// in `pg_hba.conf`) unless `$PGDATA/PG_VERSION` exists, then a local-only
/// start that sets the superuser password again, and a stop.
pub open spec fn init_script_text() -> Seq<char> {
    "\nmkdir -p \"$PGDATA\"\nif [ ! -s \"$PGDATA/PG_VERSION\" ]; then\n    PWFILE=$(mktemp)\n    printf '%s' \"$POSTGRES_PASSWORD\" > \"$PWFILE\"\n    initdb \\\n        -D \"$PGDATA\" -U postgres \\\n        --auth-host=scram-sha-256 --auth-local=trust \\\n        --pwfile=\"$PWFILE\"\n    rm -f \"$PWFILE\"\n    {\n        echo \"host all all 0.0.0.0/0 scram-sha-256\"\n        echo \"host all all ::/0      scram-sha-256\"\n    } >> \"$PGDATA/pg_hba.conf\"\nfi\n\npg_ctl -D \"$PGDATA\" \\\n    -o \"-c listen_addresses='' -c unix_socket_directories=/tmp\" \\\n    -w start\npsql -h /tmp -U postgres -v ON_ERROR_STOP=1 \\\n    -c \"ALTER USER postgres WITH PASSWORD '$POSTGRES_PASSWORD';\"\npg_ctl -D \"$PGDATA\" -m fast -w stop\n"@
}

/// The script of the one-shot init container (see [`init_script_text`]).
pub fn init_script() -> (r: &'static str)
    ensures
        r@ == init_script_text(),
{
    "\nmkdir -p \"$PGDATA\"\nif [ ! -s \"$PGDATA/PG_VERSION\" ]; then\n    PWFILE=$(mktemp)\n    printf '%s' \"$POSTGRES_PASSWORD\" > \"$PWFILE\"\n    initdb \\\n        -D \"$PGDATA\" -U postgres \\\n        --auth-host=scram-sha-256 --auth-local=trust \\\n        --pwfile=\"$PWFILE\"\n    rm -f \"$PWFILE\"\n    {\n        echo \"host all all 0.0.0.0/0 scram-sha-256\"\n        echo \"host all all ::/0      scram-sha-256\"\n    } >> \"$PGDATA/pg_hba.conf\"\nfi\n\npg_ctl -D \"$PGDATA\" \\\n    -o \"-c listen_addresses='' -c unix_socket_directories=/tmp\" \\\n    -w start\npsql -h /tmp -U postgres -v ON_ERROR_STOP=1 \\\n    -c \"ALTER USER postgres WITH PASSWORD '$POSTGRES_PASSWORD';\"\npg_ctl -D \"$PGDATA\" -m fast -w stop\n"
}

/// The directory that holds `path`, as `Path::parent` gives it, or `None`
/// where `path` is empty or a root.
pub uninterp spec fn path_parent_text(path: Seq<char>) -> Option<Seq<char>>;

/// The parent of `path` with std's `Path::parent`, as text.
///
/// Claims only that the result is a function of `path`.
#[verifier::external_body]
fn path_parent(path: &str) -> (r: Option<String>)
    ensures
        r is Some <==> path_parent_text(path@) is Some,
        r matches Some(p) ==> p@ == path_parent_text(path@)->0,
{
    std::path::Path::new(path).parent().map(|p| p.to_string_lossy().into_owned())
}

/// Where the passwd and group files of a CloudNativePG-style instance go:
/// `.paagan-passwd` and `.paagan-group` next to its data directory; `None`
/// where the data directory has no parent.
pub fn passwd_file_paths(data_dir: &str) -> (r: Option<(String, String)>)
    ensures
        r is Some <==> path_parent_text(data_dir@) is Some,
        r matches Some(p) ==> p.0@ == join(path_parent_text(data_dir@)->0, ".paagan-passwd"@)
            && p.1@ == join(path_parent_text(data_dir@)->0, ".paagan-group"@),
{
    match path_parent(data_dir) {
        Some(parent) => Some((join_path(parent.as_str(), ".paagan-passwd"), join_path(parent.as_str(), ".paagan-group"))),
        None => None,
    }
}

/// The container of instance `name`: `paagan-<name>`.
pub fn container_name(name: &str) -> (r: String)
    ensures
        r@ == "paagan-"@ + name@,
{
    concat2("paagan-", name)
}

/// The one-shot init container of instance `name`: `paagan-<name>-init`.
pub fn init_container_name(name: &str) -> (r: String)
    ensures
        r@ == "paagan-"@ + name@ + "-init"@,
{
    concat3("paagan-", name, "-init")
}

/// Where a CloudNativePG-style image keeps its data mount.
pub open spec fn cnpg_data_mount() -> Seq<char> {
    "/var/lib/postgresql/data"@
}

/// `PGDATA` inside a CloudNativePG-style container.
pub open spec fn cnpg_pgdata() -> Seq<char> {
    "/var/lib/postgresql/data/pgdata"@
}

/// The leading run of ASCII digits of `s`.
pub open spec fn leading_digits(s: Seq<char>) -> Seq<char> {
    if exists|i: int| 0 <= i < s.len() && !('0' <= #[trigger] s[i] && s[i] <= '9') {
        s.take(choose|i: int|
            0 <= i < s.len() && !('0' <= s[i] && s[i] <= '9') && forall|j: int|
                0 <= j < i ==> '0' <= #[trigger] s[j] && s[j] <= '9')
    } else {
        s
    }
}

/// Value of a run of decimal digits.
pub open spec fn digits_value(s: Seq<char>) -> nat
    decreases s.len(),
{
    if s.len() == 0 {
        0
    } else {
        (digits_value(s.drop_last()) * 10 + (s.last() as int - '0' as int)) as nat
    }
}

/// The major version of a version text: the digits it starts with (those of
/// its first `.`-separated part), read as a `u32`, or 0 where there are none
/// or they do not fit.
pub open spec fn major_version(version: Seq<char>) -> nat {
    let d = leading_digits(version);
    if d.len() == 0 || digits_value(d) > u32::MAX {
        0
    } else {
        digits_value(d)
    }
}

/// Where the official image mounts the data of `version`, and the data
/// directory below that mount, if any: from version 18 on (and for
/// `latest`) the mount is `/var/lib/postgresql` and the data lives in
/// `<major>/docker`; before, the mount is the data directory itself.
pub open spec fn standard_mount_text(version: Seq<char>) -> (Seq<char>, Option<Seq<char>>) {
    if major_version(version) >= 18 || version == "latest"@ {
        let v = if version == "latest"@ { "18"@ } else { leading_digits(version) };
        ("/var/lib/postgresql"@, Some(v + "/docker"@))
    } else {
        ("/var/lib/postgresql/data"@, None)
    }
}

/// The data mount point and data subdirectory for an init mode and version.
pub open spec fn mount_text(init_mode: InitMode, version: Seq<char>) -> (Seq<char>, Option<Seq<char>>) {
    match init_mode {
        InitMode::Standard => standard_mount_text(version),
        InitMode::Cnpg => (cnpg_data_mount(), Some("pgdata"@)),
    }
}

fn leading_digit_count(s: &str) -> (r: usize)
    ensures
        r <= s@.len(),
        s@.take(r as int) == leading_digits(s@),
        forall|j: int| 0 <= j < r ==> '0' <= #[trigger] s@[j] && s@[j] <= '9',
{
    let n: usize = s.unicode_len();
    let mut i: usize = 0;
    while i < n && ('0' <= s.get_char(i) && s.get_char(i) <= '9')
        invariant
            n == s@.len(),
            i <= n,
            forall|j: int| 0 <= j < i ==> '0' <= #[trigger] s@[j] && s@[j] <= '9',
        decreases n - i,
    {
        i = i + 1;
    }
    proof {
        let t = s@;
        if i < n {
            let w = choose|k: int|
                0 <= k < t.len() && !('0' <= t[k] && t[k] <= '9') && forall|j: int|
                    0 <= j < k ==> '0' <= #[trigger] t[j] && t[j] <= '9';
            assert(0 <= i < t.len() && !('0' <= t[i as int] && t[i as int] <= '9'));
            assert(w == i) by {
                if w < i {
                    assert('0' <= t[w] && t[w] <= '9');
                }
                if w > i {
                    assert('0' <= t[i as int] && t[i as int] <= '9');
                }
            }
        } else {
            assert(t.take(i as int) =~= t);
        }
    }
    i
}

fn parse_major(s: &str, n: usize) -> (r: u32)
    requires
        n <= s@.len(),
        forall|j: int| 0 <= j < n ==> '0' <= #[trigger] s@[j] && s@[j] <= '9',
    ensures
        r == (if n == 0 || digits_value(s@.take(n as int)) > u32::MAX {
            0
        } else {
            digits_value(s@.take(n as int))
        }),
{
    let mut acc: u64 = 0;
    let mut i: usize = 0;
    assert(s@.take(0) =~= seq![]);
    while i < n
        invariant
            n <= s@.len(),
            i <= n,
            forall|j: int| 0 <= j < n ==> '0' <= #[trigger] s@[j] && s@[j] <= '9',
            acc == digits_value(s@.take(i as int)),
            acc <= u32::MAX,
        decreases n - i,
    {
        let c = s.get_char(i);
        let d: u64 = (c as u64) - ('0' as u64);
        assert(s@.take(i + 1).drop_last() =~= s@.take(i as int));
        assert(s@.take(i + 1).last() == c);
        if acc * 10 + d > 0xffff_ffffu64 {
            proof {
                lemma_digits_value_grows(s@.take(n as int), i + 1);
                assert(s@.take(n as int).take(i + 1) =~= s@.take(i + 1));
            }
            return 0;
        }
        acc = acc * 10 + d;
        i = i + 1;
    }
    if n == 0 {
        0
    } else {
        acc as u32
    }
}

proof fn lemma_digits_value_grows(s: Seq<char>, i: int)
    requires
        0 <= i <= s.len(),
        forall|j: int| 0 <= j < s.len() ==> '0' <= #[trigger] s[j] && s[j] <= '9',
    ensures
        digits_value(s.take(i)) <= digits_value(s),
    decreases s.len() - i,
{
    if i < s.len() {
        lemma_digits_value_grows(s, i + 1);
        assert(s.take(i + 1).drop_last() =~= s.take(i));
        assert(s.take(i + 1).last() == s[i]);
        let v = digits_value(s.take(i));
        let d = s[i] as int - '0' as int;
        assert(v * 10 + d >= v) by (nonlinear_arith)
            requires
                v >= 0,
                d >= 0,
        ;
    } else {
        assert(s.take(i) =~= s);
    }
}

/// Where the official image of `version` mounts its data, and the data
/// directory below the mount, if any.
pub fn standard_mount_info(version: &str) -> (r: (&'static str, Option<String>))
    ensures
        r.0@ == standard_mount_text(version@).0,
        match r.1 {
            Some(s) => standard_mount_text(version@).1 == Some(s@),
            None => standard_mount_text(version@).1 is None,
        },
{
    let n = leading_digit_count(version);
    let major = parse_major(version, n);
    let latest = str_eq(version, "latest");
    if major >= 18 || latest {
        let v = if latest { owned("18") } else { owned(version.substring_char(0, n)) };
        ("/var/lib/postgresql", Some(concat2(v.as_str(), "/docker")))
    } else {
        ("/var/lib/postgresql/data", None)
    }
}

/// The data mount point and data subdirectory for an init mode and version.
pub fn mount_info(init_mode: InitMode, version: &str) -> (r: (&'static str, Option<String>))
    ensures
        r.0@ == mount_text(init_mode, version@).0,
        match r.1 {
            Some(s) => mount_text(init_mode, version@).1 == Some(s@),
            None => mount_text(init_mode, version@).1 is None,
        },
{
    match init_mode {
        InitMode::Standard => standard_mount_info(version),
        InitMode::Cnpg => ("/var/lib/postgresql/data", Some(owned("pgdata"))),
    }
}

/// The `-c` settings every instance runs with: replica WAL, archiving into
/// `/archive`, and the preloaded libraries when given.
pub open spec fn archive_settings(shared_preload_libraries: Option<Seq<char>>) -> Seq<Seq<char>> {
    seq!["-c"@, "wal_level=replica"@, "-c"@, "archive_mode=on"@, "-c"@, "archive_command=cp %p /archive/%f"@]
        + match shared_preload_libraries {
        Some(s) => seq!["-c"@, "shared_preload_libraries="@ + s],
        None => seq![],
    }
}

/// The characters of an optional slice.
pub open spec fn opt_view(o: Option<&str>) -> Option<Seq<char>> {
    match o {
        Some(s) => Some(s@),
        None => None,
    }
}

fn push_archive_settings(cmd: &mut Vec<String>, shared_preload_libraries: Option<&str>)
    ensures
        texts(final(cmd)@) == texts(old(cmd)@) + archive_settings(opt_view(shared_preload_libraries)),
{
    let ghost before = texts(cmd@);
    cmd.push(owned("-c"));
    cmd.push(owned("wal_level=replica"));
    cmd.push(owned("-c"));
    cmd.push(owned("archive_mode=on"));
    cmd.push(owned("-c"));
    cmd.push(owned("archive_command=cp %p /archive/%f"));
    if let Some(s) = shared_preload_libraries {
        cmd.push(owned("-c"));
        cmd.push(concat2("shared_preload_libraries=", s));
    }
    assert(texts(cmd@) =~= before + archive_settings(opt_view(shared_preload_libraries)));
}

/// The command of a standard container: `postgres` with the archive
/// settings.
pub fn standard_postgres_cmd(shared_preload_libraries: Option<&str>) -> (r: Vec<String>)
    ensures
        texts(r@) == seq!["postgres"@] + archive_settings(opt_view(shared_preload_libraries)),
{
    let mut cmd: Vec<String> = Vec::new();
    cmd.push(owned("postgres"));
    assert(texts(cmd@) =~= seq!["postgres"@]);
    push_archive_settings(&mut cmd, shared_preload_libraries);
    cmd
}

/// The arguments to `postgres` in a CloudNativePG-style container: its
/// data directory, listening on all addresses with the socket in `/tmp`,
/// then the archive settings.
pub fn cnpg_postgres_cmd(shared_preload_libraries: Option<&str>) -> (r: Vec<String>)
    ensures
        texts(r@) == seq![
            "-D"@,
            cnpg_pgdata(),
            "-c"@,
            "listen_addresses=*"@,
            "-c"@,
            "unix_socket_directories=/tmp"@,
        ] + archive_settings(opt_view(shared_preload_libraries)),
{
    let mut cmd: Vec<String> = Vec::new();
    cmd.push(owned("-D"));
    cmd.push(owned("/var/lib/postgresql/data/pgdata"));
    cmd.push(owned("-c"));
    cmd.push(owned("listen_addresses=*"));
    cmd.push(owned("-c"));
    cmd.push(owned("unix_socket_directories=/tmp"));
    assert(texts(cmd@) =~= seq![
        "-D"@,
        cnpg_pgdata(),
        "-c"@,
        "listen_addresses=*"@,
        "-c"@,
        "unix_socket_directories=/tmp"@,
    ]);
    push_archive_settings(&mut cmd, shared_preload_libraries);
    cmd
}

/// The environment of an instance's container.
pub open spec fn container_env_text(init_mode: InitMode) -> Seq<Seq<char>> {
    match init_mode {
        InitMode::Standard => seq!["POSTGRES_PASSWORD=password"@, "POSTGRES_HOST_AUTH_METHOD=trust"@],
        InitMode::Cnpg => seq!["PGDATA="@ + cnpg_pgdata()],
    }
}

/// The environment of an instance's container: the superuser password and
/// trust for the official image; `PGDATA` for a CloudNativePG-style one.
pub fn container_env(init_mode: InitMode) -> (r: Vec<String>)
    ensures
        texts(r@) == container_env_text(init_mode),
{
    let mut env: Vec<String> = Vec::new();
    match init_mode {
        InitMode::Standard => {
            env.push(owned("POSTGRES_PASSWORD=password"));
            env.push(owned("POSTGRES_HOST_AUTH_METHOD=trust"));
        },
        InitMode::Cnpg => {
            env.push(concat2("PGDATA=", "/var/lib/postgresql/data/pgdata"));
        },
    }
    assert(texts(env@) =~= container_env_text(init_mode));
    env
}

/// The bind mounts of an instance's container: data at the mount point,
/// archive, backups, the source archive of a fork at `/restore`, and the
/// passwd and group files (read-only) when given.
pub open spec fn instance_binds_text(
    data_dir: Seq<char>,
    mount_point: Seq<char>,
    archive_dir: Seq<char>,
    backup_dir: Seq<char>,
    restore_dir: Option<Seq<char>>,
    passwd_files: Option<(Seq<char>, Seq<char>)>,
) -> Seq<Seq<char>> {
    seq![data_dir + seq![':'] + mount_point, archive_dir + ":/archive"@, backup_dir + ":/backups"@]
        + match restore_dir {
        Some(r) => seq![r + ":/restore"@],
        None => seq![],
    } + match passwd_files {
        Some((p, g)) => seq![p + ":/etc/passwd:ro"@, g + ":/etc/group:ro"@],
        None => seq![],
    }
}

/// The characters of an optional pair of paths.
pub open spec fn pair_view(o: Option<(&str, &str)>) -> Option<(Seq<char>, Seq<char>)> {
    match o {
        Some((a, b)) => Some((a@, b@)),
        None => None,
    }
}

/// The bind mounts of the container described by `spec`, with the passwd
/// and group files for a CloudNativePG-style one.
pub fn instance_binds(spec: &ContainerSpec, passwd_files: Option<(&str, &str)>) -> (r: Vec<String>)
    ensures
        texts(r@) == instance_binds_text(
            spec.data_dir@,
            mount_text(spec.init_mode, spec.version@).0,
            spec.archive_dir@,
            spec.backup_dir@,
            opt_view(spec.restore_dir),
            pair_view(passwd_files),
        ),
{
    let (mount_point, _) = mount_info(spec.init_mode, spec.version);
    let mut binds: Vec<String> = Vec::new();
    let mut first = owned(spec.data_dir);
    first.push(':');
    first.push_str(mount_point);
    assert(first@ =~= spec.data_dir@ + seq![':'] + mount_point@);
    binds.push(first);
    binds.push(concat2(spec.archive_dir, ":/archive"));
    binds.push(concat2(spec.backup_dir, ":/backups"));
    if let Some(rd) = spec.restore_dir {
        binds.push(concat2(rd, ":/restore"));
    }
    if let Some((p, g)) = passwd_files {
        binds.push(concat2(p, ":/etc/passwd:ro"));
        binds.push(concat2(g, ":/etc/group:ro"));
    }
    assert(texts(binds@) =~= instance_binds_text(
        spec.data_dir@,
        mount_text(spec.init_mode, spec.version@).0,
        spec.archive_dir@,
        spec.backup_dir@,
        opt_view(spec.restore_dir),
        pair_view(passwd_files),
    ));
    binds
}

/// The host port bound to the container's 5432: the instance's port as
/// decimal text.
pub fn host_port_text(port: u16) -> (r: String)
    ensures
        r@ == decimal(port as nat),
{
    crate::text::u64_to_decimal(port as u64)
}

/// The bind mounts of the one-shot init container: the data directory at
/// the CloudNativePG data mount, and the passwd and group files read-only.
pub fn init_container_binds(data_dir: &str, passwd_path: &str, group_path: &str) -> (r: Vec<String>)
    ensures
        texts(r@) == seq![
            data_dir@ + seq![':'] + cnpg_data_mount(),
            passwd_path@ + ":/etc/passwd:ro"@,
            group_path@ + ":/etc/group:ro"@,
        ],
{
    let mut binds: Vec<String> = Vec::new();
    let mut first = owned(data_dir);
    first.push(':');
    first.push_str("/var/lib/postgresql/data");
    assert(first@ =~= data_dir@ + seq![':'] + cnpg_data_mount());
    binds.push(first);
    binds.push(concat2(passwd_path, ":/etc/passwd:ro"));
    binds.push(concat2(group_path, ":/etc/group:ro"));
    assert(texts(binds@) =~= seq![
        data_dir@ + seq![':'] + cnpg_data_mount(),
        passwd_path@ + ":/etc/passwd:ro"@,
        group_path@ + ":/etc/group:ro"@,
    ]);
    binds
}

/// The environment of the one-shot init container.
pub fn init_container_env() -> (r: Vec<String>)
    ensures
        texts(r@) == seq!["PGDATA="@ + cnpg_pgdata(), "POSTGRES_PASSWORD=postgres"@],
{
    let mut env: Vec<String> = Vec::new();
    env.push(concat2("PGDATA=", "/var/lib/postgresql/data/pgdata"));
    env.push(owned("POSTGRES_PASSWORD=postgres"));
    assert(texts(env@) =~= seq!["PGDATA="@ + cnpg_pgdata(), "POSTGRES_PASSWORD=postgres"@]);
    env
}

/// The arguments that follow `docker exec <container>` when a client reaches
/// postgres: over the socket in `/tmp` for a CloudNativePG-style container
/// (where local connections are trusted), then as `postgres`.
pub open spec fn client_args(init_mode: InitMode) -> Seq<Seq<char>> {
    match init_mode {
        InitMode::Cnpg => seq!["-h"@, "/tmp"@, "-U"@, "postgres"@],
        InitMode::Standard => seq!["-U"@, "postgres"@],
    }
}

fn push_client_args(args: &mut Vec<String>, init_mode: InitMode)
    ensures
        texts(final(args)@) == texts(old(args)@) + client_args(init_mode),
{
    let ghost before = texts(args@);
    if let InitMode::Cnpg = init_mode {
        args.push(owned("-h"));
        args.push(owned("/tmp"));
    }
    args.push(owned("-U"));
    args.push(owned("postgres"));
    assert(texts(args@) =~= before + client_args(init_mode));
}

/// The `docker` arguments that take a base backup of instance `name` into
/// `backup_path` (compressed tar, fast checkpoint, WAL streamed).
pub fn basebackup_args(name: &str, backup_path: &str, init_mode: InitMode) -> (r: Vec<String>)
    ensures
        texts(r@) == seq!["exec"@, "paagan-"@ + name@, "pg_basebackup"@] + client_args(init_mode) + seq![
            "-D"@,
            backup_path@,
            "--checkpoint=fast"@,
            "-Ft"@,
            "-z"@,
            "-X"@,
            "stream"@,
            "-P"@,
        ],
{
    let mut args: Vec<String> = Vec::new();
    args.push(owned("exec"));
    args.push(container_name(name));
    args.push(owned("pg_basebackup"));
    let ghost head = texts(args@);
    assert(head =~= seq!["exec"@, "paagan-"@ + name@, "pg_basebackup"@]);
    push_client_args(&mut args, init_mode);
    let ghost mid = texts(args@);
    args.push(owned("-D"));
    args.push(owned(backup_path));
    args.push(owned("--checkpoint=fast"));
    args.push(owned("-Ft"));
    args.push(owned("-z"));
    args.push(owned("-X"));
    args.push(owned("stream"));
    args.push(owned("-P"));
    assert(texts(args@) =~= mid + seq![
        "-D"@,
        backup_path@,
        "--checkpoint=fast"@,
        "-Ft"@,
        "-z"@,
        "-X"@,
        "stream"@,
        "-P"@,
    ]);
    args
}

/// The `docker` arguments that make instance `name` switch to a new WAL
/// segment, so that the current one is archived.
pub fn wal_switch_args(name: &str, init_mode: InitMode) -> (r: Vec<String>)
    ensures
        texts(r@) == seq!["exec"@, "paagan-"@ + name@, "psql"@] + client_args(init_mode) + seq![
            "-c"@,
            "SELECT pg_switch_wal();"@,
        ],
{
    let mut args: Vec<String> = Vec::new();
    args.push(owned("exec"));
    args.push(container_name(name));
    args.push(owned("psql"));
    assert(texts(args@) =~= seq!["exec"@, "paagan-"@ + name@, "psql"@]);
    push_client_args(&mut args, init_mode);
    let ghost mid = texts(args@);
    args.push(owned("-c"));
    args.push(owned("SELECT pg_switch_wal();"));
    assert(texts(args@) =~= mid + seq!["-c"@, "SELECT pg_switch_wal();"@]);
    args
}

/// The `docker` arguments that run one query on instance `name` and print
/// its result without headers or alignment.
pub fn query_args(name: &str, init_mode: InitMode, sql: &str) -> (r: Vec<String>)
    ensures
        texts(r@) == seq!["exec"@, "paagan-"@ + name@, "psql"@] + client_args(init_mode) + seq![
            "-tA"@,
            "-c"@,
            sql@,
        ],
{
    let mut args: Vec<String> = Vec::new();
    args.push(owned("exec"));
    args.push(container_name(name));
    args.push(owned("psql"));
    assert(texts(args@) =~= seq!["exec"@, "paagan-"@ + name@, "psql"@]);
    push_client_args(&mut args, init_mode);
    let ghost mid = texts(args@);
    args.push(owned("-tA"));
    args.push(owned("-c"));
    args.push(owned(sql));
    assert(texts(args@) =~= mid + seq!["-tA"@, "-c"@, sql@]);
    args
}

/// The `docker` arguments of an interactive `psql` on instance `name`.
pub fn psql_args(name: &str, init_mode: InitMode) -> (r: Vec<String>)
    ensures
        texts(r@) == seq!["exec"@, "-it"@, "paagan-"@ + name@, "psql"@] + client_args(init_mode),
{
    let mut args: Vec<String> = Vec::new();
    args.push(owned("exec"));
    args.push(owned("-it"));
    args.push(container_name(name));
    args.push(owned("psql"));
    assert(texts(args@) =~= seq!["exec"@, "-it"@, "paagan-"@ + name@, "psql"@]);
    push_client_args(&mut args, init_mode);
    args
}

/// Whether `s` starts with `prefix`.
pub open spec fn has_prefix(s: Seq<char>, prefix: Seq<char>) -> bool {
    prefix.len() <= s.len() && s.take(prefix.len() as int) == prefix
}

/// Whether `s` ends with `suffix`.
pub open spec fn has_suffix(s: Seq<char>, suffix: Seq<char>) -> bool {
    suffix.len() <= s.len() && s.skip(s.len() - suffix.len()) == suffix
}

/// The instances that a container's names show, with the container's state
/// (empty when unknown): names `/paagan-<instance>`, init containers
/// (`-init`) left out.
pub open spec fn named_instances(names: Seq<String>, state: Seq<char>) -> Seq<(Seq<char>, Seq<char>)>
    decreases names.len(),
{
    if names.len() == 0 {
        seq![]
    } else {
        let rest = named_instances(names.drop_last(), state);
        let n = names.last()@;
        if has_prefix(n, "/paagan-"@) && !has_suffix(n.skip(8), "-init"@) {
            rest.push((n.skip(8), state))
        } else {
            rest
        }
    }
}

/// The instances of all listed containers, in order.
pub open spec fn container_instances(containers: Seq<(Option<Vec<String>>, Option<String>)>) -> Seq<(Seq<char>, Seq<char>)>
    decreases containers.len(),
{
    if containers.len() == 0 {
        seq![]
    } else {
        let c = containers.last();
        container_instances(containers.drop_last()) + match c.0 {
            Some(names) => named_instances(names@, match c.1 {
                Some(s) => s@,
                None => seq![],
            }),
            None => seq![],
        }
    }
}

fn starts_with(s: &str, prefix: &str) -> (r: bool)
    ensures
        r == has_prefix(s@, prefix@),
{
    let n: usize = s.unicode_len();
    let m: usize = prefix.unicode_len();
    if m > n {
        return false;
    }
    let head = s.substring_char(0, m);
    let r = str_eq(head, prefix);
    assert(head@ == s@.take(m as int));
    r
}

fn ends_with(s: &str, suffix: &str) -> (r: bool)
    ensures
        r == has_suffix(s@, suffix@),
{
    let n: usize = s.unicode_len();
    let m: usize = suffix.unicode_len();
    if m > n {
        return false;
    }
    let tail = s.substring_char(n - m, n);
    let r = str_eq(tail, suffix);
    assert(tail@ =~= s@.skip(n - m));
    r
}

/// The (instance, state) pairs of the containers listed by the engine, each
/// given as its names and state.
pub fn instances_from_containers(containers: &Vec<(Option<Vec<String>>, Option<String>)>) -> (r: Vec<(String, String)>)
    ensures
        Seq::new(r@.len(), |i: int| (r@[i].0@, r@[i].1@)) == container_instances(containers@),
{
    let n: usize = containers.len();
    let mut out: Vec<(String, String)> = Vec::new();
    let mut i: usize = 0;
    assert(containers@.take(0) =~= seq![]);
    while i < n
        invariant
            n == containers@.len(),
            i <= n,
            Seq::new(out@.len(), |k: int| (out@[k].0@, out@[k].1@)) == container_instances(containers@.take(i as int)),
        decreases n - i,
    {
        let c = &containers[i];
        let ghost before = Seq::new(out@.len(), |k: int| (out@[k].0@, out@[k].1@));
        let state = match &c.1 {
            Some(s) => s.clone(),
            None => String::new(),
        };
        let ghost added: Seq<(Seq<char>, Seq<char>)> = match &c.0 {
            Some(names) => named_instances(names@, state@),
            None => seq![],
        };
        if let Some(names) = &c.0 {
            let m: usize = names.len();
            let mut j: usize = 0;
            assert(names@.take(0) =~= seq![]);
            while j < m
                invariant
                    m == names@.len(),
                    j <= m,
                    Seq::new(out@.len(), |k: int| (out@[k].0@, out@[k].1@)) == before + named_instances(names@.take(j as int), state@),
                decreases m - j,
            {
                let name = names[j].as_str();
                let ghost t = names@.take(j + 1);
                assert(t.drop_last() =~= names@.take(j as int));
                assert(t.last() == names@[j as int]);
                let ghost prev = Seq::new(out@.len(), |k: int| (out@[k].0@, out@[k].1@));
                if starts_with(name, "/paagan-") {
                    proof {
                        reveal_strlit("/paagan-");
                    }
                    let len: usize = name.unicode_len();
                    let rest = name.substring_char(8, len);
                    assert(rest@ =~= name@.skip(8));
                    if !ends_with(rest, "-init") {
                        out.push((owned(rest), state.clone()));
                        assert(Seq::new(out@.len(), |k: int| (out@[k].0@, out@[k].1@)) =~= prev.push((name@.skip(8), state@)));
                    }
                }
                j = j + 1;
            }
            assert(names@.take(m as int) =~= names@);
        }
        proof {
            let t = containers@.take(i + 1);
            assert(t.drop_last() =~= containers@.take(i as int));
            assert(t.last() == containers@[i as int]);
            assert(Seq::new(out@.len(), |k: int| (out@[k].0@, out@[k].1@)) =~= before + added);
        }
        i = i + 1;
    }
    assert(containers@.take(n as int) =~= containers@);
    out
}

/// The piece of `s` after the first `:` and before the next one, if `s`
/// holds a `:`.
pub open spec fn second_colon_field(s: Seq<char>) -> Option<Seq<char>> {
    if exists|i: int| 0 <= i < s.len() && s[i] == ':' {
        let i = choose|i: int| 0 <= i < s.len() && s[i] == ':' && forall|j: int| 0 <= j < i ==> s[j] != ':';
        let rest = s.skip(i + 1);
        Some(first_colon_field(rest))
    } else {
        None
    }
}

/// The piece of `s` before its first `:` (all of `s` when it has none).
pub open spec fn first_colon_field(s: Seq<char>) -> Seq<char> {
    if exists|i: int| 0 <= i < s.len() && s[i] == ':' {
        s.take(choose|i: int| 0 <= i < s.len() && s[i] == ':' && forall|j: int| 0 <= j < i ==> s[j] != ':')
    } else {
        s
    }
}

/// The passwd and group files that let the host user `uid:gid` be
/// `postgres` inside a container (the missing group falls back to `0`).
pub open spec fn passwd_files_text(user: Seq<char>) -> (Seq<char>, Seq<char>) {
    let uid = first_colon_field(user);
    let gid = match second_colon_field(user) {
        Some(g) => g,
        None => "0"@,
    };
    (
        "root:x:0:0:root:/root:/bin/bash\npostgres:x:"@ + uid + seq![':'] + gid
            + ":PostgreSQL:/var/lib/postgresql:/bin/bash\nnobody:x:65534:65534:nobody:/nonexistent:/usr/sbin/nologin\n"@,
        "root:x:0:\npostgres:x:"@ + gid + ":\nnobody:x:65534:\n"@,
    )
}

fn colon_position(s: &str, from: usize) -> (r: usize)
    requires
        from <= s@.len(),
    ensures
        from <= r <= s@.len(),
        r < s@.len() ==> s@[r as int] == ':',
        forall|j: int| from <= j < r ==> s@[j] != ':',
{
    let n: usize = s.unicode_len();
    let mut i: usize = from;
    while i < n && s.get_char(i) != ':'
        invariant
            n == s@.len(),
            from <= i <= n,
            forall|j: int| from <= j < i ==> s@[j] != ':',
        decreases n - i,
    {
        i = i + 1;
    }
    i
}

proof fn lemma_first_colon_field(s: Seq<char>, i: int)
    requires
        0 <= i <= s.len(),
        i < s.len() ==> s[i] == ':',
        forall|j: int| 0 <= j < i ==> s[j] != ':',
    ensures
        first_colon_field(s) == s.take(i),
        i < s.len() ==> second_colon_field(s) == Some(first_colon_field(s.skip(i + 1))),
        i == s.len() ==> second_colon_field(s) is None,
{
    if i < s.len() {
        let w = choose|k: int| 0 <= k < s.len() && s[k] == ':' && forall|j: int| 0 <= j < k ==> s[j] != ':';
        assert(0 <= i < s.len() && s[i] == ':' && forall|j: int| 0 <= j < i ==> s[j] != ':');
        assert(w == i) by {
            if w < i {
                assert(s[w] != ':');
            }
            if w > i {
                assert(s[i] != ':');
            }
        }
    } else {
        assert(s.take(i) =~= s);
    }
}

/// The contents of the passwd and group files for the host user `uid:gid`.
pub fn passwd_files(user: &str) -> (r: (String, String))
    ensures
        r.0@ == passwd_files_text(user@).0,
        r.1@ == passwd_files_text(user@).1,
{
    let n: usize = user.unicode_len();
    let a = colon_position(user, 0);
    proof {
        lemma_first_colon_field(user@, a as int);
    }
    let uid = user.substring_char(0, a);
    let gid: String = if a < n {
        let b = colon_position(user, a + 1);
        let rest = user.substring_char(a + 1, n);
        proof {
            let r = user@.skip(a + 1);
            assert(rest@ =~= r);
            lemma_first_colon_field(r, b - a - 1);
            assert(r.take(b - a - 1) =~= user@.subrange(a + 1, b as int));
        }
        owned(user.substring_char(a + 1, b))
    } else {
        owned("0")
    };
    assert(gid@ == match second_colon_field(user@) {
        Some(g) => g,
        None => "0"@,
    });
    let mut passwd = owned("root:x:0:0:root:/root:/bin/bash\npostgres:x:");
    passwd.push_str(uid);
    passwd.push(':');
    passwd.push_str(gid.as_str());
    passwd.push_str(":PostgreSQL:/var/lib/postgresql:/bin/bash\nnobody:x:65534:65534:nobody:/nonexistent:/usr/sbin/nologin\n");
    let mut group = owned("root:x:0:\npostgres:x:");
    group.push_str(gid.as_str());
    group.push_str(":\nnobody:x:65534:\n");
    (passwd, group)
}

/// A container recovering from another instance's archive always mounts it
/// at `/restore`, whatever its init mode and whether the passwd and group
/// files are mounted; the binds are data, archive and backups, then one for
/// the archive to recover from, then two for the passwd and group files.
pub proof fn law_restore_archive_mounted(
    data_dir: Seq<char>,
    mount_point: Seq<char>,
    archive_dir: Seq<char>,
    backup_dir: Seq<char>,
    restore_dir: Option<Seq<char>>,
    passwd_files: Option<(Seq<char>, Seq<char>)>,
)
    ensures
        ({
            let binds = instance_binds_text(data_dir, mount_point, archive_dir, backup_dir, restore_dir, passwd_files);
            &&& binds.len() == 3 + (if restore_dir is Some { 1int } else { 0int }) + (if passwd_files is Some {
                2int
            } else {
                0int
            })
            &&& binds[0] == data_dir + seq![':'] + mount_point
            &&& binds[1] == archive_dir + ":/archive"@
            &&& binds[2] == backup_dir + ":/backups"@
            &&& (restore_dir matches Some(r) ==> binds[3] == r + ":/restore"@)
            &&& (restore_dir matches Some(r) ==> binds.contains(r + ":/restore"@))
        }),
{
    let binds = instance_binds_text(data_dir, mount_point, archive_dir, backup_dir, restore_dir, passwd_files);
    if let Some(r) = restore_dir {
        assert(binds[3] == r + ":/restore"@);
        assert(binds.contains(r + ":/restore"@));
    }
}

} // verus!
