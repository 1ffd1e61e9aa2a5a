use paagan::config::{InitMode, InstanceMetadata};
use std::path::Path;
use paagan::docker::{
    basebackup_args, cnpg_postgres_cmd, container_env, container_name, host_port_text,
    init_container_binds, init_container_env, init_container_name, instance_binds,
    instances_from_containers, mount_info, passwd_files, psql_args, query_args, standard_mount_info,
    standard_postgres_cmd, wal_switch_args, ContainerSpec,
};
use paagan::docker::{
    bind_host_ip, cnpg_entrypoint, init_entrypoint, init_script, instance_container_spec, instance_paths,
    passwd_file_paths, postgres_port_key,
};
use paagan::wal::segment_size_from_setting;

fn strs(v: &[String]) -> Vec<&str> {
    v.iter().map(|s| s.as_str()).collect()
}

#[test]
fn container_names() {
    assert_eq!(container_name("db"), "paagan-db");
    assert_eq!(init_container_name("db"), "paagan-db-init");
}

#[test]
fn mount_points_by_version() {
    assert_eq!(standard_mount_info("18"), ("/var/lib/postgresql", Some("18/docker".to_string())));
    assert_eq!(standard_mount_info("18-alpine"), ("/var/lib/postgresql", Some("18/docker".to_string())));
    assert_eq!(standard_mount_info("19.1"), ("/var/lib/postgresql", Some("19/docker".to_string())));
    assert_eq!(standard_mount_info("latest"), ("/var/lib/postgresql", Some("18/docker".to_string())));
    assert_eq!(standard_mount_info("16"), ("/var/lib/postgresql/data", None));
    assert_eq!(standard_mount_info("9.6"), ("/var/lib/postgresql/data", None));
    assert_eq!(standard_mount_info("alpine"), ("/var/lib/postgresql/data", None));
    assert_eq!(standard_mount_info(""), ("/var/lib/postgresql/data", None));
    // a major that does not fit in u32 reads as 0
    assert_eq!(standard_mount_info("99999999999"), ("/var/lib/postgresql/data", None));
    assert_eq!(mount_info(InitMode::Cnpg, "18"), ("/var/lib/postgresql/data", Some("pgdata".to_string())));
    assert_eq!(mount_info(InitMode::Standard, "17"), ("/var/lib/postgresql/data", None));
}

#[test]
fn postgres_commands() {
    assert_eq!(
        strs(&standard_postgres_cmd(None)),
        ["postgres", "-c", "wal_level=replica", "-c", "archive_mode=on", "-c", "archive_command=cp %p /archive/%f"]
    );
    assert_eq!(
        strs(&standard_postgres_cmd(Some("pg_stat_statements,vector"))),
        [
            "postgres", "-c", "wal_level=replica", "-c", "archive_mode=on", "-c",
            "archive_command=cp %p /archive/%f", "-c", "shared_preload_libraries=pg_stat_statements,vector"
        ]
    );
    assert_eq!(
        strs(&cnpg_postgres_cmd(None)),
        [
            "-D", "/var/lib/postgresql/data/pgdata", "-c", "listen_addresses=*", "-c",
            "unix_socket_directories=/tmp", "-c", "wal_level=replica", "-c", "archive_mode=on", "-c",
            "archive_command=cp %p /archive/%f"
        ]
    );
    assert_eq!(cnpg_postgres_cmd(Some("x")).last().unwrap(), "shared_preload_libraries=x");
}

#[test]
fn environments() {
    assert_eq!(strs(&container_env(InitMode::Standard)), ["POSTGRES_PASSWORD=password", "POSTGRES_HOST_AUTH_METHOD=trust"]);
    assert_eq!(strs(&container_env(InitMode::Cnpg)), ["PGDATA=/var/lib/postgresql/data/pgdata"]);
    assert_eq!(strs(&init_container_env()), ["PGDATA=/var/lib/postgresql/data/pgdata", "POSTGRES_PASSWORD=postgres"]);
}

#[test]
fn binds() {
    let spec = ContainerSpec {
        name: "db",
        image: "postgres:18",
        version: "18",
        init_mode: InitMode::Standard,
        port: 5433,
        data_dir: "/i/data",
        archive_dir: "/i/archive",
        backup_dir: "/i/backups",
        restore_dir: Some("/src/archive"),
        shared_preload_libraries: None,
    };
    assert_eq!(
        strs(&instance_binds(&spec, None)),
        ["/i/data:/var/lib/postgresql", "/i/archive:/archive", "/i/backups:/backups", "/src/archive:/restore"]
    );
    let cnpg = ContainerSpec { init_mode: InitMode::Cnpg, restore_dir: None, ..spec };
    assert_eq!(
        strs(&instance_binds(&cnpg, Some(("/i/.paagan-passwd", "/i/.paagan-group")))),
        [
            "/i/data:/var/lib/postgresql/data", "/i/archive:/archive", "/i/backups:/backups",
            "/i/.paagan-passwd:/etc/passwd:ro", "/i/.paagan-group:/etc/group:ro"
        ]
    );
    assert_eq!(
        strs(&init_container_binds("/i/data", "/i/p", "/i/g")),
        ["/i/data:/var/lib/postgresql/data", "/i/p:/etc/passwd:ro", "/i/g:/etc/group:ro"]
    );
    assert_eq!(host_port_text(5433), "5433");
}

#[test]
fn client_commands() {
    assert_eq!(
        strs(&basebackup_args("db", "/backups/x", InitMode::Standard)),
        [
            "exec", "paagan-db", "pg_basebackup", "-U", "postgres", "-D", "/backups/x", "--checkpoint=fast",
            "-Ft", "-z", "-X", "stream", "-P"
        ]
    );
    assert_eq!(
        strs(&wal_switch_args("db", InitMode::Cnpg)),
        ["exec", "paagan-db", "psql", "-h", "/tmp", "-U", "postgres", "-c", "SELECT pg_switch_wal();"]
    );
    assert_eq!(strs(&psql_args("db", InitMode::Standard)), ["exec", "-it", "paagan-db", "psql", "-U", "postgres"]);
    assert_eq!(
        strs(&psql_args("db", InitMode::Cnpg)),
        ["exec", "-it", "paagan-db", "psql", "-h", "/tmp", "-U", "postgres"]
    );
}

#[test]
fn query_commands() {
    assert_eq!(
        strs(&query_args("db", InitMode::Standard, "SELECT 1")),
        ["exec", "paagan-db", "psql", "-U", "postgres", "-tA", "-c", "SELECT 1"]
    );
    assert_eq!(
        strs(&query_args("db", InitMode::Cnpg, "SHOW x")),
        ["exec", "paagan-db", "psql", "-h", "/tmp", "-U", "postgres", "-tA", "-c", "SHOW x"]
    );
}

#[test]
fn listed_containers() {
    let containers = vec![
        (Some(vec!["/paagan-a".to_string()]), Some("running".to_string())),
        (Some(vec!["/paagan-a-init".to_string()]), Some("exited".to_string())),
        (Some(vec!["/other".to_string(), "/paagan-b".to_string()]), None),
        (None, Some("running".to_string())),
        (Some(vec!["paagan-c".to_string()]), Some("running".to_string())),
    ];
    assert_eq!(
        instances_from_containers(&containers),
        [("a".to_string(), "running".to_string()), ("b".to_string(), "".to_string())]
    );
}

#[test]
fn passwd_file_contents() {
    let (p, g) = passwd_files("501:20");
    assert_eq!(
        p,
        "root:x:0:0:root:/root:/bin/bash\npostgres:x:501:20:PostgreSQL:/var/lib/postgresql:/bin/bash\nnobody:x:65534:65534:nobody:/nonexistent:/usr/sbin/nologin\n"
    );
    assert_eq!(g, "root:x:0:\npostgres:x:20:\nnobody:x:65534:\n");
    let (p, g) = passwd_files("501");
    assert!(p.contains("postgres:x:501:0:"));
    assert_eq!(g, "root:x:0:\npostgres:x:0:\nnobody:x:65534:\n");
    let (p, _) = passwd_files("1:2:3");
    assert!(p.contains("postgres:x:1:2:"));
}

#[test]
fn engine_constants() {
    assert_eq!(postgres_port_key(), "5432/tcp");
    assert_eq!(bind_host_ip(), "0.0.0.0");
    assert_eq!(strs(&cnpg_entrypoint()), ["postgres"]);
    assert_eq!(strs(&init_entrypoint()), ["bash", "-eu", "-c"]);
    let expected = r#"
mkdir -p "$PGDATA"
if [ ! -s "$PGDATA/PG_VERSION" ]; then
    PWFILE=$(mktemp)
    printf '%s' "$POSTGRES_PASSWORD" > "$PWFILE"
    initdb \
        -D "$PGDATA" -U postgres \
        --auth-host=scram-sha-256 --auth-local=trust \
        --pwfile="$PWFILE"
    rm -f "$PWFILE"
    {
        echo "host all all 0.0.0.0/0 scram-sha-256"
        echo "host all all ::/0      scram-sha-256"
    } >> "$PGDATA/pg_hba.conf"
fi

pg_ctl -D "$PGDATA" \
    -o "-c listen_addresses='' -c unix_socket_directories=/tmp" \
    -w start
psql -h /tmp -U postgres -v ON_ERROR_STOP=1 \
    -c "ALTER USER postgres WITH PASSWORD '$POSTGRES_PASSWORD';"
pg_ctl -D "$PGDATA" -m fast -w stop
"#;
    assert_eq!(init_script(), expected);
}

#[test]
fn instance_directories_and_specs() {
    let (d, a, b) = instance_paths("/h/.paagan/instances/db");
    assert_eq!((d.as_str(), a.as_str(), b.as_str()), ("/h/.paagan/instances/db/data", "/h/.paagan/instances/db/archive", "/h/.paagan/instances/db/backups"));
    let m = InstanceMetadata {
        name: "db".into(),
        version: "17".into(),
        port: 5433,
        container_id: None,
        data_subdir: None,
        image: None,
        init_mode: InitMode::Cnpg,
        shared_preload_libraries: Some("vector".into()),
    };
    let spec = instance_container_spec("fork", &m, "img", 6000, &d, &a, &b, Some("/src/archive"));
    assert_eq!((spec.name, spec.image, spec.version, spec.port), ("fork", "img", "17", 6000));
    assert_eq!(spec.init_mode, InitMode::Cnpg);
    assert_eq!(spec.restore_dir, Some("/src/archive"));
    assert_eq!(spec.shared_preload_libraries, Some("vector"));
    assert_eq!(spec.data_dir, d);
}

#[test]
fn passwd_files_sit_next_to_the_data_directory() {
    for data_dir in ["/i/data", "/i/data/", "data", "/data", "a//b", "/", ""] {
        let expected = Path::new(data_dir).parent().map(|p| {
            (
                p.join(".paagan-passwd").to_string_lossy().into_owned(),
                p.join(".paagan-group").to_string_lossy().into_owned(),
            )
        });
        assert_eq!(passwd_file_paths(data_dir), expected, "{:?}", data_dir);
    }
}

#[test]
fn reported_segment_sizes() {
    assert_eq!(segment_size_from_setting("16777216"), Some(16 * 1024 * 1024));
    assert_eq!(segment_size_from_setting("4294967296"), Some(0x1_0000_0000));
    assert_eq!(segment_size_from_setting("4294967297"), None);
    assert_eq!(segment_size_from_setting("0"), None);
    assert_eq!(segment_size_from_setting("-1"), None);
    assert_eq!(segment_size_from_setting("16MB"), None);
}
