use arcanum::config::{
    apply_cli_overrides, arcanum_dir_in, candidate_config_paths, default_bind, default_mgmt_port,
    default_port, find_config, join_path, ArcanumConfig, CliArgs, DataConfig, HttpServerConfig,
    MgmtConfig,
};
use arcanum::store::{detect_tar, package_name_from_fields, package_version_from_fields};

fn cli() -> CliArgs {
    CliArgs {
        command: None,
        config: None,
        data_dir: None,
        port: None,
        bind: None,
        mgmt_port: None,
        packages_dir: None,
        auto_load_packages: false,
    }
}

fn config_at(dir: &str) -> ArcanumConfig {
    ArcanumConfig {
        http_server: HttpServerConfig { port: 6202, bind: "127.0.0.1".to_string() },
        mgmt: MgmtConfig { port: 6203 },
        data: DataConfig { dir: dir.to_string(), packages_dir: None, auto_load_packages: false },
    }
}

#[test]
fn gzip_is_recognised() {
    assert_eq!(detect_tar(&vec![0x1f, 0x8b]), Some(".tar.gz"));
    assert_eq!(detect_tar(&vec![0x1f, 0x8b, 0, 0, 0]), Some(".tar.gz"));
}

#[test]
fn ustar_is_recognised() {
    let mut data = vec![0u8; 300];
    data[257..262].copy_from_slice(b"ustar");
    assert_eq!(detect_tar(&data), Some(".tar"));
    // too short to hold a tar header
    let short = data[..299].to_vec();
    assert_eq!(detect_tar(&short), None);
}

#[test]
fn other_data_is_not_a_package() {
    assert_eq!(detect_tar(&vec![]), None);
    assert_eq!(detect_tar(&vec![0x1f]), None);
    assert_eq!(detect_tar(&vec![0u8; 400]), None);
}

#[test]
fn package_names_get_a_caret() {
    assert_eq!(package_name_from_fields(Some("test/echo".to_string()), None), Some("^test/echo".to_string()));
    assert_eq!(package_name_from_fields(Some("^test/echo".to_string()), None), Some("^test/echo".to_string()));
    assert_eq!(package_name_from_fields(None, Some("arc/shop".to_string())), Some("^arc/shop".to_string()));
    assert_eq!(
        package_name_from_fields(Some("top".to_string()), Some("nested".to_string())),
        Some("^top".to_string())
    );
    assert_eq!(package_name_from_fields(None, None), None);
    assert_eq!(package_name_from_fields(Some(String::new()), None), Some("^".to_string()));
}

#[test]
fn paths_join_like_unix_paths() {
    assert_eq!(join_path("/a", "b"), "/a/b");
    assert_eq!(join_path("/a/", "b"), "/a/b");
    assert_eq!(join_path("", "b"), "b");
    assert_eq!(join_path("/a", "/etc"), "/etc");
    assert_eq!(arcanum_dir_in(Some("/home/u/.local/share".to_string())), "/home/u/.local/share/arcanum");
    assert_eq!(arcanum_dir_in(None), "./arcanum");
}

#[test]
fn defaults() {
    assert_eq!(default_port(), 6202);
    assert_eq!(default_mgmt_port(), 6203);
    assert_eq!(default_bind(), "127.0.0.1");
    let c = ArcanumConfig::default();
    assert_eq!(c.http_server.port, 6202);
    assert_eq!(c.http_server.bind, "127.0.0.1");
    assert_eq!(c.mgmt.port, 6203);
    assert!(c.data.packages_dir.is_none());
    assert!(!c.data.auto_load_packages);
    assert!(c.data.dir.ends_with("arcanum"));
}

#[test]
fn derived_paths() {
    let c = config_at("/srv/arc");
    assert_eq!(c.packages_dir(), "/srv/arc/packages");
    assert_eq!(c.state_dir(), "/srv/arc/state");
    assert_eq!(c.scheduler_db_path(), "/srv/arc/scheduler.db");
    assert_eq!(c.store_dir(), "/srv/arc/store");
    let mut c = config_at("/srv/arc");
    c.data.packages_dir = Some("/pkgs".to_string());
    assert_eq!(c.packages_dir(), "/pkgs");
}

#[test]
fn config_file_choice() {
    let candidates = candidate_config_paths("/etc/arcanum");
    assert_eq!(
        candidates,
        vec![
            "/etc/arcanum/config.toml".to_string(),
            "/etc/arcanum/arcanum.toml".to_string(),
            "arcanum.toml".to_string()
        ]
    );
    assert_eq!(find_config(&cli(), &candidates, &vec![false, false, false]), "/etc/arcanum/config.toml");
    assert_eq!(find_config(&cli(), &candidates, &vec![false, true, true]), "/etc/arcanum/arcanum.toml");
    assert_eq!(find_config(&cli(), &candidates, &vec![false, false, true]), "arcanum.toml");
    let mut given = cli();
    given.config = Some("/tmp/my.toml".to_string());
    assert_eq!(find_config(&given, &candidates, &vec![true, true, true]), "/tmp/my.toml");
}

#[test]
fn command_line_overrides() {
    let c = apply_cli_overrides(config_at("/srv/arc"), &cli());
    assert_eq!(c.data.dir, "/srv/arc");
    assert_eq!(c.http_server.port, 6202);
    let mut o = cli();
    o.data_dir = Some("/other".to_string());
    o.port = Some(8080);
    o.bind = Some("0.0.0.0".to_string());
    o.mgmt_port = Some(9090);
    o.packages_dir = Some("/p".to_string());
    o.auto_load_packages = true;
    let c = apply_cli_overrides(config_at("/srv/arc"), &o);
    assert_eq!(c.data.dir, "/other");
    assert_eq!(c.http_server.port, 8080);
    assert_eq!(c.http_server.bind, "0.0.0.0");
    assert_eq!(c.mgmt.port, 9090);
    assert_eq!(c.data.packages_dir, Some("/p".to_string()));
    assert!(c.data.auto_load_packages);
    // the flag can only switch auto-loading on
    let mut on = config_at("/srv/arc");
    on.data.auto_load_packages = true;
    let c = apply_cli_overrides(on, &cli());
    assert!(c.data.auto_load_packages);
}

#[test]
fn manifest_version_prefers_the_top_level_field() {
    assert_eq!(package_version_from_fields(Some("1.2".to_string()), Some("0.9".to_string())), Some("1.2".to_string()));
    assert_eq!(package_version_from_fields(None, Some("0.9".to_string())), Some("0.9".to_string()));
    assert_eq!(package_version_from_fields(None, None), None);
}
