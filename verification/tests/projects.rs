use package_run::projects::{
    add_project_entry, build_project, corepack_pm, git_branch, known_pms, launch_config_for,
    lockfile_pm, order_by_ids, pinned_first, project_id, remove_project, set_launch_config,
    set_package_manager, set_script_autostart, set_script_order, toggle_pin, LaunchConfig,
    Lockfiles, ProjectDir, StoreEntry,
};
use package_run::json::JsonValue;
use package_run::projects::{installed_from_probes, project_from_doc};

fn no_locks() -> Lockfiles {
    Lockfiles { pnpm_lock_yaml: false, yarn_lock: false, bun_lockb: false, bun_lock: false, package_lock_json: false }
}

fn dir(json: &str, locks: Lockfiles) -> ProjectDir {
    ProjectDir {
        file_name: Some("folder".to_string()),
        package_json_exists: true,
        package_json: Some(json.to_string()),
        lockfiles: locks,
        entries: vec![
            "package.json".to_string(),
            ".env.local".to_string(),
            ".env".to_string(),
            "src".to_string(),
            ".envrc".to_string(),
        ],
        git_head: Some("ref: refs/heads/main\n".to_string()),
        git_dirty: true,
    }
}

fn installed() -> Vec<String> {
    vec!["npm".to_string(), "pnpm".to_string()]
}

#[test]
fn project_ids_are_stable_hex() {
    let a = project_id("/tmp/x");
    assert_eq!(a, project_id("/tmp/x"));
    assert_ne!(a, project_id("/tmp/y"));
    assert!(!a.is_empty() && a.chars().all(|c| c.is_ascii_hexdigit() && !c.is_ascii_uppercase()));
    assert!(!a.starts_with('0') || a == "0");
}

#[test]
fn launch_config_emptiness() {
    let mut c = LaunchConfig { port: None, env: vec![], env_file: None, extra_args: Some("   ".to_string()) };
    assert!(c.is_empty());
    c.extra_args = None;
    assert!(c.is_empty());
    c.extra_args = Some(" -x ".to_string());
    assert!(!c.is_empty());
    c.extra_args = None;
    c.port = Some(1);
    assert!(!c.is_empty());
}

#[test]
fn lockfile_detection() {
    let mut l = no_locks();
    assert_eq!(lockfile_pm(&l), None);
    l.package_lock_json = true;
    assert_eq!(lockfile_pm(&l).as_deref(), Some("npm"));
    l.bun_lock = true;
    assert_eq!(lockfile_pm(&l).as_deref(), Some("bun"));
    l.yarn_lock = true;
    assert_eq!(lockfile_pm(&l).as_deref(), Some("yarn"));
    l.pnpm_lock_yaml = true;
    assert_eq!(lockfile_pm(&l).as_deref(), Some("pnpm"));
}

#[test]
fn corepack_field_names_the_manager() {
    assert_eq!(corepack_pm(Some("pnpm@9.1.0")).as_deref(), Some("pnpm"));
    assert_eq!(corepack_pm(Some(" yarn @4")).as_deref(), Some("yarn"));
    assert_eq!(corepack_pm(Some("npm")).as_deref(), Some("npm"));
    assert_eq!(corepack_pm(Some("deno@1")), None);
    assert_eq!(corepack_pm(None), None);
    assert_eq!(known_pms(), vec!["pnpm", "yarn", "bun", "npm"]);
}

#[test]
fn git_branch_from_head() {
    assert_eq!(git_branch("ref: refs/heads/feature/x\n"), "feature/x");
    assert_eq!(git_branch("0123456789abcdef\n"), "0123456");
    assert_eq!(git_branch("abc"), "abc");
}

#[test]
fn project_reads_package_json() {
    let e = StoreEntry::new("/work/proj-a");
    let p = build_project(
        &e,
        &dir(r#"{ "name": "proj-a", "version": "1.0.0", "scripts": { "dev": "sleep 5", "build": "echo built", "n": 1 } }"#, no_locks()),
        &installed(),
    );
    assert_eq!(p.name, "proj-a");
    assert_eq!(p.package_manager, "pnpm");
    assert!(p.pm_installed);
    assert!(!p.pm_overridden);
    assert_eq!(p.scripts.len(), 2);
    assert!(p.scripts.iter().any(|(k, v)| k == "build" && v == "echo built"));
    assert_eq!(p.id, project_id("/work/proj-a"));
    assert_eq!(p.path, "/work/proj-a");
    assert_eq!(p.env_files, vec![".env", ".env.local", ".envrc"]);
    assert_eq!(p.git_branch.as_deref(), Some("main"));
    assert!(p.git_dirty);
}

#[test]
fn project_name_falls_back_to_folder() {
    let e = StoreEntry::new("/work/proj-b");
    let p = build_project(&e, &dir("not json", no_locks()), &installed());
    assert_eq!(p.name, "folder");
    assert!(p.scripts.is_empty());
    let p = build_project(&e, &dir(r#"{"name": ""}"#, no_locks()), &installed());
    assert_eq!(p.name, "folder");
}

#[test]
fn corepack_field_beats_lockfile() {
    let mut l = no_locks();
    l.package_lock_json = true;
    let json = r#"{ "name": "c", "packageManager": "yarn@4.1.0", "scripts": {"dev": "x"} }"#;
    let mut entries = vec![StoreEntry::new("/work/c")];
    let p = build_project(&entries[0], &dir(json, l), &installed());
    assert_eq!(p.package_manager, "yarn");
    assert!(!p.pm_installed);
    let id = project_id("/work/c");
    set_package_manager(&mut entries, &id, &Some("npm".to_string())).unwrap();
    let p = build_project(&entries[0], &dir(json, l), &installed());
    assert_eq!(p.package_manager, "npm");
    assert!(p.pm_overridden);
    let err = set_package_manager(&mut entries, &id, &Some("deno".to_string())).unwrap_err();
    assert_eq!(err, "unknown package manager: deno");
    assert_eq!(entries[0].package_manager.as_deref(), Some("npm"));
    set_package_manager(&mut entries, &id, &None).unwrap();
    assert_eq!(entries[0].package_manager, None);
}

#[test]
fn add_list_remove_project() {
    let mut entries: Vec<StoreEntry> = Vec::new();
    let e = add_project_entry(&mut entries, "/a", true).unwrap();
    assert_eq!(e.path, "/a");
    add_project_entry(&mut entries, "/a", true).unwrap();
    assert_eq!(entries.len(), 1);
    assert_eq!(add_project_entry(&mut entries, "/bogus", false).unwrap_err(), "ERR_NO_PACKAGE_JSON");
    assert_eq!(entries.len(), 1);
    let left = remove_project(&entries, &project_id("/a"));
    assert!(left.is_empty());
}

#[test]
fn pinned_projects_sort_first() {
    let mut entries = vec![StoreEntry::new("/aaa-first"), StoreEntry::new("/zzz-last")];
    toggle_pin(&mut entries, &project_id("/zzz-last"));
    let ps: Vec<_> = entries.iter().map(|e| build_project(e, &dir("{}", no_locks()), &installed())).collect();
    let list = pinned_first(ps);
    assert_eq!(list[0].path, "/zzz-last");
    assert!(list[0].pinned);
    assert_eq!(list[1].path, "/aaa-first");
    toggle_pin(&mut entries, &project_id("/zzz-last"));
    assert!(!entries[1].pinned);
}

#[test]
fn manual_project_order_is_applied() {
    let entries = vec![StoreEntry::new("/a"), StoreEntry::new("/b"), StoreEntry::new("/c"), StoreEntry::new("/d")];
    let ids = vec![project_id("/c"), "unknown".to_string(), project_id("/a")];
    let ordered = order_by_ids(&entries, &ids);
    let paths: Vec<&str> = ordered.iter().map(|e| e.path.as_str()).collect();
    assert_eq!(paths, vec!["/c", "/a", "/b", "/d"]);
}

#[test]
fn script_order_and_autostart_are_stored() {
    let mut entries = vec![StoreEntry::new("/a"), StoreEntry::new("/b")];
    let id = project_id("/a");
    set_script_order(&mut entries, &id, &vec!["build".to_string(), "dev".to_string()]);
    assert_eq!(entries[0].script_order, vec!["build", "dev"]);
    assert!(entries[1].script_order.is_empty());
    set_script_autostart(&mut entries, &id, "dev", true);
    set_script_autostart(&mut entries, &id, "dev", true);
    assert_eq!(entries[0].autostart_scripts, vec!["dev"]);
    set_script_autostart(&mut entries, &id, "dev", false);
    assert!(entries[0].autostart_scripts.is_empty());
    let p = build_project(&entries[0], &dir(r#"{"scripts": {"dev": "v"}}"#, no_locks()), &installed());
    assert_eq!(p.script_order, vec!["dev"]);
}

#[test]
fn launch_config_reads_back() {
    let mut entries = vec![StoreEntry::new("/a")];
    let id = project_id("/a");
    let c = LaunchConfig { port: Some(3000), env: vec![], env_file: None, extra_args: None };
    set_launch_config(&mut entries, &id, "dev", &Some(c));
    let got = launch_config_for(&entries, &id, "dev").unwrap();
    assert_eq!(got.port, Some(3000));
    assert!(launch_config_for(&entries, &id, "build").is_none());
    let empty = LaunchConfig { port: None, env: vec![], env_file: None, extra_args: Some(" ".to_string()) };
    set_launch_config(&mut entries, &id, "dev", &Some(empty));
    assert!(launch_config_for(&entries, &id, "dev").is_none());
    set_launch_config(&mut entries, &id, "dev", &Some(LaunchConfig { port: Some(1), env: vec![], env_file: None, extra_args: None }));
    set_launch_config(&mut entries, &id, "dev", &None);
    assert!(launch_config_for(&entries, &id, "dev").is_none());
    assert!(launch_config_for(&entries, "nope", "dev").is_none());
}

#[test]
fn installed_managers_follow_probes() {
    assert_eq!(installed_from_probes(&vec![false, true, false, true]), vec!["yarn", "npm"]);
    assert_eq!(installed_from_probes(&vec![true, true, true, true]), vec!["pnpm", "yarn", "bun", "npm"]);
    assert!(installed_from_probes(&vec![false, false, false, false]).is_empty());
}

#[test]
fn scripts_are_a_map_in_name_order() {
    let e = StoreEntry::new("/tmp/proj-map");
    let p = build_project(
        &e,
        &dir(r#"{ "scripts": { "zeta": "z", "alpha": "a", "mid": "m" } }"#, no_locks()),
        &installed(),
    );
    let names: Vec<&str> = p.scripts.iter().map(|(k, _)| k.as_str()).collect();
    assert_eq!(names, vec!["alpha", "mid", "zeta"]);
}

#[test]
fn project_from_parsed_document() {
    let e = StoreEntry::new("/tmp/proj-doc");
    let doc = JsonValue::Object(vec![
        ("name".to_string(), JsonValue::Str("docname".to_string())),
        (
            "scripts".to_string(),
            JsonValue::Object(vec![
                ("b".to_string(), JsonValue::Str("one".to_string())),
                ("a".to_string(), JsonValue::Str("x".to_string())),
                ("b".to_string(), JsonValue::Str("two".to_string())),
                ("n".to_string(), JsonValue::Number("1".to_string())),
            ]),
        ),
        ("packageManager".to_string(), JsonValue::Str("npm@10.0.0".to_string())),
    ]);
    let p = project_from_doc(&e, &dir("ignored", no_locks()), Some(doc), &installed());
    assert_eq!(p.name, "docname");
    assert_eq!(p.package_manager, "npm");
    assert!(p.pm_installed);
    assert_eq!(p.scripts, vec![("a".to_string(), "x".to_string()), ("b".to_string(), "two".to_string())]);
    let q = project_from_doc(&e, &dir("ignored", no_locks()), None, &installed());
    assert_eq!(q.name, "folder");
    assert_eq!(q.package_manager, "pnpm");
    assert!(q.scripts.is_empty());
}

#[test]
fn installed_pms_include_npm() {
    let pms = installed_from_probes(&vec![false, false, false, true]);
    assert!(pms.iter().any(|p| p == "npm"), "npm ships with node and must be detected");
}
