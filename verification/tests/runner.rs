use package_run::projects::LaunchConfig;
use package_run::runner::{
    build_path_env, check_log_file, check_start, check_stop, command_line, exit_log_line,
    extract_url, log_file_name, parse_env_text, plan_launch, read_output_line, run_header_line,
    stopped_log_line, strip_ansi, task_key, unix_stamp, user_shell_path, now_str, Platform,
};
use package_run::runner::{next_kill_step, stamp_of, watch_step, ChildStatus, KillStep, WatchAction};

#[test]
fn strip_ansi_removes_colour_and_cursor_codes() {
    assert_eq!(strip_ansi("\u{1b}[32mready\u{1b}[0m in 300ms"), "ready in 300ms");
    assert_eq!(strip_ansi("a\u{1b}[2Kb"), "ab");
    assert_eq!(strip_ansi("plain"), "plain");
    assert_eq!(strip_ansi("x\u{1b}y"), "xy");
    assert_eq!(strip_ansi("x\u{1b}\u{1b}[1my"), "xy");
    assert_eq!(strip_ansi("cut\u{1b}[12"), "cut");
    assert_eq!(strip_ansi("\u{1b}"), "");
}

#[test]
fn strip_ansi_twice_is_strip_ansi_once() {
    let once = strip_ansi("\u{1b}[1m\u{1b}[31merr\u{1b}[0m");
    assert_eq!(strip_ansi(&once), once);
    assert!(!once.contains('\u{1b}'));
}

#[test]
fn url_is_extracted_from_output() {
    assert_eq!(
        extract_url("  ➜  Local:   http://localhost:5173/").as_deref(),
        Some("http://localhost:5173")
    );
    assert_eq!(
        extract_url("Local: http://localhost:3999/ && sleep 30").as_deref(),
        Some("http://localhost:3999")
    );
    assert_eq!(
        extract_url("ready on https://127.0.0.1:8443//").as_deref(),
        Some("https://127.0.0.1:8443")
    );
    assert_eq!(extract_url("url \"http://0.0.0.0:80\" up").as_deref(), Some("http://0.0.0.0:80"));
    assert_eq!(extract_url("docs at https://vitejs.dev/guide"), None);
    assert_eq!(extract_url("no url here"), None);
    assert_eq!(
        extract_url("http://example.com then https://localhost:1"),
        None
    );
}

#[test]
fn first_url_of_a_task_wins() {
    let first = read_output_line("\u{1b}[36mLocal: http://localhost:5173/\u{1b}[0m", &None);
    assert_eq!(first.clean, "Local: http://localhost:5173/");
    assert_eq!(first.new_url.as_deref(), Some("http://localhost:5173"));
    let later = read_output_line("Network: http://localhost:5174/", &first.new_url);
    assert_eq!(later.new_url, None);
}

#[test]
fn dotenv_lines_are_parsed() {
    let vars = parse_env_text(
        "# comment\n\nexport A=1\nB = \"two\" \r\nC='three'\nbad line\nD=x=y\nFOO=file-value\nFOO=again",
    );
    let pairs: Vec<(&str, &str)> = vars.iter().map(|(k, v)| (k.as_str(), v.as_str())).collect();
    assert_eq!(
        pairs,
        vec![("A", "1"), ("B", "two"), ("C", "three"), ("D", "x=y"), ("FOO", "file-value"), ("FOO", "again")]
    );
    assert!(parse_env_text("").is_empty());
}

#[test]
fn shell_path_is_the_last_line() {
    assert_eq!(user_shell_path(true, "welcome!\n/usr/bin:/bin"), "/usr/bin:/bin");
    assert_eq!(user_shell_path(true, "  /a:/b  "), "/a:/b");
    assert_eq!(user_shell_path(true, "no path"), "");
    assert_eq!(user_shell_path(false, "/usr/bin"), "");
    assert_eq!(user_shell_path(true, ""), "");
}

#[test]
fn path_env_joins_the_non_empty_parts() {
    assert_eq!(build_path_env("/s", "/p", "/h", Platform::Windows), "/s;/p");
    assert_eq!(build_path_env("", "", "/h", Platform::Other), "");
    assert_eq!(
        build_path_env("", "/p", "/home/u", Platform::Unix),
        "/p:/usr/local/bin:/opt/homebrew/bin:/home/u/.local/share/pnpm:/home/u/Library/pnpm:/home/u/.volta/bin"
    );
}

#[test]
fn log_file_names_are_safe() {
    assert_eq!(log_file_name("abc", "dev"), "abc-dev.log");
    assert_eq!(log_file_name("abc", "build:prod/../x"), "abc-build_prod____x.log");
    assert_eq!(log_file_name("abc", "tëst-1_2"), "abc-tëst-1_2.log");
}

#[test]
fn task_keys_join_project_and_script() {
    assert_eq!(task_key("p1", "dev"), "p1:dev");
}

#[test]
fn missing_pm_is_rejected_with_code() {
    let installed = vec!["npm".to_string(), "pnpm".to_string()];
    let err = check_start(&vec![], &installed, "p:dev", "notarealpm").unwrap_err();
    assert_eq!(err, "ERR_PM_MISSING|notarealpm");
}

#[test]
fn duplicate_start_is_rejected() {
    let installed = vec!["npm".to_string()];
    let running = vec!["p:dev".to_string()];
    assert_eq!(check_start(&running, &installed, "p:dev", "npm").unwrap_err(), "ERR_ALREADY_RUNNING");
    assert!(check_start(&running, &installed, "p:build", "npm").is_ok());
}

#[test]
fn stop_and_log_checks() {
    let running = vec!["p:dev".to_string()];
    assert!(check_stop(&running, "p:dev").is_ok());
    assert_eq!(check_stop(&running, "p:x").unwrap_err(), "ERR_NOT_RUNNING");
    assert_eq!(check_log_file(true, "/l/a.log").unwrap(), "/l/a.log");
    assert_eq!(check_log_file(false, "/l/a.log").unwrap_err(), "ERR_NO_LOG_FILE");
}

#[test]
fn log_lines() {
    assert_eq!(
        run_header_line("npm", "serve", "unix:5", "/p"),
        "\n===== npm run serve @ unix:5 (/p) ====="
    );
    assert_eq!(exit_log_line(Some(0)), "===== process exited with code Some(0) =====");
    assert_eq!(exit_log_line(Some(-2147483648)), "===== process exited with code Some(-2147483648) =====");
    assert_eq!(exit_log_line(None), "===== process exited with code None =====");
    assert_eq!(stopped_log_line("unix:9"), "===== stopped by user @ unix:9 =====");
    assert_eq!(unix_stamp(1700000000), "unix:1700000000");
    assert!(now_str().starts_with("unix:"));
}

fn cfg() -> LaunchConfig {
    LaunchConfig {
        port: Some(4567),
        env: vec![("FOO".to_string(), "bar".to_string())],
        env_file: Some(".env.test".to_string()),
        extra_args: Some("--flag  x".to_string()),
    }
}

fn effective(env: &[(String, String)], name: &str) -> Option<String> {
    env.iter().rev().find(|(k, _)| k == name).map(|(_, v)| v.clone())
}

#[test]
fn launch_config_injects_env_port_and_args() {
    let plan = plan_launch("npm", "show", &Some(cfg()), "FROM_FILE=yes\nFOO=file-value\n", "/bin");
    assert_eq!(plan.args, vec!["run", "show", "--", "--port", "4567", "--flag", "x"]);
    assert_eq!(effective(&plan.env, "FOO").as_deref(), Some("bar"));
    assert_eq!(effective(&plan.env, "PORT").as_deref(), Some("4567"));
    assert_eq!(effective(&plan.env, "FROM_FILE").as_deref(), Some("yes"));
    assert_eq!(effective(&plan.env, "PATH").as_deref(), Some("/bin"));
    assert_eq!(effective(&plan.env, "FORCE_COLOR").as_deref(), Some("0"));
}

#[test]
fn launch_without_config_runs_the_script_alone() {
    let plan = plan_launch("pnpm", "dev", &None, "IGNORED=1", "/bin");
    assert_eq!(plan.args, vec!["run", "dev"]);
    assert_eq!(plan.env.len(), 2);
    let mut c = cfg();
    c.env_file = None;
    c.port = None;
    let plan = plan_launch("pnpm", "dev", &Some(c), "IGNORED=1", "/bin");
    assert_eq!(plan.args, vec!["run", "dev", "--flag", "x"]);
    assert_eq!(effective(&plan.env, "IGNORED"), None);
}

#[test]
fn windows_command_line_joins_with_spaces() {
    let args = vec!["run".to_string(), "dev".to_string(), "--".to_string()];
    assert_eq!(command_line("npm", &args), "npm run dev --");
    assert_eq!(command_line("npm", &vec![]), "npm");
}

#[test]
fn strip_ansi_removes_osc_sequences() {
    assert_eq!(strip_ansi("a\u{1b}]0;title\u{7}b"), "ab");
    assert_eq!(strip_ansi("a\u{1b}]8;;http://x\u{1b}\\link\u{1b}]8;;\u{1b}\\b"), "alinkb");
    assert_eq!(strip_ansi("x\u{1b}]2;never ends"), "x");
    assert_eq!(strip_ansi("\u{1b}]0;t\u{1b}[31mred"), "red");
}

#[test]
fn kill_steps_term_wait_then_kill_only_survivors() {
    let mut last = None;
    let mut seen = Vec::new();
    loop {
        let step = next_kill_step(last, false);
        seen.push(step);
        if step == KillStep::Done {
            break;
        }
        last = Some(step);
    }
    assert_eq!(
        seen,
        vec![KillStep::SignalGroup(15), KillStep::Sleep(800), KillStep::SignalGroup(9), KillStep::Reap, KillStep::Done]
    );
    assert_eq!(next_kill_step(Some(KillStep::Sleep(800)), true), KillStep::Reap);
    assert_eq!(next_kill_step(Some(KillStep::Reap), true), KillStep::Done);
}

#[test]
fn exit_watcher_decisions() {
    assert_eq!(watch_step(ChildStatus::Running), WatchAction::Wait);
    assert_eq!(watch_step(ChildStatus::Untracked), WatchAction::Quit);
    assert_eq!(watch_step(ChildStatus::Unreadable), WatchAction::Lost);
    assert_eq!(
        watch_step(ChildStatus::Exited(Some(0))),
        WatchAction::Exited { log_line: "===== process exited with code Some(0) =====".to_string(), code: Some(0) }
    );
    assert_eq!(
        watch_step(ChildStatus::Exited(None)),
        WatchAction::Exited { log_line: "===== process exited with code None =====".to_string(), code: None }
    );
}

#[test]
fn first_url_wins_over_several_lines() {
    let lines = ["starting", "Local: http://localhost:3999/", "Network: http://localhost:4000/"];
    let mut url: Option<String> = None;
    for l in lines {
        let out = read_output_line(l, &url);
        if out.new_url.is_some() {
            url = out.new_url;
        }
    }
    assert_eq!(url.as_deref(), Some("http://localhost:3999"));
}

#[test]
fn clock_readings_become_stamps() {
    assert_eq!(stamp_of(Some(1700000000)), "unix:1700000000");
    assert_eq!(stamp_of(Some(0)), "unix:0");
    assert_eq!(stamp_of(None), "unix:0");
}
