use package_run::ports::{
    kill_error_message, listener_pid_from_netstat, name_from_tasklist, port_free_error,
    port_info_from_lsof, PortInfo,
};

#[test]
fn lsof_output_names_the_listener() {
    let info = port_info_from_lsof(5173, "p4242\ncnode\np99\ncother\n").unwrap();
    assert_eq!(info.port, 5173);
    assert_eq!(info.pid, 4242);
    assert_eq!(info.name, "node");
    assert!(port_info_from_lsof(5173, "").is_none());
    let info = port_info_from_lsof(1, "pbad\np7\nc\ncvite").unwrap();
    assert_eq!(info.pid, 7);
    assert_eq!(info.name, "vite");
}

#[test]
fn netstat_output_names_the_pid() {
    let out = "  Proto  Local Address  Foreign Address  State  PID\r\n  TCP    0.0.0.0:135    0.0.0.0:0  LISTENING  1000\r\n  TCP    127.0.0.1:5173  0.0.0.0:0  LISTENING  4321\r\n";
    assert_eq!(listener_pid_from_netstat(5173, out), Some(4321));
    assert_eq!(listener_pid_from_netstat(80, out), None);
    assert_eq!(listener_pid_from_netstat(35, out), None);
    assert_eq!(name_from_tasklist("\"node.exe\",\"4321\",\"Console\""), "node.exe");
    assert_eq!(name_from_tasklist(""), "");
}

#[test]
fn kill_errors() {
    let info = PortInfo { port: 1, pid: 12, name: "vite".to_string() };
    assert_eq!(kill_error_message(&info), "ERR_KILL|vite|12");
    assert_eq!(port_free_error(), "ERR_PORT_FREE");
}
