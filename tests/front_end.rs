use doctl_tui::doctl::{snapshot_droplet, u64_text, Droplet};
use doctl_tui::forms::{label_matches, parse_sync_paths, snapshot_name, PathsError, Picker, PickerItem, PickerTarget};
use doctl_tui::input::TextInput;
use doctl_tui::tunnel::{
    cleanup_stale, default_state, new_binding, port_in_registry, record_binding, remove_binding,
    spawn_ssh_tunnel_args, start_tunnel, stop_tunnel, PortBinding, SignalDelivery, TunnelPoll,
};

fn item(label: &str, meta: Option<&str>) -> PickerItem {
    PickerItem {
        label: label.to_string(),
        value: label.to_string(),
        meta: meta.map(|m| m.to_string()),
    }
}

fn binding(port: u16, pid: Option<u32>) -> PortBinding {
    let mut b = new_binding(
        7,
        "web".to_string(),
        "203.0.113.5".to_string(),
        port,
        80,
        "root".to_string(),
        "/k".to_string(),
        22,
        1_700_000_000,
    );
    b.tunnel_pid = pid;
    b
}

#[test]
fn text_input_handles_multibyte_characters() {
    let mut input = TextInput::new("ab");
    input.move_left();
    input.insert('é');
    assert_eq!(input.value, "aéb");
    assert_eq!(input.cursor, 3);
    input.move_right();
    assert_eq!(input.cursor, 4);
    input.move_left();
    input.backspace();
    assert_eq!(input.value, "ab");
    assert_eq!(input.cursor, 1);
    input.delete();
    assert_eq!(input.value, "a");
    input.delete();
    assert_eq!(input.value, "a");
    input.cursor = 0;
    input.backspace();
    input.move_left();
    assert_eq!(input.value, "a");
    assert_eq!(input.cursor, 0);
}

#[test]
fn picker_filters_by_label_and_meta() {
    let items = vec![item("New York 1", None), item("Amsterdam 3", Some("EU West"))];
    let mut picker = Picker::new("Regions".to_string(), items, PickerTarget::CreateRegion, false);
    assert_eq!(picker.filtered, vec![0, 1]);
    assert_eq!(picker.selected, 0);
    picker.selected = 1;
    picker.query = TextInput::new("eu");
    picker.refresh_filter();
    assert_eq!(picker.filtered, vec![1]);
    assert_eq!(picker.selected, 0);
    picker.query = TextInput::new("YORK");
    picker.refresh_filter();
    assert_eq!(picker.filtered, vec![0]);
    picker.query = TextInput::new("zzz");
    picker.refresh_filter();
    assert!(picker.filtered.is_empty());
}

#[test]
fn label_matching_on_lowered_text() {
    assert!(label_matches("abc", None, ""));
    assert!(label_matches("abc", None, "bc"));
    assert!(label_matches("abc", Some("xyz"), "yz"));
    assert!(!label_matches("abc", Some("xyz"), "q"));
    assert!(!label_matches("abc", None, "ABC"));
}

#[test]
fn sync_paths_are_parsed() {
    let paths = parse_sync_paths(" ~/a -> /srv/a , b,c->d ").unwrap();
    let pairs: Vec<(String, String)> = paths.into_iter().map(|p| (p.local, p.remote)).collect();
    assert_eq!(
        pairs,
        vec![
            ("~/a".to_string(), "/srv/a".to_string()),
            ("b".to_string(), "b".to_string()),
            ("c".to_string(), "d".to_string()),
        ]
    );
    assert_eq!(parse_sync_paths(" , ").unwrap_err(), PathsError::NoPaths);
    assert_eq!(parse_sync_paths("a, -> /x").unwrap_err(), PathsError::EmptyLocal);
    assert_eq!(parse_sync_paths("a ->  ").unwrap_err(), PathsError::EmptyRemote);
    assert_eq!(PathsError::EmptyRemote.message(), "Remote path cannot be empty");
}

#[test]
fn snapshot_names() {
    assert_eq!(snapshot_name("web 1", "20240101-000000"), "web-1-20240101-000000");
    assert_eq!(snapshot_name("!!", "s"), "droplet-s");
    assert_eq!(
        snapshot_droplet(42, "snap"),
        vec!["compute", "droplet-action", "snapshot", "42", "--snapshot-name", "snap", "--wait"]
    );
    assert_eq!(u64_text(0), "0");
    assert_eq!(u64_text(18446744073709551615), "18446744073709551615");
}

#[test]
fn droplet_running_state() {
    let mut d = Droplet {
        id: 1,
        name: "d".to_string(),
        status: "active".to_string(),
        region: "nyc1".to_string(),
        size: None,
        public_ipv4: None,
        private_ipv4: None,
        created_at: None,
        tags: vec![],
    };
    assert!(d.is_running());
    d.status = "off".to_string();
    assert!(!d.is_running());
}

#[test]
fn tunnel_start_outcomes() {
    let mut b = binding(8080, None);
    assert_eq!(start_tunnel(&mut b, TunnelPoll::Running(4242)), Ok(4242));
    assert_eq!(b.tunnel_pid, Some(4242));
    let mut b = binding(8080, None);
    let err = start_tunnel(
        &mut b,
        TunnelPoll::Exited {
            status: "exit status: 255".to_string(),
            stderr: "bind: Address already in use".to_string(),
        },
    )
    .unwrap_err();
    assert_eq!(err, "SSH tunnel exited early (exit status: 255). bind: Address already in use");
    assert_eq!(b.tunnel_pid, None);
    let err = start_tunnel(&mut b, TunnelPoll::PollFailed("EINTR".to_string())).unwrap_err();
    assert_eq!(err, "Failed to poll SSH tunnel: EINTR");
}

#[test]
fn tunnel_stop_outcomes() {
    assert_eq!(stop_tunnel(7, SignalDelivery::Delivered), Ok(()));
    assert_eq!(stop_tunnel(7, SignalDelivery::NoSuchProcess), Ok(()));
    assert_eq!(
        stop_tunnel(7, SignalDelivery::Failed),
        Err("Failed to send SIGTERM to PID 7".to_string())
    );
}

#[test]
fn tunnel_arguments() {
    let args = spawn_ssh_tunnel_args(&binding(8080, None));
    assert_eq!(
        args,
        vec![
            "-N",
            "-L",
            "127.0.0.1:8080:127.0.0.1:80",
            "-o",
            "ExitOnForwardFailure=yes",
            "-o",
            "ServerAliveInterval=30",
            "-o",
            "ServerAliveCountMax=3",
            "-i",
            "/k",
            "-p",
            "22",
            "root@203.0.113.5",
        ]
    );
}

#[test]
fn registry_keeps_ports_unique() {
    let mut state = default_state("/root");
    assert!(record_binding(&mut state, binding(8080, Some(1))));
    assert!(!record_binding(&mut state, binding(8080, Some(2))));
    assert!(record_binding(&mut state, binding(9090, None)));
    assert!(record_binding(&mut state, binding(7070, Some(3))));
    assert_eq!(state.bindings.len(), 3);
    assert_eq!(port_in_registry(&state, 8080).unwrap().tunnel_pid, Some(1));
    remove_binding(&mut state, 8080);
    assert!(port_in_registry(&state, 8080).is_none());
    assert_eq!(state.bindings.len(), 2);
    let removed = cleanup_stale(&mut state, &[true, false]);
    assert_eq!(removed, 2);
    assert!(state.bindings.is_empty());
}

#[test]
fn cleanup_keeps_live_tunnels() {
    let mut state = default_state("/root");
    record_binding(&mut state, binding(1, Some(10)));
    record_binding(&mut state, binding(2, Some(11)));
    let removed = cleanup_stale(&mut state, &[false, true]);
    assert_eq!(removed, 1);
    assert_eq!(state.bindings[0].local_port, 2);
}

#[test]
fn task_tracker_counts_results() {
    let mut t = doctl_tui::tasks::TaskTracker::new();
    assert!(t.is_idle());
    t.submitted();
    t.submitted();
    t.settled();
    assert_eq!(t.pending, 1);
    assert!(!t.is_idle());
    t.settled();
    t.settled();
    assert_eq!(t.pending, 0);
    assert!(t.is_idle());
}
