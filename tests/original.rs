use doctl_tui::doctl::{
    build_create_command, list_regions, map_droplet, CreateDropletArgs, DropletApi, NetworkV4,
    NetworksApi, RegionApi,
};
use doctl_tui::forms::split_csv;
use doctl_tui::input::TextInput;
use doctl_tui::tunnel::{default_settings, default_state, new_binding, port_in_registry, AppStateFile};

#[test]
fn split_csv_trims_and_filters() {
    let values = split_csv(" alpha, beta , ,gamma,, ");
    assert_eq!(values, vec!["alpha", "beta", "gamma"]);
}

#[test]
fn split_csv_empty_returns_empty_vec() {
    let values = split_csv("   ");
    assert!(values.is_empty());
}

#[test]
fn default_settings_uses_home_env() {
    let settings = default_settings("/tmp/doctl-test-home");
    assert_eq!(settings.default_ssh_user, "root");
    assert_eq!(settings.default_ssh_port, 22);
    assert_eq!(
        settings.default_ssh_key_path,
        "/tmp/doctl-test-home/.ssh/id_rsa"
    );
}

#[test]
fn default_state_is_empty() {
    let state = default_state("/root");
    assert!(state.bindings.is_empty());
    assert_eq!(state.settings.default_ssh_user, "root");
}

#[test]
fn map_droplet_picks_public_and_private_ips() {
    let api = DropletApi {
        id: 42,
        name: "test".to_string(),
        status: "active".to_string(),
        region: RegionApi {
            slug: "nyc1".to_string(),
        },
        size_slug: Some("s-1vcpu-1gb".to_string()),
        created_at: Some("2024-01-01T00:00:00Z".to_string()),
        tags: None,
        networks: Some(NetworksApi {
            v4: vec![
                NetworkV4 {
                    ip_address: "10.0.0.2".to_string(),
                    kind: "private".to_string(),
                },
                NetworkV4 {
                    ip_address: "203.0.113.10".to_string(),
                    kind: "public".to_string(),
                },
            ],
        }),
    };
    let droplet = map_droplet(api);
    assert_eq!(droplet.public_ipv4.as_deref(), Some("203.0.113.10"));
    assert_eq!(droplet.private_ipv4.as_deref(), Some("10.0.0.2"));
    assert_eq!(droplet.tags.len(), 0);
}

#[test]
fn build_create_command_includes_optional_fields() {
    let args = CreateDropletArgs {
        name: "demo".to_string(),
        region: Some("nyc1".to_string()),
        size: "s-1vcpu-1gb".to_string(),
        image: "ubuntu-22-04-x64".to_string(),
        ssh_keys: vec!["123".to_string(), "456".to_string()],
        tags: vec!["dev".to_string(), "test".to_string()],
    };
    let cmd = build_create_command(&args);
    let joined = cmd.join(" ");
    assert!(joined.contains("compute droplet create demo"));
    assert!(joined.contains("--region nyc1"));
    assert!(joined.contains("--ssh-keys 123,456"));
    assert!(joined.contains("--tag-names dev,test"));
}

#[test]
fn build_create_command_omits_empty_optionals() {
    let args = CreateDropletArgs {
        name: "demo".to_string(),
        region: Some("".to_string()),
        size: "s-1vcpu-1gb".to_string(),
        image: "ubuntu-22-04-x64".to_string(),
        ssh_keys: vec![],
        tags: vec![],
    };
    let cmd = build_create_command(&args);
    let joined = cmd.join(" ");
    assert!(!joined.contains("--region"));
    assert!(!joined.contains("--ssh-keys"));
    assert!(!joined.contains("--tag-names"));
}

#[test]
fn list_regions_returns_hardcoded_list() {
    let regions = list_regions().expect("regions");
    assert_eq!(regions.len(), 15);
    let nyc1 = regions.iter().find(|r| r.slug == "nyc1").unwrap();
    assert!(nyc1.available);
    let sfo1 = regions.iter().find(|r| r.slug == "sfo1").unwrap();
    assert!(!sfo1.available);
}

#[test]
fn insert_and_backspace() {
    let mut input = TextInput::new("");
    input.insert('a');
    input.insert('b');
    input.insert('c');
    assert_eq!(input.value, "abc");
    input.backspace();
    assert_eq!(input.value, "ab");
    assert_eq!(input.cursor, 2);
}

#[test]
fn delete_and_cursor_moves() {
    let mut input = TextInput::new("abcd");
    input.cursor = 2;
    input.delete();
    assert_eq!(input.value, "abd");
    input.move_left();
    assert_eq!(input.cursor, 1);
    input.move_right();
    assert_eq!(input.cursor, 2);
}

#[test]
fn cursor_display_offset_matches_ascii_len() {
    let mut input = TextInput::new("hello");
    input.cursor = 3;
    assert_eq!(input.cursor_display_offset(), 3);
}

#[test]
fn registry_lookup_matches_local_port() {
    let binding = new_binding(
        1,
        "droplet".to_string(),
        "127.0.0.1".to_string(),
        8080,
        80,
        "root".to_string(),
        "/tmp/id_rsa".to_string(),
        22,
        0,
    );
    let state = AppStateFile {
        bindings: vec![binding],
        settings: default_settings("/root"),
    };
    assert!(port_in_registry(&state, 8080).is_some());
    assert!(port_in_registry(&state, 9090).is_none());
}
