use doctl_tui::inventory::{list_syncs, mutagen_existing_names, names_from_json, session_names, sessions_from_json};
use doctl_tui::sessions::{parse_host_from_url, sessions_from_text, SyncSession};

fn names(sessions: &[SyncSession]) -> Vec<String> {
    session_names(sessions)
}

#[test]
fn structured_listing_accepts_both_name_casings() {
    let raw = r#"[{"Name":"alpha","Status":"Watching"},{"name":"beta","status":"Paused","beta":{"url":"root@10.0.0.9:/srv/x"}},{"other":1}]"#;
    let sessions = list_syncs(Some(raw)).expect("structured sessions");
    assert_eq!(names(&sessions), vec!["alpha", "beta"]);
    assert_eq!(sessions[0].status.as_deref(), Some("Watching"));
    assert_eq!(sessions[1].beta_url.as_deref(), Some("root@10.0.0.9:/srv/x"));
    assert_eq!(sessions[1].beta_host.as_deref(), Some("10.0.0.9"));
}

#[test]
fn structured_listing_reads_flat_beta_url() {
    let raw = r#"[{"name":"s","betaURL":"ssh://u@host.example:22/p"}]"#;
    let sessions = sessions_from_json(raw).unwrap();
    assert_eq!(sessions[0].beta_host.as_deref(), Some("host.example"));
}

#[test]
fn empty_or_bad_structured_output_falls_back() {
    assert!(list_syncs(Some("[]")).is_none());
    assert!(list_syncs(Some("not json")).is_none());
    assert!(list_syncs(None).is_none());
    assert!(sessions_from_json("{").is_none());
    assert_eq!(sessions_from_json("{}").unwrap().len(), 0);
    let text = "Name: foo\nStatus: bar\n";
    let sessions = sessions_from_text(text);
    assert_eq!(sessions.len(), 1);
    assert_eq!(sessions[0].name, "foo");
    assert_eq!(sessions[0].status.as_deref(), Some("bar"));
}

#[test]
fn structured_names_skip_empty_ones() {
    let raw = r#"[{"name":""},{"Name":"x"},{"name":7}]"#;
    assert_eq!(names_from_json(raw).unwrap(), vec!["x"]);
    assert_eq!(mutagen_existing_names(Some(raw)).unwrap(), vec!["x"]);
    assert!(mutagen_existing_names(Some(r#"[{"name":""}]"#)).is_none());
}

#[test]
fn labelled_blocks_are_read() {
    let text = "--------\nName: web\nIdentifier: sync_1\nAlpha:\n  URL: /home/u/web\nBeta:\n  URL: root@10.0.0.1:/srv/web\nStatus: Watching for changes\n--------\nNAME: api\nstatus:   \n";
    let sessions = sessions_from_text(text);
    assert_eq!(names(&sessions), vec!["web", "api"]);
    assert_eq!(sessions[0].status.as_deref(), Some("Watching for changes"));
    assert_eq!(sessions[0].beta_url.as_deref(), Some("root@10.0.0.1:/srv/web"));
    assert_eq!(sessions[0].beta_host.as_deref(), Some("10.0.0.1"));
    assert_eq!(sessions[1].status, None);
    assert_eq!(sessions[1].beta_url, None);
}

#[test]
fn tabular_listing_is_the_second_fallback() {
    let text = "Name    Identifier   Status\n------  ----------   ------\nfoo     sync_abc     Watching\nbar:    x\n\nbaz     sync_def\n";
    let sessions = sessions_from_text(text);
    assert_eq!(names(&sessions), vec!["foo", "baz"]);
    assert!(sessions_from_text("nothing here\n").is_empty());
    assert!(sessions_from_text("").is_empty());
}

#[test]
fn hosts_of_endpoints() {
    assert_eq!(parse_host_from_url("ssh://user@host.example:22/path").as_deref(), Some("host.example"));
    assert_eq!(parse_host_from_url(" root@203.0.113.5:/srv/app ").as_deref(), Some("203.0.113.5"));
    assert_eq!(parse_host_from_url("host:~/x").as_deref(), Some("host"));
    assert_eq!(parse_host_from_url("/local/path"), None);
    assert_eq!(parse_host_from_url("   "), None);
    assert_eq!(parse_host_from_url("ssh://"), None);
}
