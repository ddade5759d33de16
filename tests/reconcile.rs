use doctl_tui::forms::parse_sync_paths;
use doctl_tui::ledger::{append_mountlist, delete_mount_entries, parse_mountlist, MountEntry};
use doctl_tui::names::sanitize_name;
use doctl_tui::reconcile::{
    check_sync_request, create_syncs, delete_sync, mutagen_create, restore_syncs, ssh_args,
    step_invocation, terminate_all_syncs, Invocation, SshConfig, SyncError, SyncPath, SyncStep,
};
use doctl_tui::sessions::SyncSession;
use doctl_tui::shell::{ensure_remote_dir, expand_local_path, remote_path_command, shell_escape};

const STAMP: &str = "20240101-120000";

fn path(local: &str, remote: &str) -> SyncPath {
    SyncPath {
        local: local.to_string(),
        remote: remote.to_string(),
    }
}

fn entry(name: &str, local: &str, remote: &str) -> MountEntry {
    MountEntry {
        name: name.to_string(),
        local: local.to_string(),
        remote: remote.to_string(),
    }
}

fn ssh() -> SshConfig {
    SshConfig {
        user: "root".to_string(),
        host: "203.0.113.5".to_string(),
        port: 2222,
        key_path: "~/.ssh/id_rsa".to_string(),
    }
}

#[test]
fn repeated_pair_is_created_once_then_resumed() {
    let paths = parse_sync_paths("~/proj -> /srv/app, ~/proj -> /srv/app").unwrap();
    assert_eq!(paths.len(), 2);
    let first = create_syncs(&[], &[], "web-1", &paths, "/home/u", "/work", STAMP).unwrap();
    let name = "sync-web-1-proj-20240101-120000".to_string();
    assert_eq!(first.count, 1);
    assert_eq!(
        first.steps,
        vec![
            SyncStep::EnsureRemoteDir {
                remote: "/srv/app".to_string()
            },
            SyncStep::Create {
                name: name.clone(),
                local: "/home/u/proj".to_string(),
                remote: "/srv/app".to_string()
            },
        ]
    );
    assert_eq!(first.new_entries, vec![entry(&name, "/home/u/proj", "/srv/app")]);

    let again = create_syncs(
        &first.new_entries,
        &[name.clone()],
        "web-1",
        &paths,
        "/home/u",
        "/work",
        "20240102-080000",
    )
    .unwrap();
    assert_eq!(again.count, 1);
    assert!(again.new_entries.is_empty());
    assert_eq!(again.steps[1], SyncStep::Resume { name });
}

#[test]
fn duplicates_after_normalisation_count_once() {
    let paths = vec![
        path("~/proj", " /srv/app "),
        path("/home/u/proj", "/srv/app"),
        path("other", "/srv/other"),
        path("~/proj", "/srv/app"),
    ];
    let plan = create_syncs(&[], &[], "web", &paths, "/home/u", "/work", STAMP).unwrap();
    assert_eq!(plan.count, 2);
    assert_eq!(plan.steps.len(), 4);
    assert_eq!(plan.new_entries.len(), 2);
    assert_eq!(plan.new_entries[1].local, "/work/other");
    assert_eq!(plan.new_entries[1].name, "sync-web-other-20240101-120000-2");
}

#[test]
fn names_from_one_base_get_suffixes() {
    let paths = vec![path("/a/proj", "/srv/1"), path("/b/proj", "/srv/2")];
    let plan = create_syncs(&[], &[], "Web 1", &paths, "/h", "/w", STAMP).unwrap();
    assert_eq!(plan.new_entries[0].name, "sync-Web-1-proj-20240101-120000");
    assert_eq!(plan.new_entries[1].name, "sync-Web-1-proj-20240101-120000-2");
    assert_ne!(plan.new_entries[0].name, plan.new_entries[1].name);
}

#[test]
fn ledger_name_is_reused_and_live_session_resumed() {
    let ledger = vec![entry("old-name", "/h/proj", "/srv/app")];
    let paths = vec![path("~/proj", "/srv/app")];
    let plan = create_syncs(&ledger, &["old-name".to_string()], "x", &paths, "/h", "/", STAMP)
        .unwrap();
    assert!(plan.new_entries.is_empty());
    assert_eq!(
        plan.steps[1],
        SyncStep::Resume {
            name: "old-name".to_string()
        }
    );
    let plan = create_syncs(&ledger, &[], "x", &paths, "/h", "/", STAMP).unwrap();
    assert_eq!(
        plan.steps[1],
        SyncStep::Create {
            name: "old-name".to_string(),
            local: "/h/proj".to_string(),
            remote: "/srv/app".to_string()
        }
    );
}

#[test]
fn request_errors() {
    assert_eq!(check_sync_request(&[]), Err(SyncError::NoPaths));
    let bad = vec![path("/a", "/x"), path("/b", "   ")];
    assert_eq!(check_sync_request(&bad), Err(SyncError::EmptyRemote));
    assert_eq!(
        create_syncs(&[], &[], "l", &bad, "/h", "/", STAMP).unwrap_err(),
        SyncError::EmptyRemote
    );
    assert_eq!(
        create_syncs(&[], &[], "l", &[], "/h", "/", STAMP).unwrap_err(),
        SyncError::NoPaths
    );
}

#[test]
fn restore_resumes_live_and_creates_rest() {
    assert_eq!(
        restore_syncs(&[], &[], "/h", "/").unwrap_err(),
        SyncError::EmptyLedger
    );
    let ledger = vec![
        entry("n1", "/h/a", "/srv/a"),
        entry("n2", "~/b", "~/b"),
    ];
    let plan = restore_syncs(&ledger, &["n1".to_string()], "/home/u", "/").unwrap();
    assert_eq!(plan.count, 2);
    assert!(plan.new_entries.is_empty());
    assert_eq!(
        plan.steps,
        vec![
            SyncStep::EnsureRemoteDir {
                remote: "/srv/a".to_string()
            },
            SyncStep::Resume {
                name: "n1".to_string()
            },
            SyncStep::EnsureRemoteDir {
                remote: "~/b".to_string()
            },
            SyncStep::Create {
                name: "n2".to_string(),
                local: "/home/u/b".to_string(),
                remote: "~/b".to_string()
            },
        ]
    );
}

#[test]
fn delete_reports_cleanup_failure_as_partial_success() {
    let out = delete_sync("s1", Ok(()), Some(Err("ssh failed: boom".to_string()))).unwrap();
    assert_eq!(out.name, "s1");
    assert!(!out.mount_removed);
    assert_eq!(out.mount_error.as_deref(), Some("ssh failed: boom"));
    let out = delete_sync("s1", Ok(()), Some(Ok(1))).unwrap();
    assert!(out.mount_removed);
    assert_eq!(out.mount_error, None);
    let out = delete_sync("s1", Ok(()), Some(Ok(0))).unwrap();
    assert!(!out.mount_removed);
    let out = delete_sync("s1", Ok(()), None).unwrap();
    assert!(!out.mount_removed);
    assert_eq!(out.mount_error, None);
    let err = delete_sync("s1", Err("mutagen failed: gone".to_string()), None).unwrap_err();
    assert_eq!(err, "mutagen failed: gone");
}

#[test]
fn ledger_lines_are_parsed() {
    let text = "# comment\nn1\t/home/a\t/srv/a\n\n  bad line\nn2\t/b\t \r\nn3 \t /c \t /srv/c \r\n";
    let entries = parse_mountlist(text);
    assert_eq!(
        entries,
        vec![entry("n1", "/home/a", "/srv/a"), entry("n3", "/c", "/srv/c")]
    );
}

#[test]
fn append_script_quotes_fields() {
    let script = append_mountlist(&[entry("n1", "/home/u/it's", "/srv")]);
    assert_eq!(
        script,
        "printf '%s\\t%s\\t%s\\n' 'n1' '/home/u/it'\"'\"'s' '/srv' >> ~/.mountlist\n"
    );
    assert_eq!(append_mountlist(&[]), "");
}

#[test]
fn delete_script_and_count() {
    let ledger = vec![entry("n1", "/a", "/b"), entry("n2", "/c", "/d"), entry("n1", "/e", "/f")];
    let removal = delete_mount_entries(&ledger, &["n1".to_string()]);
    assert_eq!(removal.removed, 2);
    assert_eq!(
        removal.script.as_deref(),
        Some("if [ -f ~/.mountlist ]; then awk -F '\\t' 'BEGIN{del[\"n1\"]=1;} !($1 in del){print}' ~/.mountlist > ~/.mountlist.tmp && mv ~/.mountlist.tmp ~/.mountlist; fi")
    );
    let none = delete_mount_entries(&ledger, &["zz".to_string()]);
    assert_eq!(none.removed, 0);
    assert!(none.script.is_none());
    assert!(delete_mount_entries(&ledger, &[]).script.is_none());
}

#[test]
fn shell_words() {
    assert_eq!(shell_escape(""), "''");
    assert_eq!(shell_escape("a b"), "'a b'");
    assert_eq!(shell_escape("it's"), "'it'\"'\"'s'");
    assert_eq!(remote_path_command(" ~/projects/my app "), "~/'projects/my app'");
    assert_eq!(remote_path_command("~"), "~");
    assert_eq!(remote_path_command("/srv/app"), "'/srv/app'");
    assert_eq!(ensure_remote_dir("/srv/app"), "mkdir -p '/srv/app'");
}

#[test]
fn local_paths_are_expanded() {
    assert_eq!(expand_local_path(" ~ ", "/home/u", "/w"), "/home/u");
    assert_eq!(expand_local_path("~/x/y", "/home/u", "/w"), "/home/u/x/y");
    assert_eq!(expand_local_path("/abs/p", "/home/u", "/w"), "/abs/p");
    assert_eq!(expand_local_path("rel/x", "/home/u", "/w"), "/w/rel/x");
    assert_eq!(expand_local_path("rel", "/home/u", "/"), "/rel");
    assert_eq!(expand_local_path("~user", "/home/u", "/w"), "/w/~user");
}

#[test]
fn labels_are_sanitised() {
    assert_eq!(sanitize_name("  My Project.v2!! "), "My-Project-v2");
    assert_eq!(sanitize_name("a . . b"), "a-b");
    assert_eq!(sanitize_name("!!!"), "sync");
    assert_eq!(sanitize_name("-a_b-"), "a_b");
    assert_eq!(sanitize_name("web-1"), "web-1");
}

#[test]
fn steps_become_invocations() {
    let create = SyncStep::Create {
        name: "n".to_string(),
        local: "/l".to_string(),
        remote: "/r".to_string(),
    };
    match step_invocation(&ssh(), &create) {
        Invocation::Daemon(args) => assert_eq!(
            args,
            vec!["sync", "create", "--name", "n", "/l", "root@203.0.113.5:/r"]
        ),
        other => panic!("unexpected {:?}", other),
    }
    let resume = SyncStep::Resume {
        name: "n".to_string(),
    };
    match step_invocation(&ssh(), &resume) {
        Invocation::Daemon(args) => assert_eq!(args, vec!["sync", "resume", "n"]),
        other => panic!("unexpected {:?}", other),
    }
    let dir = SyncStep::EnsureRemoteDir {
        remote: "~/x".to_string(),
    };
    match step_invocation(&ssh(), &dir) {
        Invocation::Remote(cmd) => assert_eq!(cmd, "mkdir -p ~/'x'"),
        other => panic!("unexpected {:?}", other),
    }
    assert_eq!(
        mutagen_create(&ssh(), "a", "/b", "/c"),
        vec!["sync", "create", "--name", "a", "/b", "root@203.0.113.5:/c"]
    );
}

#[test]
fn ssh_arguments() {
    assert_eq!(
        ssh_args(&ssh(), "/k", "uptime"),
        vec!["-i", "/k", "-p", "2222", "-o", "BatchMode=yes", "root@203.0.113.5", "uptime"]
    );
}

#[test]
fn terminate_all_lists_every_session() {
    let sessions = vec![
        SyncSession {
            name: "a".to_string(),
            status: None,
            beta_url: None,
            beta_host: None,
        },
        SyncSession {
            name: "b".to_string(),
            status: Some("Watching".to_string()),
            beta_url: None,
            beta_host: None,
        },
    ];
    let calls = terminate_all_syncs(&sessions);
    assert_eq!(
        calls,
        vec![vec!["sync", "terminate", "a"], vec!["sync", "terminate", "b"]]
    );
}
