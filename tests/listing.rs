use doctl_tui::listing::{list_directories_command, parse_directory_listing};

#[test]
fn directory_listing_is_read() {
    let listing = parse_directory_listing("  /home/u  \nalpha\r\n\nbeta dir\r\r\n").unwrap();
    assert_eq!(listing.path, "/home/u");
    assert_eq!(listing.directories, vec!["alpha", "beta dir"]);
    let bare = parse_directory_listing("/srv\n").unwrap();
    assert!(bare.directories.is_empty());
}

#[test]
fn directory_listing_without_path_is_refused() {
    assert!(parse_directory_listing("").is_none());
    assert!(parse_directory_listing("   \nalpha\n").is_none());
}

#[test]
fn directory_listing_command_quotes_the_path() {
    assert_eq!(
        list_directories_command("~/my dir"),
        "TARGET='~/my dir'; if [ \"$TARGET\" = \"~\" ]; then TARGET=\"$HOME\"; fi; cd -- \"$TARGET\" 2>/dev/null || exit 2; pwd; ls -1Ap 2>/dev/null | sed -n 's:/$::p' | LC_ALL=C sort"
    );
}
