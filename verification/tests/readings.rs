use nixos_needsreboot::error::{Failure, ErrorKind};
use nixos_needsreboot::readings::{DirReading, LinkReading, Readings, Table};

#[test]
fn new_table_holds_nothing() {
    let table: Table<LinkReading> = Table::new();
    assert_eq!(table.get("/run/booted-system/kernel"), None);
    assert_eq!(table.get(""), None);
}

#[test]
fn table_gives_back_what_was_put_under_a_path() {
    let mut table: Table<LinkReading> = Table::new();
    table.insert("/a", LinkReading::Target("/nix/store/a".to_string()));
    table.insert("/b", LinkReading::Unreadable("Permission denied".to_string()));
    assert_eq!(table.get("/a"), Some(&LinkReading::Target("/nix/store/a".to_string())));
    assert_eq!(table.get("/b"), Some(&LinkReading::Unreadable("Permission denied".to_string())));
    assert_eq!(table.get("/c"), None);
    assert_eq!(table.get("/a/"), None);
}

#[test]
fn table_keeps_the_last_value_of_a_path() {
    let mut table: Table<DirReading> = Table::new();
    table.insert("/d", DirReading::Empty);
    table.insert("/e", DirReading::Empty);
    table.insert("/d", DirReading::FirstEntry("/d/6.1.2".to_string()));
    assert_eq!(table.get("/d"), Some(&DirReading::FirstEntry("/d/6.1.2".to_string())));
    assert_eq!(table.get("/e"), Some(&DirReading::Empty));
}

#[test]
fn links_and_directories_are_kept_apart() {
    let mut seen = Readings::new();
    seen.record_link("/p", LinkReading::Target("/t".to_string()));
    assert_eq!(seen.links.get("/p"), Some(&LinkReading::Target("/t".to_string())));
    assert_eq!(seen.dirs.get("/p"), None);
    seen.record_dir("/q", DirReading::Empty);
    assert_eq!(seen.dirs.get("/q"), Some(&DirReading::Empty));
    assert_eq!(seen.links.get("/q"), None);
}

#[test]
fn message_names_the_finding_and_the_path() {
    let error = Failure::new(
        ErrorKind::VersionParseError,
        "/nix/store/systemd",
        "Could not determine Systemd version from path",
    );
    assert_eq!(error.kind, ErrorKind::VersionParseError);
    assert_eq!(error.path, "/nix/store/systemd");
    assert_eq!(error.detail, "Could not determine Systemd version from path");
    assert_eq!(error.message(), "Could not determine Systemd version from path: /nix/store/systemd");
}

#[test]
fn message_of_an_empty_failure_is_the_colon_alone() {
    assert_eq!(Failure::new(ErrorKind::IOError, "", "").message(), ": ");
}
