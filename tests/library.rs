use mod_handler::catalog::{count_mods, fetch_profiles, is_mod_name, ProfileListing};
use mod_handler::menu::{confirms_clear, parse_number, select_profile, Selection};
use mod_handler::paths::{
    default_mods_path, join_path, override_mods_path, resolve_mods_path, strip_separators,
    AppData, PathError,
};
use mod_handler::walk::{clear_plan, CopyStep, CopyWalk, DirPair, EntryInfo, EntryKind, Removal};

fn entry(name: &str, path: &str, kind: EntryKind) -> EntryInfo {
    EntryInfo { name: name.to_string(), path: path.to_string(), kind }
}

fn expect_copy(step: &CopyStep, from: &str, to: &str) {
    match step {
        CopyStep::CopyFile { from: f, to: t } => {
            assert_eq!(f, from);
            assert_eq!(t, to);
        }
        CopyStep::Descend(_) => panic!("expected a file copy"),
    }
}

fn expect_descend(step: &CopyStep, source: &str, destination: &str) {
    match step {
        CopyStep::Descend(p) => {
            assert_eq!(p.source, source);
            assert_eq!(p.destination, destination);
        }
        CopyStep::CopyFile { .. } => panic!("expected a subdirectory"),
    }
}

fn expect_pair(p: Option<DirPair>, source: &str, destination: &str) {
    let p = p.expect("a directory should remain");
    assert_eq!(p.source, source);
    assert_eq!(p.destination, destination);
}

#[test]
fn override_strips_trailing_separator() {
    let p = override_mods_path("C:/Games/MC/").unwrap();
    assert_eq!(p, "C:/Games/MC/mods");
    assert!(p.ends_with("MC/mods"));
}

#[test]
fn override_is_trimmed() {
    assert_eq!(override_mods_path("  C:/Games/MC//\r\n").unwrap(), "C:/Games/MC/mods");
    assert_eq!(override_mods_path("\tD:\\MC\\ ").unwrap(), "D:\\MC/mods");
}

#[test]
fn blank_override_names_nothing() {
    assert!(override_mods_path("").is_none());
    assert!(override_mods_path(" \n\t").is_none());
}

#[test]
fn resolve_prefers_override() {
    let r = resolve_mods_path(Some("C:/Games/MC/"), &AppData::Unset);
    assert_eq!(r.unwrap(), "C:/Games/MC/mods");
}

#[test]
fn resolve_falls_back_to_app_data() {
    let v = AppData::Value("C:/Users/X/AppData/Roaming".to_string());
    assert_eq!(resolve_mods_path(None, &v).unwrap(), "C:/Users/X/AppData/Roaming/.minecraft/mods");
    assert_eq!(
        resolve_mods_path(Some("  \n"), &v).unwrap(),
        "C:/Users/X/AppData/Roaming/.minecraft/mods"
    );
}

#[test]
fn resolve_errors_without_app_data() {
    assert_eq!(resolve_mods_path(None, &AppData::Unset).unwrap_err(), PathError::AppDataMissing);
    assert_eq!(
        resolve_mods_path(Some(""), &AppData::NotUnicode).unwrap_err(),
        PathError::AppDataNotUnicode
    );
}

#[test]
fn default_path_under_app_data() {
    assert_eq!(default_mods_path("C:/Users/X/AppData/Roaming/"), "C:/Users/X/AppData/Roaming/.minecraft/mods");
}

#[test]
fn join_inserts_one_separator() {
    assert_eq!(join_path("a", "b"), "a/b");
    assert_eq!(join_path("a/", "b"), "a/b");
    assert_eq!(join_path("a\\", "b"), "a\\b");
    assert_eq!(join_path("", "b"), "b");
}

#[test]
fn strip_removes_only_trailing_separators() {
    assert_eq!(strip_separators("x/y//\\"), "x/y");
    assert_eq!(strip_separators("///"), "");
    assert_eq!(strip_separators("x"), "x");
}

#[test]
fn clear_removes_file_and_nested_directory() {
    let entries = vec![
        entry("f.txt", "mods/f.txt", EntryKind::File),
        entry("sub", "mods/sub", EntryKind::Directory),
    ];
    let plan = clear_plan(&entries);
    assert_eq!(plan.len(), 2);
    assert!(matches!(&plan[0], Removal::File(p) if p == "mods/f.txt"));
    assert!(matches!(&plan[1], Removal::Tree(p) if p == "mods/sub"));
}

#[test]
fn clear_of_empty_directory_does_nothing() {
    assert!(clear_plan(&Vec::new()).is_empty());
}

#[test]
fn copy_mirrors_tree() {
    let mut walk = CopyWalk::new("src".to_string(), "dst".to_string());
    let top = walk.next_directory().unwrap();
    assert_eq!(top.source, "src");
    assert_eq!(top.destination, "dst");
    let steps = walk.visit(
        &top,
        &vec![entry("a.txt", "src/a.txt", EntryKind::File), entry("sub", "src/sub", EntryKind::Directory)],
    );
    assert_eq!(steps.len(), 2);
    expect_copy(&steps[0], "src/a.txt", "dst/a.txt");
    expect_descend(&steps[1], "src/sub", "dst/sub");
    assert!(!walk.is_done());
    let sub = walk.next_directory().unwrap();
    assert_eq!(sub.source, "src/sub");
    assert_eq!(sub.destination, "dst/sub");
    let steps = walk.visit(&sub, &vec![entry("b.txt", "src/sub/b.txt", EntryKind::File)]);
    assert_eq!(steps.len(), 1);
    expect_copy(&steps[0], "src/sub/b.txt", "dst/sub/b.txt");
    assert!(walk.is_done());
    assert!(walk.next_directory().is_none());
}

#[test]
fn copy_overwrites_same_name() {
    // The plan copies each file whatever the destination holds.
    let mut walk = CopyWalk::new("p".to_string(), "mods".to_string());
    let top = walk.next_directory().unwrap();
    let steps = walk.visit(&top, &vec![entry("x.jar", "p/x.jar", EntryKind::File)]);
    expect_copy(&steps[0], "p/x.jar", "mods/x.jar");
    assert!(walk.next_directory().is_none());
}

#[test]
fn copy_walk_takes_latest_first() {
    let mut walk = CopyWalk::new("s".to_string(), "d/".to_string());
    let top = walk.next_directory().unwrap();
    walk.visit(
        &top,
        &vec![entry("one", "s/one", EntryKind::Directory), entry("two", "s/two", EntryKind::Directory)],
    );
    expect_pair(walk.next_directory(), "s/two", "d/two");
    expect_pair(walk.next_directory(), "s/one", "d/one");
    assert!(walk.next_directory().is_none());
}

#[test]
fn mod_names() {
    assert!(is_mod_name("a.jar"));
    assert!(is_mod_name("..jar"));
    assert!(is_mod_name("x.tar.jar"));
    assert!(!is_mod_name(".jar"));
    assert!(!is_mod_name("a.JAR"));
    assert!(!is_mod_name("a.jar.txt"));
    assert!(!is_mod_name("jar"));
}

#[test]
fn only_regular_jar_files_count() {
    let entries = vec![
        entry("a.jar", "p/a.jar", EntryKind::File),
        entry("d.jar", "p/d.jar", EntryKind::Directory),
        entry("l.jar", "p/l.jar", EntryKind::Other),
        entry("n.txt", "p/n.txt", EntryKind::File),
    ];
    assert_eq!(count_mods(&entries), 1);
}

#[test]
fn catalog_counts_mods_and_skips_files() {
    let listing = vec![
        ProfileListing {
            name: Some("A".to_string()),
            path: "profiles/A".to_string(),
            kind: EntryKind::Directory,
            contents: vec![
                entry("x.jar", "profiles/A/x.jar", EntryKind::File),
                entry("readme.txt", "profiles/A/readme.txt", EntryKind::File),
                entry("y.jar", "profiles/A/y.jar", EntryKind::File),
            ],
        },
        ProfileListing {
            name: Some("stray.jar".to_string()),
            path: "profiles/stray.jar".to_string(),
            kind: EntryKind::File,
            contents: Vec::new(),
        },
        ProfileListing {
            name: Some("B".to_string()),
            path: "profiles/B".to_string(),
            kind: EntryKind::Directory,
            contents: Vec::new(),
        },
    ];
    let profiles = fetch_profiles(&listing);
    assert_eq!(profiles.len(), 2);
    assert_eq!(profiles[0].name, "A");
    assert_eq!(profiles[0].path, "profiles/A");
    assert_eq!(profiles[0].mods, 2);
    assert_eq!(profiles[1].name, "B");
    assert_eq!(profiles[1].mods, 0);
}

#[test]
fn catalog_names_undecodable_profile() {
    let listing = vec![ProfileListing {
        name: None,
        path: "profiles/x".to_string(),
        kind: EntryKind::Directory,
        contents: Vec::new(),
    }];
    let profiles = fetch_profiles(&listing);
    assert_eq!(profiles[0].name, "Unknown Profile name");
}

#[test]
fn selecting_zero_clears_only() {
    assert_eq!(select_profile("0", 3), Selection::ClearOnly);
    assert_eq!(select_profile("0", 0), Selection::ClearOnly);
}

#[test]
fn selecting_out_of_range_asks_again() {
    assert_eq!(select_profile("5", 2), Selection::OutOfRange(5));
    assert_eq!(select_profile("3", 2), Selection::OutOfRange(3));
}

#[test]
fn selecting_profiles_and_other_keys() {
    assert_eq!(select_profile("1", 2), Selection::Profile(0));
    assert_eq!(select_profile("2", 2), Selection::Profile(1));
    assert_eq!(select_profile("q", 2), Selection::Quit);
    assert_eq!(select_profile("x", 2), Selection::NotANumber);
    assert_eq!(select_profile("ENTER", 2), Selection::NotANumber);
}

#[test]
fn numbers_parse_like_usize() {
    assert_eq!(parse_number("7"), Some(7));
    assert_eq!(parse_number("+7"), Some(7));
    assert_eq!(parse_number("0042"), Some(42));
    assert_eq!(parse_number("18446744073709551615"), Some(usize::MAX));
    assert_eq!(parse_number("18446744073709551616"), None);
    assert_eq!(parse_number("99999999999999999999x"), None);
    assert_eq!(parse_number(""), None);
    assert_eq!(parse_number("+"), None);
    assert_eq!(parse_number("-1"), None);
    assert_eq!(parse_number("1 "), None);
    for s in ["0", "12", "+3", "x", "", "65536", "007"] {
        assert_eq!(parse_number(s), s.parse::<usize>().ok());
    }
}

#[test]
fn clear_confirmation() {
    assert!(confirms_clear("y"));
    assert!(!confirms_clear("n"));
    assert!(!confirms_clear("Y"));
    assert!(!confirms_clear("yes"));
}
