use folder_watcher::config::{Config, Rule, RuleCondition};
use folder_watcher::organizer::{
    candidate, is_listed, join_path, organize_file, organize_file_to_destination, split_name,
    unused_name, NameParts, OrganizeError, PlacementSearch,
};
use folder_watcher::text::{decimal_text, push_decimal};

fn parts(stem: &str, extension: Option<&str>) -> NameParts {
    NameParts { stem: stem.to_string(), extension: extension.map(|e| e.to_string()) }
}

#[test]
fn names_split_at_the_last_dot() {
    assert_eq!(split_name("report.txt"), parts("report", Some("txt")));
    assert_eq!(split_name("a.tar.gz"), parts("a.tar", Some("gz")));
    assert_eq!(split_name("README"), parts("README", None));
    assert_eq!(split_name(".bashrc"), parts(".bashrc", None));
    assert_eq!(split_name(".config.yml"), parts(".config", Some("yml")));
    assert_eq!(split_name("foo."), parts("foo", Some("")));
    assert_eq!(split_name(".."), parts("..", None));
    assert_eq!(split_name("..."), parts("..", Some("")));
    assert_eq!(split_name("."), parts(".", None));
    assert_eq!(split_name(""), parts("", None));
}

#[test]
fn names_split_as_paths_do() {
    for name in ["report.txt", "a.tar.gz", "README", ".bashrc", "foo.", "...", "a..b", "é.ñ"] {
        let path = std::path::Path::new(name);
        let split = split_name(name);
        assert_eq!(Some(split.stem.as_str()), path.file_stem().and_then(|s| s.to_str()));
        assert_eq!(split.extension.as_deref(), path.extension().and_then(|s| s.to_str()));
    }
}

#[test]
fn candidates_are_numbered_before_the_extension() {
    assert_eq!(candidate("report.txt", 0), "report.txt");
    assert_eq!(candidate("report.txt", 1), "report (1).txt");
    assert_eq!(candidate("report.txt", 2), "report (2).txt");
    assert_eq!(candidate("report.txt", 10), "report (10).txt");
    assert_eq!(candidate("report.txt", 1234567890), "report (1234567890).txt");
    assert_eq!(candidate("a.tar.gz", 3), "a.tar (3).gz");
    assert_eq!(
        candidate("x.y", 18446744073709551615),
        "x (18446744073709551615).y"
    );
}

#[test]
fn candidates_without_extension_are_numbered_at_the_end() {
    assert_eq!(candidate("README", 0), "README");
    assert_eq!(candidate("README", 1), "README (1)");
    assert_eq!(candidate(".bashrc", 2), ".bashrc (2)");
    assert_eq!(candidate("foo.", 0), "foo.");
    assert_eq!(candidate("foo.", 1), "foo (1)");
    assert_eq!(candidate("", 1), " (1)");
}

#[test]
fn decimal_notation() {
    assert_eq!(decimal_text(0), "0");
    assert_eq!(decimal_text(7), "7");
    assert_eq!(decimal_text(10), "10");
    assert_eq!(decimal_text(109), "109");
    assert_eq!(decimal_text(1700000000), "1700000000");
    assert_eq!(decimal_text(u64::MAX), u64::MAX.to_string());
    let mut text = String::from("n=");
    push_decimal(&mut text, 42);
    assert_eq!(text, "n=42");
}

#[test]
fn paths_are_joined_with_one_slash() {
    assert_eq!(join_path("/docs", "a.pdf"), "/docs/a.pdf");
    assert_eq!(join_path("/docs/", "a.pdf"), "/docs/a.pdf");
    assert_eq!(join_path("", "a.pdf"), "a.pdf");
    assert_eq!(join_path("/", "a.pdf"), "/a.pdf");
    assert_eq!(join_path("rel/dir", "x"), "rel/dir/x");
    assert_eq!(join_path("/docs", ""), "/docs/");
    assert_eq!(join_path("/docs", "/abs/x"), "/abs/x");
}

#[test]
fn free_name_is_kept() {
    let listing = vec!["other.txt".to_string()];
    assert_eq!(unused_name(&listing, "report.txt"), "report.txt");
    assert_eq!(unused_name(&Vec::new(), "report.txt"), "report.txt");
}

#[test]
fn taken_name_gets_the_first_free_number() {
    let listing = vec!["report.txt".to_string()];
    let placed = unused_name(&listing, "report.txt");
    assert_eq!(placed, "report (1).txt");
    assert_eq!(join_path("/out", placed.as_str()), "/out/report (1).txt");

    let more = vec![
        "report (2).txt".to_string(),
        "report.txt".to_string(),
        "report (1).txt".to_string(),
        "report (4).txt".to_string(),
    ];
    assert_eq!(unused_name(&more, "report.txt"), "report (3).txt");
    let gap = vec!["report.txt".to_string(), "report (2).txt".to_string()];
    assert_eq!(unused_name(&gap, "report.txt"), "report (1).txt");
}

#[test]
fn files_of_one_name_take_successive_names() {
    let mut folder: Vec<String> = Vec::new();
    let mut placed: Vec<String> = Vec::new();
    for _ in 0..12 {
        let name = unused_name(&folder, "stem.ext");
        assert!(!is_listed(&folder, name.as_str()));
        folder.push(name.clone());
        placed.push(name);
    }
    assert_eq!(placed[0], "stem.ext");
    for k in 2..=12usize {
        assert_eq!(placed[k - 1], format!("stem ({}).ext", k - 1));
    }
    for a in 0..placed.len() {
        for b in 0..a {
            assert_ne!(placed[a], placed[b]);
        }
    }
}

#[test]
fn listing_membership() {
    let listing = vec!["a".to_string(), "b.txt".to_string()];
    assert!(is_listed(&listing, "a"));
    assert!(is_listed(&listing, "b.txt"));
    assert!(!is_listed(&listing, "b"));
    assert!(!is_listed(&Vec::new(), "a"));
}

#[test]
fn search_probes_one_path_after_the_other() {
    let mut search = PlacementSearch::new("/out", "report.txt");
    assert_eq!(search.attempt, 0);
    assert_eq!(search.file_name(), "report.txt");
    assert_eq!(search.target(), "/out/report.txt");
    assert!(search.advance());
    assert_eq!(search.target(), "/out/report (1).txt");
    assert!(search.advance());
    assert_eq!(search.file_name(), "report (2).txt");
    assert_eq!(search.folder, "/out");
    assert_eq!(search.name, "report.txt");
}

#[test]
fn search_stops_when_attempts_are_used_up() {
    let mut search = PlacementSearch {
        folder: "/out".to_string(),
        name: "a".to_string(),
        attempt: u64::MAX - 1,
    };
    assert!(search.advance());
    assert_eq!(search.attempt, u64::MAX);
    assert!(!search.advance());
    assert_eq!(search.attempt, u64::MAX);
    assert_eq!(search.target(), "/out/a (18446744073709551615)");
}

#[test]
fn move_starts_at_the_files_own_name() {
    let search = organize_file_to_destination(Some("a.pdf"), "/docs", None).unwrap();
    assert_eq!(
        search,
        PlacementSearch { folder: "/docs".to_string(), name: "a.pdf".to_string(), attempt: 0 }
    );
    assert_eq!(search.target(), "/docs/a.pdf");
}

#[test]
fn move_under_a_new_name() {
    let search = organize_file_to_destination(Some("a.pdf"), "/docs", Some("b.pdf")).unwrap();
    assert_eq!(search.target(), "/docs/b.pdf");
    let unnamed = organize_file_to_destination(Some("a.pdf"), "/docs", Some("")).unwrap();
    assert_eq!(unnamed.target(), "/docs/a.pdf");
}

#[test]
fn move_of_a_path_without_file_name_fails() {
    assert_eq!(
        organize_file_to_destination(None, "/docs", None),
        Err(OrganizeError::InvalidFileName)
    );
    assert_eq!(
        organize_file_to_destination(None, "/docs", Some("b.pdf")),
        Err(OrganizeError::InvalidFileName)
    );
}

#[test]
fn organize_by_rules_finds_the_destination() {
    let rule = Rule {
        name: None,
        condition: RuleCondition::FileType { value: "pdf".to_string() },
        destination: "/docs".to_string(),
    };
    let config = Config { rules: vec![rule], ..Config::default() };
    assert_eq!(organize_file(Some("a.PDF"), &config), Ok("/docs".to_string()));
    assert_eq!(
        organize_file(Some("a.txt"), &config),
        Err(OrganizeError::NoMatchingRule { file_name: "a.txt".to_string() })
    );
    assert_eq!(
        organize_file(None, &config),
        Err(OrganizeError::NoMatchingRule { file_name: String::new() })
    );
}

#[test]
fn errors_in_words() {
    assert_eq!(
        OrganizeError::NoMatchingRule { file_name: "a.txt".to_string() }.message(),
        "No matching rule found for file: a.txt"
    );
    assert_eq!(
        OrganizeError::CreateFolder { detail: "denied".to_string() }.message(),
        "Failed to create destination folder: denied"
    );
    assert_eq!(OrganizeError::InvalidFileName.message(), "Invalid file name");
    assert_eq!(
        OrganizeError::Rename { detail: "cross-device".to_string() }.message(),
        "Failed to move file: cross-device"
    );
    assert_eq!(OrganizeError::NoFreeName.message(), "No free name in destination folder");
}

#[test]
fn paths_are_joined_as_the_system_joins_them() {
    let folders = ["/docs", "/docs/", "", "/", "rel/dir", "a//"];
    let names = ["a.pdf", "report (1).txt", "", "/abs/x", "sub/x", ".hidden"];
    for folder in folders {
        for name in names {
            let joined = std::path::Path::new(folder).join(name);
            assert_eq!(Some(join_path(folder, name).as_str()), joined.to_str());
        }
    }
}
