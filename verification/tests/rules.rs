use folder_watcher::config::{Config, Rule, RuleCondition};
use folder_watcher::pattern::{
    file_type_accepts, file_type_verdict, name_accepts, wildcard_expression, wildcard_verdict,
};
use folder_watcher::text::{contains_char, contains_text, same_text, to_chars};
use std::path::PathBuf;

fn file_type(value: &str, destination: &str) -> Rule {
    Rule {
        name: None,
        condition: RuleCondition::FileType { value: value.to_string() },
        destination: destination.to_string(),
    }
}

fn name_rule(pattern: &str, destination: &str) -> Rule {
    Rule {
        name: Some(pattern.to_string()),
        condition: RuleCondition::Name { pattern: pattern.to_string() },
        destination: destination.to_string(),
    }
}

fn config_with(rules: Vec<Rule>) -> Config {
    Config { rules, ..Config::default() }
}

fn destination(config: &Config, extension: &str, name: &str) -> Option<String> {
    config.get_destination_folder(&PathBuf::from(name), extension, name, None)
}

#[test]
fn pdf_rule_sends_pdf_to_docs() {
    let config = config_with(vec![file_type("pdf", "/docs")]);
    assert_eq!(destination(&config, "pdf", "a.pdf"), Some("/docs".to_string()));
    assert_eq!(config.destination_of("pdf", "a.pdf"), Some("/docs".to_string()));
    assert_eq!(config.destination_for_file(Some("a.pdf")), Some("/docs".to_string()));
}

#[test]
fn no_rule_means_no_destination() {
    let config = config_with(vec![file_type("pdf", "/docs")]);
    assert_eq!(destination(&config, "txt", "a.txt"), None);
    assert_eq!(destination(&config_with(vec![]), "pdf", "a.pdf"), None);
    assert_eq!(config.destination_for_file(Some("x.unknown")), None);
    assert_eq!(config.destination_for_file(None), None);
}

#[test]
fn first_of_two_overlapping_rules_wins() {
    let both = vec![name_rule("report", "/reports"), file_type("pdf", "/docs")];
    let config = config_with(both);
    assert_eq!(destination(&config, "pdf", "report.pdf"), Some("/reports".to_string()));
    assert_eq!(destination(&config, "pdf", "invoice.pdf"), Some("/docs".to_string()));

    let swapped = config_with(vec![file_type("pdf", "/docs"), name_rule("report", "/reports")]);
    assert_eq!(destination(&swapped, "pdf", "report.pdf"), Some("/docs".to_string()));
    assert_eq!(destination(&swapped, "txt", "report.txt"), Some("/reports".to_string()));
}

#[test]
fn rule_without_destination_is_passed_over() {
    let config = config_with(vec![file_type("pdf", ""), file_type("*", "/all")]);
    assert_eq!(destination(&config, "pdf", "a.pdf"), Some("/all".to_string()));
    let only_empty = config_with(vec![file_type("pdf", "")]);
    assert_eq!(destination(&only_empty, "pdf", "a.pdf"), None);
}

#[test]
fn file_type_ignores_case() {
    assert!(file_type_accepts("PDF", "pdf"));
    assert!(file_type_accepts("pdf", "PDF"));
    assert!(file_type_accepts("Jpg", "jPG"));
    assert!(!file_type_accepts("pdf", "txt"));
    assert!(!file_type_accepts("pdf", ""));
    assert!(file_type_accepts("", ""));
}

#[test]
fn file_type_star_accepts_every_file() {
    assert!(file_type_accepts("*", "pdf"));
    assert!(file_type_accepts("*", "other"));
    assert!(file_type_accepts("*", ""));
    assert!(!file_type_accepts("**", "pdf"));
}

#[test]
fn file_type_verdict_goes_by_the_lowered_texts() {
    assert!(file_type_verdict("PDF", "pdf", "pdf"));
    assert!(!file_type_verdict("PDF", "PDF", "pdf"));
    assert!(file_type_verdict("*", "*", "pdf"));
    assert!(!file_type_verdict("x", "*", "pdf"));
}

#[test]
fn name_without_wildcard_is_a_substring_test() {
    assert!(name_accepts("report", "annual-report-2024.pdf"));
    assert!(name_accepts("report", "report"));
    assert!(!name_accepts("report", "repor"));
    assert!(!name_accepts("Report", "report.txt"));
    assert!(name_accepts("", "anything"));
    assert!(name_accepts(".txt", "a.txt.bak"));
}

#[test]
fn name_with_wildcard_matches_the_whole_name() {
    assert!(name_accepts("report*", "report-2024.pdf"));
    assert!(name_accepts("report*", "report"));
    assert!(!name_accepts("report*", "my-report.pdf"));
    assert!(name_accepts("*report*", "my-report.pdf"));
    assert!(name_accepts("*.txt", "notes.txt"));
    assert!(!name_accepts("*.txt", "notes.txt.bak"));
    assert!(name_accepts("a*b*c", "a--b--c"));
    assert!(!name_accepts("a*b*c", "a--c--b"));
    assert!(name_accepts("*", ""));
    assert!(name_accepts("*", "whatever"));
}

#[test]
fn wildcard_takes_other_characters_literally() {
    assert!(!name_accepts("*.txt", "notestxt"));
    assert!(!name_accepts("*.txt", "notes-txt"));
    assert!(name_accepts("a+b*", "a+b.doc"));
    assert!(!name_accepts("a+b*", "aab.doc"));
    assert!(name_accepts("(1)*", "(1) copy"));
    assert!(name_accepts("[x]*", "[x] y"));
    assert!(!name_accepts("[x]*", "x y"));
    assert!(name_accepts("what?*", "what?.txt"));
    assert!(!name_accepts("what?*", "wha.txt"));
}

#[test]
fn wildcard_stands_for_line_breaks_too() {
    assert!(name_accepts("a*b", "a\nb"));
    assert!(name_accepts("*", "\n"));
}

#[test]
fn wildcard_expression_is_anchored_and_escaped() {
    assert_eq!(wildcard_expression("*.txt"), "^(?s:.*)\\.txt$");
    assert_eq!(wildcard_expression("report*"), "^report(?s:.*)$");
    assert_eq!(wildcard_expression("a.b*c+d"), "^a\\.b(?s:.*)c\\+d$");
    assert_eq!(wildcard_expression(""), "^$");
    assert_eq!(wildcard_expression("**"), "^(?s:.*)(?s:.*)$");
    assert_eq!(wildcard_expression("\\^$#&-~"), "^\\\\\\^\\$\\#\\&\\-\\~$");
    assert_eq!(wildcard_expression("(x)|[y]{z}?"), "^\\(x\\)\\|\\[y\\]\\{z\\}\\?$");
    assert_eq!(wildcard_expression("é%/!"), "^é%/!$");
}

#[test]
fn wildcard_verdict_falls_back_to_substring() {
    assert!(wildcard_verdict(Some(true), "a*", "zzz"));
    assert!(!wildcard_verdict(Some(false), "a*", "a*"));
    assert!(wildcard_verdict(None, "a*", "xa*x"));
    assert!(!wildcard_verdict(None, "a*", "abc"));
}

#[test]
fn created_date_accepts_nothing() {
    let rule = Rule {
        name: None,
        condition: RuleCondition::CreatedDate {
            operator: "before".to_string(),
            value: "2030-01-01".to_string(),
        },
        destination: "/old".to_string(),
    };
    let now = Some(std::time::SystemTime::now());
    assert!(!rule.matches(&PathBuf::from("a.pdf"), "pdf", "a.pdf", now));
    assert!(!rule.matches(&PathBuf::from("a.pdf"), "pdf", "a.pdf", None));
    assert!(!rule.accepts("pdf", "a.pdf"));
    let config = config_with(vec![rule, file_type("pdf", "/docs")]);
    assert_eq!(destination(&config, "pdf", "a.pdf"), Some("/docs".to_string()));
}

#[test]
fn rule_matches_by_its_condition() {
    let by_type = file_type("PNG", "/img");
    assert!(by_type.matches(&PathBuf::from("/w/a.png"), "png", "a.png", None));
    assert!(!by_type.matches(&PathBuf::from("/w/a.gif"), "gif", "a.gif", None));
    let by_name = name_rule("invoice*", "/inv");
    assert!(by_name.matches(&PathBuf::from("/w/invoice-1.pdf"), "pdf", "invoice-1.pdf", None));
    assert!(!by_name.matches(&PathBuf::from("/w/an-invoice.pdf"), "pdf", "an-invoice.pdf", None));
    assert!(by_type.accepts("png", "a.png"));
}

#[test]
fn rules_see_the_lowered_extension_or_other() {
    let config = config_with(vec![file_type("pdf", "/docs"), file_type("other", "/misc")]);
    assert_eq!(config.destination_for_file(Some("A.PDF")), Some("/docs".to_string()));
    assert_eq!(config.destination_for_file(Some("README")), Some("/misc".to_string()));
    assert_eq!(config.destination_for_file(Some(".bashrc")), Some("/misc".to_string()));
    assert_eq!(config.destination_for_file(None), Some("/misc".to_string()));
    assert_eq!(config.destination_for_file(Some("a.txt")), None);
}

#[test]
fn substring_search() {
    assert!(contains_text("hello world", "lo w"));
    assert!(contains_text("hello", "hello"));
    assert!(contains_text("hello", ""));
    assert!(contains_text("", ""));
    assert!(!contains_text("", "a"));
    assert!(!contains_text("hello", "hello!"));
    assert!(contains_text("aab", "ab"));
    assert!(contains_text("naïve café", "ve c"));
    assert!(!contains_text("abc", "ac"));
}

#[test]
fn character_helpers() {
    assert!(contains_char("a*b", '*'));
    assert!(!contains_char("ab", '*'));
    assert!(!contains_char("", '*'));
    assert_eq!(to_chars("añb"), vec!['a', 'ñ', 'b']);
    assert_eq!(to_chars(""), Vec::new());
    assert!(same_text("auto", "auto"));
    assert!(!same_text("auto", "Auto"));
    assert!(!same_text("auto", "aut"));
}

#[test]
fn substring_search_agrees_with_the_standard_one() {
    let texts = ["", "a", "ab", "aab", "abab", "report.txt", "é", "aé", "éa", "日本語"];
    for hay in texts {
        for needle in texts {
            assert_eq!(contains_text(hay, needle), hay.contains(needle));
        }
    }
}
