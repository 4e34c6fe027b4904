use level_tuning::ident::is_rule_id;
use level_tuning::level::{level_prefix, text_before_hash, Level};
use level_tuning::mapping::{open_error, parse, parse_rows, rows_of_text, MappingError};
use level_tuning::rewrite::{replace_text, rewrite_level};
use level_tuning::rule::rule_field;
use level_tuning::text::{split_text, trim_text};

const ID: &str = "12345678-1234-1234-1234-123456789012";

fn tune(table: &str, rule: &str) -> Option<String> {
    let overrides = parse(table).ok().unwrap();
    let id = rule_field(rule, "id").unwrap();
    let level = rule_field(rule, "level").unwrap();
    let target = overrides.target_for(&id)?;
    Some(rewrite_level(rule, &level, target))
}

#[test]
fn rule_level_failed_to_open_file() {
    let level_tuning_config_path = "./none.txt";
    assert_eq!(
        open_error(level_tuning_config_path),
        "Cannot open file. [file:./none.txt]".to_string()
    );
}

#[test]
fn rule_level_id_error_file() {
    let table = "12345678-1234-1234-1234-12,high\n";
    let res = parse(table).err().unwrap();
    assert_eq!(
        res.message(),
        "Failed to read level tuning file. 12345678-1234-1234-1234-12 is not correct id format, fix it."
            .to_string()
    );
}

#[test]
fn rule_level_level_error_file() {
    let table = "12345678-1234-1234-1234-123456789012,hight\n12345678-1234-1234-1234-123456789013,severe # no such level\n";
    let res = parse(table).err().unwrap();
    assert_eq!(
        res.message(),
        "level tuning file's level must in informational, low, medium, high, critical".to_string()
    );
}

#[test]
fn test_level_tuning_update_rule_files() {
    let table = "12345678-1234-1234-1234-123456789012,high # hold back noisy alerts\n";
    let rule_str = r#"
        id: 12345678-1234-1234-1234-123456789012
        level: informational
        "#;

    let expected_rule = r#"
        id: 12345678-1234-1234-1234-123456789012
        level: high
        "#;
    assert_eq!(tune(table, rule_str), Some(expected_rule.to_string()));
}

#[test]
fn parse_keeps_one_entry_per_identifier() {
    let table = "12345678-1234-1234-1234-123456789012,low\n\
                 abcdef01-2345-6789-abcd-ef0123456789,critical#promote\n\
                 12345678-1234-1234-1234-123456789012,medium # second thoughts\n";
    let m = parse(table).ok().unwrap();
    assert_eq!(m.len(), 2);
    assert_eq!(m.level_text(ID), Some("medium "));
    assert_eq!(m.level_text("abcdef01-2345-6789-abcd-ef0123456789"), Some("critical"));
    assert_eq!(m.target_for(ID), Some(Level::Medium));
    assert_eq!(m.target_for("abcdef01-2345-6789-abcd-ef0123456789"), Some(Level::Critical));
}

#[test]
fn parse_skips_blank_lines_and_extra_fields() {
    let table = "\n  \r\n 12345678-1234-1234-1234-123456789012 , informational , ignored\r\n\n";
    let m = parse(table).ok().unwrap();
    assert_eq!(m.len(), 1);
    assert_eq!(m.level_text(ID), Some("informational"));
    assert_eq!(m.target_for(ID), Some(Level::Informational));
}

#[test]
fn parse_of_empty_text_is_empty_table() {
    let m = parse("").ok().unwrap();
    assert_eq!(m.len(), 0);
    assert_eq!(m.target_for(ID), None);
}

#[test]
fn parse_reports_first_bad_row() {
    let table = "12345678-1234-1234-1234-123456789012,high\nNOT-AN-ID,low\n12345678-1234-1234-1234-123456789012,bogus\n";
    assert!(matches!(parse(table), Err(MappingError::InvalidId(ref s)) if s == "NOT-AN-ID"));
    let table = "12345678-1234-1234-1234-123456789012,bogus\nNOT-AN-ID,low\n";
    assert!(matches!(parse(table), Err(MappingError::InvalidLevel)));
}

#[test]
fn parse_checks_identifier_before_level() {
    let table = "12345678-1234-1234-1234-ABCDEF012345,bogus\n";
    let e = parse(table).err().unwrap();
    assert_eq!(
        e.message(),
        "Failed to read level tuning file. 12345678-1234-1234-1234-ABCDEF012345 is not correct id format, fix it."
            .to_string()
    );
}

#[test]
fn parse_rejects_row_without_level() {
    let table = "12345678-1234-1234-1234-123456789012\n";
    let e = parse(table).err().unwrap();
    assert!(matches!(e, MappingError::MissingLevel));
    assert_eq!(e.message(), "Failed to read level...".to_string());
}

#[test]
fn parse_rows_rejects_row_without_identifier() {
    let rows: Vec<Vec<String>> = vec![vec![]];
    let e = parse_rows(&rows).err().unwrap();
    assert!(matches!(e, MappingError::MissingId));
    assert_eq!(e.message(), "Failed to read id...".to_string());
}

#[test]
fn rows_of_text_splits_and_trims() {
    let rows = rows_of_text("a, b ,c\n\n x \n");
    assert_eq!(
        rows,
        vec![
            vec!["a".to_string(), "b".to_string(), "c".to_string()],
            vec!["x".to_string()]
        ]
    );
}

#[test]
fn identifier_format() {
    assert!(is_rule_id(ID));
    assert!(is_rule_id("0a1b2c3d-4e5f-6a7b-8c9d-0e1f2a3b4c5d"));
    assert!(!is_rule_id("12345678-1234-1234-1234-12"));
    assert!(!is_rule_id("12345678-1234-1234-1234-1234567890123"));
    assert!(!is_rule_id("12345678-1234-1234-1234-12345678901G"));
    assert!(!is_rule_id("12345678_1234-1234-1234-123456789012"));
    assert!(!is_rule_id("123456781-234-1234-1234-123456789012"));
    assert!(!is_rule_id(""));
}

#[test]
fn level_words_match_by_prefix() {
    assert_eq!(level_prefix("informational"), Some(Level::Informational));
    assert_eq!(level_prefix("lowest"), Some(Level::Low));
    assert_eq!(level_prefix("medium # c"), Some(Level::Medium));
    assert_eq!(level_prefix("high"), Some(Level::High));
    assert_eq!(level_prefix("critical!"), Some(Level::Critical));
    assert_eq!(level_prefix("High"), None);
    assert_eq!(level_prefix(" low"), None);
    assert_eq!(level_prefix("lo"), None);
    assert_eq!(level_prefix(""), None);
    assert_eq!(Level::Critical.as_str(), "critical");
}

#[test]
fn text_before_hash_cuts_at_first_hash() {
    assert_eq!(text_before_hash("high # a # b"), "high ");
    assert_eq!(text_before_hash("low"), "low");
    assert_eq!(text_before_hash("#x"), "");
}

#[test]
fn split_and_trim() {
    assert_eq!(split_text("a,,b,", ','), vec!["a", "", "b", ""]);
    assert_eq!(split_text("", ','), vec![""]);
    assert_eq!(trim_text(" \t x y \r"), "x y");
    assert_eq!(trim_text("   "), "");
}

#[test]
fn rewrite_changes_only_the_level_line() {
    let content = "title: t\nlevel: informational\ndescription: level: low\n";
    let out = rewrite_level(content, "informational", Level::High);
    assert_eq!(out, "title: t\nlevel: high\ndescription: level: low\n");
}

#[test]
fn rewrite_replaces_every_occurrence() {
    let out = rewrite_level("level: low\nx\nlevel: low", "low", Level::Critical);
    assert_eq!(out, "level: critical\nx\nlevel: critical");
}

#[test]
fn rewrite_is_a_no_op_without_the_old_line() {
    let content = "id: x\nlevel: 'low'\n";
    assert_eq!(rewrite_level(content, "low", Level::High), content);
    assert_eq!(rewrite_level(content, "medium", Level::High), content);
}

#[test]
fn second_run_changes_nothing() {
    let table = "12345678-1234-1234-1234-123456789012,high\n";
    let rule = "id: 12345678-1234-1234-1234-123456789012\nlevel: informational\n";
    let once = tune(table, rule).unwrap();
    assert_eq!(once, "id: 12345678-1234-1234-1234-123456789012\nlevel: high\n");
    let twice = tune(table, &once).unwrap();
    assert_eq!(twice, once);
}

#[test]
fn rule_without_override_gets_no_target() {
    let table = "12345678-1234-1234-1234-123456789012,high\n";
    let rule = "id: 99999999-1234-1234-1234-123456789012\nlevel: informational\n";
    assert_eq!(tune(table, rule), None);
}

#[test]
fn replace_text_cases() {
    assert_eq!(replace_text("aaaa", "aa", "b"), "bb");
    assert_eq!(replace_text("aaa", "aa", "b"), "ba");
    assert_eq!(replace_text("abc", "", "x"), "abc");
    assert_eq!(replace_text("", "a", "x"), "");
    assert_eq!(replace_text("héllo wörld", "ö", "oe"), "héllo woerld");
}

#[test]
fn rule_field_reads_first_declaration() {
    let rule = "title: t\n  id:   abc  \nlevel:medium\nid: second\n";
    assert_eq!(rule_field(rule, "id"), Some("abc".to_string()));
    assert_eq!(rule_field(rule, "level"), Some("medium".to_string()));
    assert_eq!(rule_field(rule, "status"), None);
}
