use fdn::compare::fname_compare;
use fdn::config::{config_add, config_delete};
use fdn::decode::{previous_name, NameError};
use fdn::engine::{compute_target_name, finish_name, substitute_stem};
use fdn::ledger::{chain_continues, Ledger, Record, MAX_CHAIN};
use fdn::paths::{dir_base, directory_order, is_hidden, without_excluded};
use fdn::rules::{Rules, Separator, TermWord, ToSepWord};
use fdn::{
    fdn_target, remove_continuous, remove_prefix_sep_suffix_sep, selected, should_apply,
    stem_ext, targets_for, LengthMismatch,
};

fn rules_with(to_sep: &[&str], terms: &[(&str, &str)]) -> Rules {
    let mut r = Rules::new();
    for (i, w) in to_sep.iter().enumerate() {
        r.to_sep_words.push(ToSepWord::new(i as i32 + 1, w.to_string()));
    }
    for (i, (k, v)) in terms.iter().enumerate() {
        r.term_words.push(TermWord::new(i as i32 + 1, k.to_string(), v.to_string()));
    }
    r
}

#[test]
fn test_remove_xfix_sep() {
    let sep = "_";
    let s = "_PDFScholar_";
    assert!(s.starts_with(sep));
    assert!(s.ends_with(sep));
    let t = "PDFScholar";
    assert_eq!(remove_prefix_sep_suffix_sep(s, sep), t);
}

#[test]
fn test_stem_ext() {
    let p = "stem.ext";
    let (s, e) = stem_ext(p);
    assert!(s.eq("stem"));
    assert!(e.eq("ext"));
}

#[test]
fn test_remove_continuous() {
    let src = "A_B__C___D_.txt";
    let sep = "_";
    let tgt = "A_B_C_D_.txt";
    assert_eq!(remove_continuous(src, sep).unwrap(), tgt);
}

#[test]
fn space_becomes_separator() {
    let r = rules_with(&[" "], &[]);
    assert_eq!(compute_target_name("My File", false, &r).unwrap(), "My_File");
    assert_eq!(compute_target_name("My File.txt", true, &r).unwrap(), "My_File.txt");
}

#[test]
fn repeated_separators_collapse() {
    let r = Rules::new();
    assert_eq!(compute_target_name("A__b", false, &r).unwrap(), "A_b");
    assert_eq!(remove_continuous("A__b", "_").unwrap(), "A_b");
}

#[test]
fn collapse_ignores_ascii_case() {
    assert_eq!(remove_continuous("xSEPsepy", "sep").unwrap(), "xsepy");
    assert_eq!(remove_continuous("a-b", "-").unwrap(), "a-b");
}

#[test]
fn outer_separators_stripped_once() {
    let r = Rules::new();
    assert_eq!(compute_target_name("_Name_", false, &r).unwrap(), "Name");
    assert_eq!(remove_prefix_sep_suffix_sep("__x__", "_"), "_x_");
}

#[test]
fn term_words_replace_every_occurrence() {
    let r = rules_with(&[], &[("foo", "bar")]);
    assert_eq!(compute_target_name("foofoo.txt", true, &r).unwrap(), "barbar.txt");
}

#[test]
fn directories_keep_dots() {
    let r = rules_with(&[" "], &[]);
    assert_eq!(compute_target_name("a b.c d", false, &r).unwrap(), "a_b.c_d");
    assert_eq!(compute_target_name("a b.c d", true, &r).unwrap(), "a_b.c d");
}

#[test]
fn unchanged_name_is_kept() {
    let r = rules_with(&[" "], &[("foo", "bar")]);
    assert_eq!(compute_target_name("plain.txt", true, &r).unwrap(), "plain.txt");
    let once = compute_target_name("_My  foo file_.txt", true, &r).unwrap();
    assert_eq!(once, "My_bar_file.txt");
    assert_eq!(compute_target_name(&once, true, &r).unwrap(), once);
}

#[test]
fn interacting_rules_terminate() {
    let r = rules_with(&["ab"], &[("_", "ab")]);
    assert_eq!(compute_target_name("xaby", false, &r).unwrap(), "xaby");
}

#[test]
fn growing_rule_stops_at_pass_limit() {
    let r = rules_with(&[], &[("a", "aa")]);
    let out = compute_target_name("a", false, &r).unwrap();
    assert_eq!(out.len(), 8192);
}

#[test]
fn explicit_target_is_verbatim() {
    let r = rules_with(&[" "], &[]);
    assert_eq!(fdn_target("a b", false, &r, Some("x  y".to_string())).unwrap(), "x  y");
    assert_eq!(fdn_target("a b", false, &r, None).unwrap(), "a_b");
}

#[test]
fn lowest_separator_id_wins() {
    let mut r = rules_with(&[" "], &[]);
    r.separators.push(Separator::new(5, "-".to_string()));
    r.separators.push(Separator::new(2, "+".to_string()));
    r.separators.push(Separator::new(9, "=".to_string()));
    assert_eq!(r.active_separator(), "+");
    assert_eq!(compute_target_name("a b", false, &r).unwrap(), "a+b");
    assert_eq!(Rules::new().active_separator(), "_");
}

#[test]
fn child_directory_before_parent() {
    let v = vec!["/r/a/b".to_string(), "/r/a".to_string()];
    assert_eq!(directory_order(&v), v);
    let w = vec!["/r/a".to_string(), "/r/a/b".to_string(), "/r/c".to_string(), "/r".to_string()];
    assert_eq!(directory_order(&w), vec!["/r/c", "/r/a/b", "/r/a", "/r"]);
}

#[test]
fn excluded_paths_are_dropped() {
    let v = vec!["/r/a".to_string(), "/r/ab".to_string(), "/r/a/b".to_string()];
    let ex = vec!["/r/a".to_string()];
    assert_eq!(without_excluded(&v, &ex), vec!["/r/ab"]);
    assert_eq!(without_excluded(&v, &Vec::new()), v);
}

#[test]
fn splits_directory_and_base() {
    let d = dir_base("/r/a").unwrap();
    assert_eq!((d.dir.as_str(), d.base.as_str()), ("/r", "a"));
    let d = dir_base("/a").unwrap();
    assert_eq!((d.dir.as_str(), d.base.as_str()), ("/", "a"));
    let d = dir_base("a").unwrap();
    assert_eq!((d.dir.as_str(), d.base.as_str()), ("", "a"));
    let d = dir_base("/r/a/").unwrap();
    assert_eq!((d.dir.as_str(), d.base.as_str()), ("/r", "a"));
    assert!(dir_base("/").is_none());
    assert!(dir_base("/r/..").is_none());
}

#[test]
fn hidden_entries() {
    assert!(is_hidden("/r/.git"));
    assert!(!is_hidden("/r.d/git"));
    assert!(!selected("/r/.git", false));
    assert!(selected("/r/.git", true));
    assert!(selected("/r/git", false));
}

#[test]
fn stem_and_extension() {
    assert_eq!(stem_ext(".bashrc"), (".bashrc".to_string(), String::new()));
    assert_eq!(stem_ext("a.tar.gz"), ("a.tar".to_string(), "gz".to_string()));
    assert_eq!(stem_ext("noext"), ("noext".to_string(), String::new()));
}

#[test]
fn compare_plain_and_aligned() {
    assert_eq!(fname_compare("ab.txt", "abcd.md", ""), ("ab.txt".to_string(), "abcd.md".to_string()));
    assert_eq!(
        fname_compare("ab.txt", "abcd.md", "a"),
        ("ab  .txt".to_string(), "abcd.md ".to_string())
    );
}

#[test]
fn forward_record_resolves_back() {
    let mut l = Ledger::new();
    let r = Record::new("h_new".to_string(), "c_old".to_string());
    assert_eq!(r.count, 1);
    l.insert(r);
    assert_eq!(l.lookup("h_new"), Some(0));
    assert_eq!(l.previous_cipher("h_new"), Some("c_old".to_string()));
    assert_eq!(l.previous_cipher("h_other"), None);
}

#[test]
fn chain_walks_back_to_start() {
    let mut l = Ledger::new();
    l.insert(Record::new("h1".to_string(), "c01".to_string()));
    l.insert(Record::new("h2".to_string(), "c12".to_string()));
    assert_eq!(l.previous_cipher("h2"), Some("c12".to_string()));
    assert_eq!(l.previous_cipher("h1"), Some("c01".to_string()));
    assert_eq!(l.previous_cipher("h0"), None);
    assert!(chain_continues(1, true, true));
    assert!(!chain_continues(1, true, false));
    assert!(!chain_continues(1, false, true));
    assert!(!chain_continues(MAX_CHAIN, true, true));
}

#[test]
fn consuming_records() {
    let mut l = Ledger::new();
    l.insert(Record::new("h1".to_string(), "c".to_string()));
    let mut twice = Record::new("h2".to_string(), "d".to_string());
    twice.count = 2;
    l.insert(twice);
    l.consume(1);
    assert_eq!(l.records[1].count, 1);
    l.consume(0);
    assert_eq!(l.records.len(), 1);
    assert_eq!(l.lookup("h1"), None);
    assert_eq!(l.lookup("h2"), Some(0));
}

#[test]
fn latest_record_wins() {
    let mut l = Ledger::new();
    l.insert(Record::new("h".to_string(), "first".to_string()));
    l.insert(Record::new("h".to_string(), "second".to_string()));
    assert_eq!(l.previous_cipher("h"), Some("second".to_string()));
}

#[test]
fn config_words() {
    let mut r = Rules::new();
    config_add(&mut r, 3, "foo:bar:baz");
    config_add(&mut r, 4, " ");
    assert_eq!(r.term_words[0].key, "foo");
    assert_eq!(r.term_words[0].value, "bar:baz");
    assert_eq!(r.to_sep_words[0].value, " ");
    assert_eq!(config_delete(&mut r, "foo:nope"), None);
    assert_eq!(config_delete(&mut r, "foo:bar:baz"), Some(3));
    assert_eq!(config_delete(&mut r, " "), Some(4));
    assert!(r.term_words.is_empty() && r.to_sep_words.is_empty());
}

#[test]
fn batch_targets() {
    assert_eq!(targets_for(2, Vec::new()), Ok(vec![None, None]));
    assert_eq!(
        targets_for(1, vec!["x".to_string()]),
        Ok(vec![Some("x".to_string())])
    );
    assert_eq!(
        targets_for(2, vec!["x".to_string()]),
        Err(LengthMismatch { origins: 2, targets: 1 })
    );
}

#[test]
fn apply_only_changed_names() {
    assert!(should_apply("a b", "a_b", true));
    assert!(!should_apply("a b", "a_b", false));
    assert!(!should_apply("ab", "ab", true));
}

#[test]
fn listing_sorted_by_id() {
    let mut r = Rules::new();
    r.separators.push(Separator::new(2, "_".to_string()));
    r.to_sep_words.push(ToSepWord::new(5, "-".to_string()));
    r.to_sep_words.push(ToSepWord::new(1, " ".to_string()));
    r.term_words.push(TermWord::new(-3, "a".to_string(), "b\n".to_string()));
    let expected = "Separator ID\tValue\tDescription\n          2\t_\tLOW LINE\n\
ToSepWord ID\tValue\tDescription\n          1\t \tSPACE\n          5\t-\tHYPHEN-MINUS\n\
TermWord ID\tKey\tValue\n         -3\ta\tb\\n\n";
    assert_eq!(fdn::config_list(&r), expected);
}

#[test]
fn unicode_names_joined() {
    assert_eq!(fdn::unames("a "), "LATIN SMALL LETTER A,SPACE");
    assert_eq!(fdn::unames(""), "");
}

#[test]
fn previous_name_from_hex() {
    assert_eq!(previous_name("666f6f"), Ok("foo".to_string()));
    assert_eq!(previous_name("66 6F\n6f"), Ok("foo".to_string()));
    assert_eq!(previous_name("C3A9"), Ok("\u{e9}".to_string()));
    assert_eq!(previous_name(""), Ok(String::new()));
    assert_eq!(previous_name("666"), Err(NameError::InvalidHex));
    assert_eq!(previous_name("6g"), Err(NameError::InvalidHex));
    assert_eq!(previous_name("ff"), Err(NameError::InvalidUtf8));
}

#[test]
fn default_separator_is_underscore() {
    let s = Separator::default();
    assert_eq!(s.id, 0);
    assert_eq!(s.value, "_");
}

#[test]
fn substitution_then_finish() {
    let r = rules_with(&[" "], &[("foo", "bar")]);
    assert_eq!(substitute_stem("_a  foo_", &r), "_a__bar_");
    assert_eq!(finish_name("_a_bar_", "_", "x.txt", true), "a_bar.txt");
    assert_eq!(finish_name("_a_bar_", "_", "x.txt", false), "a_bar");
    assert_eq!(finish_name("a", "_", ".bashrc", true), "a");
}

#[test]
fn collapse_takes_separator_literally() {
    assert_eq!(remove_continuous("a...b.c", ".").unwrap(), "a.b.c");
    assert_eq!(remove_continuous("xababy", "ab").unwrap(), "xaby");
}

#[test]
fn long_shrinking_chain_reaches_fixed_point() {
    let r = rules_with(&[], &[("ab", "b")]);
    let name = format!("{}b", "a".repeat(30));
    assert_eq!(compute_target_name(&name, false, &r).unwrap(), "b");
}

#[test]
fn dot_components() {
    assert!(dir_base(".").is_none());
    assert!(dir_base("/.").is_none());
    let d = dir_base("a/.").unwrap();
    assert_eq!((d.dir.as_str(), d.base.as_str()), ("", "a"));
    let d = dir_base("/r/a/./").unwrap();
    assert_eq!((d.dir.as_str(), d.base.as_str()), ("/r", "a"));
    assert!(!is_hidden("."));
    assert!(!is_hidden("a/."));
    assert!(!is_hidden("/r/.cache/x"));
}

#[test]
fn keyed_combination_round_trip() {
    let data = b"old name".to_vec();
    let key = b"new".to_vec();
    let once = fdn::cipher::keystream(&data, &key);
    assert_ne!(once, data);
    assert_eq!(once[0], b'o' ^ b'n');
    assert_eq!(fdn::cipher::keystream(&once, &key), data);
    assert_eq!(fdn::cipher::keystream(&data, &Vec::new()), data);
}

#[test]
fn rules_apply_in_id_order() {
    let mut a = Rules::new();
    a.to_sep_words.push(ToSepWord::new(2, "ab".to_string()));
    a.to_sep_words.push(ToSepWord::new(1, "bc".to_string()));
    let mut b = Rules::new();
    b.to_sep_words.push(ToSepWord::new(1, "bc".to_string()));
    b.to_sep_words.push(ToSepWord::new(2, "ab".to_string()));
    assert_eq!(compute_target_name("abcx", false, &a).unwrap(), "a_x");
    assert_eq!(compute_target_name("abcx", false, &b).unwrap(), "a_x");
}
