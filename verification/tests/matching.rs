use iana_info::fields::{split_line, vec_to_map, FieldMap, RegistryError};
use iana_info::matcher::{
    compare_folded, field_matches, record_matches, record_satisfies, render_line, render_record,
    report_record,
};
use iana_info::text::{chars_of, contains, find, matches_at, same_text, starts_with};

fn strings(items: &[&str]) -> Vec<String> {
    items.iter().map(|s| s.to_string()).collect()
}

fn filter_of(pairs: &[(&str, &str)]) -> FieldMap {
    let mut m = FieldMap::new();
    for (k, v) in pairs {
        m.insert(k.to_string(), v.to_string());
    }
    m
}

#[test]
fn chars_of_keeps_every_character() {
    assert_eq!(chars_of("aé%"), vec!['a', 'é', '%']);
    assert_eq!(chars_of(""), Vec::<char>::new());
}

#[test]
fn matches_at_checks_bounds_and_content() {
    let s = chars_of("Type: language");
    assert!(matches_at(&s, &chars_of(": "), 4));
    assert!(!matches_at(&s, &chars_of(": "), 3));
    assert!(!matches_at(&s, &chars_of("e"), 14));
    assert!(matches_at(&s, &chars_of(""), 14));
    assert!(!matches_at(&s, &chars_of(""), 15));
}

#[test]
fn find_gives_the_first_occurrence() {
    assert_eq!(find(&chars_of("a: b: c"), &chars_of(": ")), Some(1));
    assert_eq!(find(&chars_of("abc"), &chars_of(": ")), None);
    assert_eq!(find(&chars_of("abc"), &chars_of("")), Some(0));
    assert_eq!(find(&chars_of(""), &chars_of("")), Some(0));
    assert_eq!(find(&chars_of("ab: "), &chars_of(": ")), Some(2));
}

#[test]
fn contains_and_starts_with() {
    assert!(contains(&chars_of("EXTLANGUAGE"), &chars_of("LANG")));
    assert!(!contains(&chars_of("EXT"), &chars_of("LANG")));
    assert!(starts_with("%% more", "%%"));
    assert!(!starts_with("%", "%%"));
    assert!(starts_with("abc", ""));
    assert!(same_text("abc", "abc"));
    assert!(!same_text("abc", "abd"));
    assert!(!same_text("abc", "ab"));
    assert!(!same_text("ab", "abc"));
}

#[test]
fn split_line_splits_at_the_first_delimiter() {
    assert_eq!(
        split_line("Description: a: b"),
        Some(("Description".to_string(), "a: b".to_string()))
    );
    assert_eq!(split_line("Comments: "), Some(("Comments".to_string(), "".to_string())));
    assert_eq!(split_line(": x"), Some(("".to_string(), "x".to_string())));
    assert_eq!(split_line("no delimiter:here"), None);
    assert_eq!(split_line(""), None);
}

#[test]
fn fold_merges_repeated_fields() {
    let record = strings(&["Description: a", "Description: b"]);
    let m = vec_to_map(&record).unwrap();
    assert_eq!(m.len(), 1);
    assert_eq!(
        m.get(&"Description".to_string()),
        Some(&"a ::<sep_tzu>:: b".to_string())
    );
    let filter = filter_of(&[("Description", "b")]);
    assert_eq!(record_matches(&record, &filter), Ok(true));
}

#[test]
fn fold_keeps_distinct_fields_apart() {
    let record = strings(&["Type: language", "Subtag: fr", "Description: French"]);
    let m = vec_to_map(&record).unwrap();
    assert_eq!(m.len(), 3);
    assert_eq!(m.get(&"Type".to_string()), Some(&"language".to_string()));
    assert_eq!(m.get(&"Subtag".to_string()), Some(&"fr".to_string()));
    assert_eq!(m.get(&"Missing".to_string()), None);
    assert_eq!(m.entry(0).unwrap().name, "Type");
    assert_eq!(m.entry(2).unwrap().value, "French");
    assert!(m.entry(3).is_none());
    assert!(!m.is_empty());
}

#[test]
fn fold_of_three_values_joins_in_order() {
    let record = strings(&["Prefix: a", "Tag: t", "Prefix: b", "Prefix: c"]);
    let m = vec_to_map(&record).unwrap();
    assert_eq!(
        m.get(&"Prefix".to_string()),
        Some(&"a ::<sep_tzu>:: b ::<sep_tzu>:: c".to_string())
    );
    assert_eq!(m.len(), 2);
}

#[test]
fn fold_rejects_a_line_without_delimiter() {
    let record = strings(&["Type: language", "broken"]);
    assert_eq!(vec_to_map(&record).err(), Some(RegistryError::MalformedLine));
    assert!(vec_to_map(&Vec::new()).unwrap().is_empty());
}

#[test]
fn insert_replaces_a_value() {
    let mut m = FieldMap::new();
    assert!(m.is_empty());
    m.insert("Type".to_string(), "=language".to_string());
    m.insert("Subtag".to_string(), "fr".to_string());
    m.insert("Type".to_string(), "=region".to_string());
    assert_eq!(m.len(), 2);
    assert_eq!(m.get(&"Type".to_string()), Some(&"=region".to_string()));
    assert_eq!(m.get(&"Subtag".to_string()), Some(&"fr".to_string()));
}

#[test]
fn exact_and_substring_patterns() {
    let language = strings(&["Type: language"]);
    let extlanguage = strings(&["Type: extlanguage"]);
    let exact = filter_of(&[("Type", "=language")]);
    let part = filter_of(&[("Type", "lang")]);
    assert_eq!(record_matches(&language, &exact), Ok(true));
    assert_eq!(record_matches(&extlanguage, &exact), Ok(false));
    assert_eq!(record_matches(&language, &part), Ok(true));
    assert_eq!(record_matches(&extlanguage, &part), Ok(true));
}

#[test]
fn patterns_ignore_case() {
    assert!(field_matches("fr", "FR"));
    assert!(field_matches("Fr", "FR"));
    assert!(field_matches("FR", "fr"));
    assert!(field_matches("fr", "=FR"));
    assert!(field_matches("French", "=fRENCH"));
    assert!(!field_matches("French", "=fren"));
    assert!(field_matches("French", "REN"));
    assert!(!field_matches("French", "german"));
    assert!(field_matches("anything", ""));
    assert!(field_matches("", "="));
    assert!(!field_matches("x", "="));
}

#[test]
fn compare_folded_is_case_sensitive() {
    assert!(compare_folded("FRENCH", "FRENCH", true));
    assert!(!compare_folded("FRENCH", "French", true));
    assert!(!compare_folded("FRENCH", "FREN", true));
    assert!(compare_folded("FRENCH", "FREN", false));
    assert!(!compare_folded("FRENCH", "fren", false));
}

#[test]
fn substring_may_span_joined_values() {
    let record = strings(&["Description: a", "Description: b"]);
    let filter = filter_of(&[("Description", "a ::<sep_tzu>:: b")]);
    assert_eq!(record_matches(&record, &filter), Ok(true));
    let exact = filter_of(&[("Description", "=a ::<SEP_TZU>:: b")]);
    assert_eq!(record_matches(&record, &exact), Ok(true));
}

#[test]
fn every_filter_field_must_hold() {
    let record = strings(&["Type: language", "Subtag: fr", "Description: French"]);
    assert_eq!(
        record_matches(&record, &filter_of(&[("Type", "=language"), ("Subtag", "fr")])),
        Ok(true)
    );
    assert_eq!(
        record_matches(&record, &filter_of(&[("Type", "=language"), ("Subtag", "de")])),
        Ok(false)
    );
    assert_eq!(
        record_matches(&record, &filter_of(&[("Type", "=language"), ("Scope", "")])),
        Ok(false)
    );
    assert_eq!(
        record_matches(&record, &filter_of(&[("Scope", "macro")])),
        Ok(false)
    );
    assert_eq!(record_matches(&record, &FieldMap::new()), Ok(true));
    let folded = vec_to_map(&record).unwrap();
    assert!(record_satisfies(&folded, &filter_of(&[("Description", "ench")])));
    assert!(!record_satisfies(&folded, &filter_of(&[("Tag", "fr")])));
}

#[test]
fn matching_a_malformed_record_fails() {
    let record = strings(&["Type language"]);
    assert_eq!(
        record_matches(&record, &filter_of(&[("Type", "x")])),
        Err(RegistryError::MalformedLine)
    );
    assert_eq!(
        report_record(&record, &filter_of(&[("Type", "x")]), false),
        Err(RegistryError::MalformedLine)
    );
    assert_eq!(render_record(&record, false), Err(RegistryError::MalformedLine));
    assert_eq!(render_line("Type language", true), Err(RegistryError::MalformedLine));
}

#[test]
fn rendering_plain_and_coloured() {
    assert_eq!(render_line("Subtag: fr", false), Ok("  Subtag: fr".to_string()));
    assert_eq!(
        render_line("Subtag: fr", true),
        Ok("  \x1b[93mSubtag:\x1b[m fr".to_string())
    );
    assert_eq!(render_line("A: b: c", false), Ok("  A: b: c".to_string()));
    let record = strings(&["Type: language", "Subtag: fr"]);
    assert_eq!(
        render_record(&record, false),
        Ok(strings(&["%%", "  Type: language", "  Subtag: fr"]))
    );
    assert_eq!(
        render_record(&record, true),
        Ok(strings(&["%%", "  \x1b[93mType:\x1b[m language", "  \x1b[93mSubtag:\x1b[m fr"]))
    );
    assert_eq!(render_record(&Vec::new(), false), Ok(strings(&["%%"])));
}

#[test]
fn report_shows_only_matching_records() {
    let record = strings(&["Type: language", "Subtag: fr"]);
    assert_eq!(
        report_record(&record, &filter_of(&[("Subtag", "FR")]), false),
        Ok(strings(&["%%", "  Type: language", "  Subtag: fr"]))
    );
    assert_eq!(
        report_record(&record, &filter_of(&[("Subtag", "de")]), false),
        Ok(Vec::<String>::new())
    );
}

#[test]
fn folded_names_keep_their_first_order() {
    let record = strings(&["B: 1", "A: 2", "B: 3", "C: 4", "A: 5"]);
    let m = vec_to_map(&record).unwrap();
    assert_eq!(m.len(), 3);
    assert_eq!(m.entry(0).unwrap().name, "B");
    assert_eq!(m.entry(0).unwrap().value, "1 ::<sep_tzu>:: 3");
    assert_eq!(m.entry(1).unwrap().name, "A");
    assert_eq!(m.entry(1).unwrap().value, "2 ::<sep_tzu>:: 5");
    assert_eq!(m.entry(2).unwrap().name, "C");
    assert_eq!(m.entry(2).unwrap().value, "4");
}

#[test]
fn case_folding_goes_beyond_ascii() {
    assert!(field_matches("Español", "ESPAÑOL"));
    assert!(field_matches("ESPAÑOL", "=español"));
    assert!(field_matches("Norwegian Bokmål", "bokmÅl"));
    assert!(field_matches("straße", "STRASSE"));
}
