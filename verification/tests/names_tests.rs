use rbxmonet::names::{canonical_name, format_name, is_censored, NameFilters};

#[test]
fn format_name_lowercases_and_underscores() {
    assert_eq!(format_name("Starter Pack"), "starter_pack");
    assert_eq!(format_name("V.I.P"), "vip");
    assert_eq!(format_name("  First   Win!  "), "first___win");
}

#[test]
fn format_name_drops_symbols_and_non_ascii() {
    assert_eq!(format_name("💲10% OFF💲 Mega-Bundle"), "10_off_megabundle");
    assert_eq!(format_name("Ünïcode Ümlaut"), "ncode_mlaut");
    assert_eq!(format_name("!!!"), "");
}

#[test]
fn derived_slugs_are_bare_toml_keys() {
    for name in ["Gift [Pack]", "Über Sword 2", "tab\there", "a.b.c", "  x  "] {
        let slug = format_name(name);
        assert!(slug
            .chars()
            .all(|c| c.is_ascii_alphanumeric() || c == '_'));
        assert!(!slug.starts_with('_') || name.trim_start().starts_with('_'));
    }
}

#[test]
fn censored_text_is_only_hashes_and_whitespace() {
    assert!(is_censored("#### ###"));
    assert!(is_censored(""));
    assert!(is_censored("  \t"));
    assert!(!is_censored("### a"));
}

#[test]
fn canonical_name_default_filters() {
    assert_eq!(canonical_name("💲10% OFF💲 V.I.P", &None), "V.I.P");
    assert_eq!(canonical_name("[Gift] Foo", &None), "Foo");
    assert_eq!(canonical_name("Sword™  of   Fire", &None), "Sword of Fire");
}

#[test]
fn canonical_name_empty_filter_list_uses_defaults() {
    let filters = NameFilters::compile(Vec::new()).unwrap();
    assert_eq!(filters.len(), 0);
    assert_eq!(canonical_name("[Gift] Foo", &Some(filters)), "Foo");
}

#[test]
fn canonical_name_custom_filters_replace_defaults() {
    let filters = NameFilters::compile(vec!["BETA".to_string()]).unwrap();
    assert_eq!(filters.patterns(), &vec!["BETA".to_string()]);
    assert_eq!(canonical_name("[Gift] Foo BETA", &Some(filters)), "[Gift] Foo");
}

#[test]
fn invalid_filter_is_reported() {
    let err = NameFilters::compile(vec!["ok".to_string(), "(".to_string()]).unwrap_err();
    assert!(err.starts_with("Invalid regex `(`: "));
}
