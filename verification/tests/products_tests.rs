use rbxmonet::diffs::{DiffChange, ProductDiff};
use rbxmonet::products::{normalize_slug_keys, CodegenStyle, Metadata, Product, ProductMap};

fn product(name: &str) -> Product {
    Product {
        id: Some(1),
        name: name.to_string(),
        prefix: None,
        description: Some("desc".to_string()),
        active: true,
        discount: None,
        price: 100,
        regional_pricing: None,
        icon: None,
        icon_id: None,
        icon_hash: None,
        path: None,
    }
}

fn metadata(prefix: Option<&str>) -> Metadata {
    Metadata { universe_id: 9946763161, discount_prefix: prefix.map(|s| s.to_string()), name_filters: None }
}

#[test]
fn default_codegen_style_is_flat() {
    assert_eq!(CodegenStyle::default(), CodegenStyle::Flat);
}

#[test]
fn discount_is_in_effect_only_above_zero() {
    let mut p = product("V.I.P");
    assert!(!p.has_discount());
    p.discount = Some(0);
    assert!(!p.has_discount());
    p.discount = Some(10);
    assert!(p.has_discount());
}

#[test]
fn title_uses_prefix_without_discount() {
    let mut p = product("V.I.P");
    assert_eq!(p.get_title(), "V.I.P");
    p.prefix = Some("[NEW]".to_string());
    assert_eq!(p.get_title(), "[NEW] V.I.P");
    p.discount = Some(10);
    assert_eq!(p.get_title(), "V.I.P");
}

#[test]
fn no_diff_when_remote_agrees() {
    let local = product("V.I.P");
    let remote = product("V.I.P");
    assert!(local.diff(&remote, None, 100).is_none());
}

#[test]
fn diff_lists_every_field_and_marks_changes() {
    let local = product("V.I.P");
    let mut remote = product("VIP");
    remote.price = 120;
    remote.regional_pricing = Some(true);
    let d = local.diff(&remote, None, 100).unwrap();
    assert_eq!(d.name, "V.I.P");
    assert_eq!(d.id, 1);
    assert_eq!(d.diffs.len(), 5);
    assert!(matches!(&d.diffs[0], DiffChange::Changed(ProductDiff::Title(o, n)) if o == "VIP" && n == "V.I.P"));
    assert!(matches!(&d.diffs[1], DiffChange::Unchanged(ProductDiff::Description(_, _))));
    assert!(matches!(&d.diffs[2], DiffChange::Changed(ProductDiff::Price(120, 100))));
    assert!(matches!(&d.diffs[3], DiffChange::Changed(ProductDiff::RegionalPricing(true, false))));
    assert!(matches!(&d.diffs[4], DiffChange::Unchanged(ProductDiff::Active(true, true))));
}

#[test]
fn diff_title_formats_the_discount_prefix() {
    let mut local = product("V.I.P");
    local.discount = Some(10);
    let mut remote = product("💲10% OFF💲 V.I.P");
    remote.price = 90;
    let meta = metadata(Some("💲{}% OFF💲"));
    assert!(local.diff(&remote, Some(&meta), 90).is_none());
    let other_meta = metadata(Some("SALE {}!"));
    let d = local.diff(&remote, Some(&other_meta), 90).unwrap();
    assert!(matches!(&d.diffs[0], DiffChange::Changed(ProductDiff::Title(_, n)) if n == "SALE 10! V.I.P"));
}

#[test]
fn discount_prefix_braces_follow_dyn_fmt() {
    let mut local = product("VIP");
    local.discount = Some(10);
    let remote = product("VIP");
    let meta = metadata(Some("{{{}}}"));
    let d = local.diff(&remote, Some(&meta), 100).unwrap();
    assert!(matches!(&d.diffs[0], DiffChange::Changed(ProductDiff::Title(_, n)) if n == "{10} VIP"));
}

#[test]
fn zero_discount_leaves_the_title_alone() {
    let mut local = product("VIP");
    local.discount = Some(0);
    local.description = Some(String::new());
    let mut remote = product("VIP");
    remote.discount = None;
    remote.description = Some(String::new());
    let meta = metadata(Some("💲{}% OFF💲"));
    assert!(local.diff(&remote, Some(&meta), 100).is_none());
}

#[test]
fn missing_local_description_compares_as_empty() {
    let mut local = product("A");
    local.description = None;
    let mut remote = product("A");
    remote.description = Some(String::new());
    assert!(local.diff(&remote, None, 100).is_none());
}

#[test]
fn section_reads_back_what_was_written() {
    let mut m = ProductMap::new();
    m.insert("vip".to_string(), product("V.I.P"));
    m.insert("gold".to_string(), product("Gold"));
    assert_eq!(m.len(), 2);
    assert_eq!(m.get("vip").unwrap().name, "V.I.P");
    m.insert("vip".to_string(), product("VIP 2"));
    assert_eq!(m.len(), 2);
    assert_eq!(m.get("vip").unwrap().name, "VIP 2");
    assert_eq!(m.get("gold").unwrap().name, "Gold");
    assert_eq!(m.key_at(0), "vip");
    assert_eq!(m.position("gold"), Some(1));
    let removed = m.remove("vip").unwrap();
    assert_eq!(removed.name, "VIP 2");
    assert!(m.get("vip").is_none());
    assert!(!m.contains_key("vip"));
    assert_eq!(m.get("gold").unwrap().name, "Gold");
    assert!(m.remove("vip").is_none());
}

#[test]
fn dashed_slugs_become_snake_case() {
    let mut m = ProductMap::new();
    m.insert("starter-pack".to_string(), product("Starter"));
    m.insert("vip".to_string(), product("VIP"));
    m.insert("gold-pass".to_string(), product("Gold dashed"));
    m.insert("gold_pass".to_string(), product("Gold snake"));
    normalize_slug_keys(&mut m);
    assert_eq!(m.len(), 4);
    assert_eq!(m.get("starter_pack").unwrap().name, "Starter");
    assert!(m.get("starter-pack").is_none());
    assert_eq!(m.get("vip").unwrap().name, "VIP");
    assert_eq!(m.get("gold-pass").unwrap().name, "Gold dashed");
    assert_eq!(m.get("gold_pass").unwrap().name, "Gold snake");
}
