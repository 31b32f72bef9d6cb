use rbxmonet::names::NameFilters;
use rbxmonet::persist::{
    auto_confirm, is_truthy, legacy_layout_error, normalize_sections, product_fields, save_plan, to_i64_bits,
    FieldValue, MetaEdit,
};
use rbxmonet::products::{CodegenConfig, CodegenStyle, Metadata, Product, ProductMap, VCSProducts};

fn product(id: Option<u64>) -> Product {
    Product {
        id,
        name: "V.I.P".to_string(),
        prefix: None,
        description: None,
        active: true,
        discount: None,
        price: 199,
        regional_pricing: None,
        icon: None,
        icon_id: Some(4),
        icon_hash: Some("h".to_string()),
        path: None,
    }
}

fn file() -> VCSProducts {
    VCSProducts {
        metadata: Metadata { universe_id: 9946763161, discount_prefix: None, name_filters: None },
        codegen: CodegenConfig {
            output: None,
            style: CodegenStyle::Flat,
            typescript: false,
            paths: Vec::new(),
            extra: Vec::new(),
        },
        passes: ProductMap::new(),
        products: ProductMap::new(),
        badges: ProductMap::new(),
    }
}

fn keys(fields: &[(String, FieldValue)]) -> Vec<&str> {
    fields.iter().map(|(k, _)| k.as_str()).collect()
}

fn strings(v: &[&str]) -> Vec<String> {
    v.iter().map(|s| s.to_string()).collect()
}

#[test]
fn id_bits_wrap_like_as() {
    assert_eq!(to_i64_bits(5), 5);
    assert_eq!(to_i64_bits(u64::MAX), -1);
    assert_eq!(to_i64_bits(1 << 63), i64::MIN);
    assert_eq!(to_i64_bits(i64::MAX as u64), i64::MAX);
}

#[test]
fn product_table_fields() {
    let p = product(Some(1834607988));
    let f = product_fields(&p, true);
    assert_eq!(keys(&f), vec!["id", "name", "active", "price"]);
    assert!(matches!(f[0].1, FieldValue::Int(1834607988)));
    assert!(matches!(&f[1].1, FieldValue::Str(s) if s == "V.I.P"));
    let mut full = product(None);
    full.prefix = Some("P".to_string());
    full.description = Some("d".to_string());
    full.discount = Some(10);
    full.regional_pricing = Some(false);
    full.icon = Some("i.png".to_string());
    full.path = Some("Shop".to_string());
    let f = product_fields(&full, true);
    assert_eq!(
        keys(&f),
        vec!["prefix", "name", "description", "active", "discount", "price", "regional_pricing", "icon", "path"]
    );
    assert!(matches!(f[4].1, FieldValue::Int(10)));
    assert!(matches!(f[6].1, FieldValue::Bool(false)));
}

#[test]
fn badge_tables_carry_no_price() {
    let mut badge = product(Some(5));
    badge.discount = Some(10);
    badge.regional_pricing = Some(true);
    badge.icon = Some("i.png".to_string());
    let f = product_fields(&badge, false);
    assert_eq!(keys(&f), vec!["id", "name", "active", "icon"]);
}

#[test]
fn save_plan_edits() {
    let mut v = file();
    v.metadata.discount_prefix = Some("💲{}% OFF💲 ".to_string());
    v.metadata.name_filters = Some(NameFilters::compile(strings(&["BETA"])).unwrap());
    v.passes.insert("vip".to_string(), product(Some(1)));
    v.badges.insert("win".to_string(), product(None));
    let plan = save_plan(&v, &strings(&["old", "vip"]), &strings(&["gone"]), &Vec::new());
    assert_eq!(plan.metadata.len(), 7);
    assert!(matches!(&plan.metadata[0], MetaEdit::Put(k, FieldValue::Str(s)) if k == "discount_prefix" && s == "💲{}% OFF💲 "));
    assert!(matches!(&plan.metadata[1], MetaEdit::Remove(k) if k == "discount-prefix"));
    assert!(matches!(&plan.metadata[2], MetaEdit::Put(k, FieldValue::Int(9946763161)) if k == "universe_id"));
    assert!(matches!(&plan.metadata[5], MetaEdit::SetList(k, l) if k == "name_filters" && l == &strings(&["BETA"])));
    assert!(matches!(&plan.metadata[6], MetaEdit::Remove(k) if k == "name-filters"));
    assert_eq!(plan.passes.stale, strings(&["old"]));
    assert_eq!(plan.passes.entries.len(), 1);
    assert_eq!(plan.passes.entries[0].0, "vip");
    assert_eq!(plan.products.stale, strings(&["gone"]));
    assert!(plan.products.entries.is_empty());
    assert_eq!(plan.badges.entries[0].0, "win");
    assert_eq!(plan.dropped_tables, strings(&["subscriptions", "gamepasses"]));
    let plain = save_plan(&file(), &Vec::new(), &Vec::new(), &Vec::new());
    assert!(matches!(&plain.metadata[0], MetaEdit::Remove(k) if k == "discount_prefix"));
    assert!(matches!(&plain.metadata[5], MetaEdit::SetList(_, l) if l.is_empty()));
}

#[test]
fn legacy_layouts_are_refused() {
    assert_eq!(
        legacy_layout_error(&strings(&["metadata"]), &strings(&["luau-file", "universe_id"])).unwrap(),
        "[metadata] luau-file is no longer supported \u{2014} move to [codegen] output (rbxmonet >= 0.1.21)"
    );
    assert_eq!(
        legacy_layout_error(&strings(&["metadata", "gamepasses"]), &Vec::new()).unwrap(),
        "[gamepasses.*] is no longer supported \u{2014} rename to [passes.*] (rbxmonet >= 0.1.24)"
    );
    assert!(legacy_layout_error(&strings(&["metadata", "passes"]), &strings(&["universe_id"])).is_none());
}

#[test]
fn loaded_sections_are_normalized() {
    let mut v = file();
    v.passes.insert("starter-pack".to_string(), product(Some(1)));
    v.badges.insert("first-win".to_string(), product(Some(2)));
    normalize_sections(&mut v);
    assert!(v.passes.contains_key("starter_pack"));
    assert!(v.badges.contains_key("first_win"));
    assert!(!v.passes.contains_key("starter-pack"));
}

#[test]
fn truthy_settings() {
    for s in ["1", "true", "TRUE", " Yes ", "yEs"] {
        assert!(is_truthy(s), "{s}");
    }
    for s in ["", "0", "false", "no", "y", "truee", "t rue"] {
        assert!(!is_truthy(s), "{s}");
    }
    assert!(auto_confirm(true, None));
    assert!(auto_confirm(false, Some("true")));
    assert!(!auto_confirm(false, Some("nope")));
    assert!(!auto_confirm(false, None));
}

#[test]
fn products_text_checks() {
    assert!(rbxmonet::persist::check_products_text("[metadata]\nuniverse_id = 1\n").is_ok());
    assert_eq!(
        rbxmonet::persist::check_products_text("[metadata]\nluau-file = \"x.luau\"\n").unwrap_err(),
        "[metadata] luau-file is no longer supported \u{2014} move to [codegen] output (rbxmonet >= 0.1.21)"
    );
    assert_eq!(
        rbxmonet::persist::check_products_text("[gamepasses.vip]\nid = 1\n").unwrap_err(),
        "[gamepasses.*] is no longer supported \u{2014} rename to [passes.*] (rbxmonet >= 0.1.24)"
    );
    assert!(rbxmonet::persist::check_products_text("[metadata\n").is_err());
}

#[test]
fn saving_keeps_the_rest_of_the_document() {
    let existing = concat_lines(&[
        "# my products",
        "[metadata]",
        "universe-id = 1",
        "custom = true",
        "",
        "[passes.old]",
        "id = 5",
        "name = \"Old\"",
        "",
        "[passes.vip]",
        "id = 1",
        "name = \"stale name\"",
        "",
        "[gamepasses.x]",
        "id = 3",
    ]);
    let mut v = file();
    v.passes.insert("vip".to_string(), product(Some(1)));
    v.products.insert("coins".to_string(), product(Some(7)));
    let text = rbxmonet::persist::save_document(Some(&existing), &v).unwrap();
    assert!(text.starts_with("# my products"));
    let doc: toml_edit::DocumentMut = text.parse().unwrap();
    let metadata = doc["metadata"].as_table().unwrap();
    assert_eq!(metadata.get("universe_id").and_then(|i| i.as_integer()), Some(9946763161));
    assert!(metadata.get("universe-id").is_none());
    assert_eq!(metadata.get("custom").and_then(|i| i.as_bool()), Some(true));
    assert!(metadata.get("discount_prefix").is_none());
    let passes = doc["passes"].as_table().unwrap();
    let keys: Vec<&str> = passes.iter().map(|(k, _)| k).collect();
    assert_eq!(keys, vec!["vip"]);
    assert_eq!(passes["vip"]["name"].as_str(), Some("V.I.P"));
    assert_eq!(passes["vip"]["price"].as_integer(), Some(199));
    assert!(passes["vip"].get("icon_id").is_none());
    let products = doc["products"].as_table().unwrap();
    assert_eq!(products["coins"]["id"].as_integer(), Some(7));
    assert!(doc.get("gamepasses").is_none());
    assert!(doc["badges"].as_table().unwrap().is_empty());
}

#[test]
fn saving_without_a_file_starts_a_new_document() {
    let text = rbxmonet::persist::save_document(None, &file()).unwrap();
    let doc: toml_edit::DocumentMut = text.parse().unwrap();
    assert_eq!(doc["metadata"]["universe_id"].as_integer(), Some(9946763161));
    assert_eq!(doc["metadata"]["name_filters"].as_array().map(|a| a.len()), Some(0));
    assert!(rbxmonet::persist::save_document(Some("[passes\n"), &file()).is_err());
}

#[test]
fn section_write_leaves_exactly_the_slugs() {
    let mut table = toml_edit::Table::new();
    table["old"] = toml_edit::value(1);
    table["vip"] = toml_edit::value(2);
    let mut section = ProductMap::new();
    section.insert("vip".to_string(), product(Some(1)));
    section.insert("new".to_string(), product(None));
    let existing: Vec<String> = table.iter().map(|(k, _)| k.to_string()).collect();
    let w = rbxmonet::persist::section_write(&existing, &section, true);
    rbxmonet::persist::apply_section_write(&mut table, &w);
    let keys: Vec<&str> = table.iter().map(|(k, _)| k).collect();
    assert_eq!(keys, vec!["vip", "new"]);
    assert!(table["new"].is_table());
}

fn concat_lines(lines: &[&str]) -> String {
    let mut s = lines.join("\n");
    s.push('\n');
    s
}

#[test]
fn legacy_luau_file_is_reported_first() {
    assert_eq!(
        rbxmonet::persist::check_products_text("[metadata]\nluau-file = \"x\"\n\n[gamepasses.vip]\nid = 1\n")
            .unwrap_err(),
        "[metadata] luau-file is no longer supported \u{2014} move to [codegen] output (rbxmonet >= 0.1.21)"
    );
}

#[test]
fn saving_strips_badge_prices_and_drops_retired_tables() {
    let existing = concat_lines(&[
        "[metadata]",
        "universe_id = 1",
        "",
        "[codegen]",
        "output = \"src/monets.luau\"",
        "",
        "[subscriptions.x]",
        "id = 2",
        "",
        "[badges.win]",
        "id = 5",
        "name = \"Win\"",
        "price = 100",
        "discount = 10",
    ]);
    let mut v = file();
    let mut badge = product(Some(5));
    badge.discount = Some(10);
    badge.regional_pricing = Some(true);
    v.badges.insert("win".to_string(), badge);
    let text = rbxmonet::persist::save_document(Some(&existing), &v).unwrap();
    let doc: toml_edit::DocumentMut = text.parse().unwrap();
    let win = doc["badges"]["win"].as_table().unwrap();
    assert!(win.get("price").is_none());
    assert!(win.get("discount").is_none());
    assert!(win.get("regional_pricing").is_none());
    assert_eq!(win["id"].as_integer(), Some(5));
    assert_eq!(doc["codegen"]["output"].as_str(), Some("src/monets.luau"));
    assert!(doc.get("subscriptions").is_none());
}
