use rbxmonet::codegen::{
    collect_flat_leaves, derive_dts_path, derive_module_name, format_lua_key, insert_into_tree,
    is_simple_lua_ident, leaf_ts_type, render_flat, render_flat_dts, render_leaf, render_nested,
    render_nested_dts, split_path, CodegenNode, LeafKind, SectionKind,
};

fn text(v: &Vec<char>) -> String {
    v.iter().collect()
}

fn segs(p: &str) -> Vec<String> {
    split_path(p)
}

fn rich(section: SectionKind, id: u64, price: i64, name: &str, description: &str) -> LeafKind {
    LeafKind::Rich {
        section,
        id,
        price,
        name: name.to_string(),
        description: description.to_string(),
    }
}

fn sample_tree() -> Vec<(String, CodegenNode)> {
    let mut tree = Vec::new();
    insert_into_tree(
        &mut tree,
        &segs("passes"),
        &"vip".to_string(),
        rich(SectionKind::Pass, 1, 179, "V.I.P", ""),
    );
    insert_into_tree(
        &mut tree,
        &segs("Items.Badges"),
        &"first_win".to_string(),
        rich(SectionKind::Badge, 5, 0, "First Win", "d"),
    );
    insert_into_tree(&mut tree, &Vec::new(), &"x-y".to_string(), LeafKind::IdOnly(7));
    tree
}

#[test]
fn section_kind_names() {
    assert_eq!(SectionKind::Pass.ts_name(), "Pass");
    assert_eq!(SectionKind::Product.ts_name(), "Product");
    assert_eq!(SectionKind::Badge.ts_name(), "Badge");
}

#[test]
fn split_path_drops_empty_segments() {
    assert_eq!(split_path("a..b."), vec!["a".to_string(), "b".to_string()]);
    assert_eq!(split_path("Items.Badges"), vec!["Items".to_string(), "Badges".to_string()]);
    assert!(split_path("").is_empty());
    assert!(split_path("...").is_empty());
}

#[test]
fn dts_path_replaces_the_luau_extension() {
    assert_eq!(derive_dts_path("src/monets.luau"), "src/monets.d.ts");
    assert_eq!(derive_dts_path("src/monets.lua"), "src/monets.d.ts");
    assert_eq!(derive_dts_path("out"), "out.d.ts");
    assert!(derive_dts_path("anything.txt").ends_with(".d.ts"));
}

#[test]
fn module_name_is_a_valid_identifier() {
    assert_eq!(derive_module_name("src/ReplicatedFirst/monets.luau"), "monets");
    assert_eq!(derive_module_name("src/my-mod.luau"), "my_mod");
    assert_eq!(derive_module_name("src/2fast.luau"), "_2fast");
    assert_eq!(derive_module_name(""), "monets");
}

#[test]
fn lua_keys() {
    assert!(is_simple_lua_ident("_a1"));
    assert!(is_simple_lua_ident("vip"));
    assert!(!is_simple_lua_ident("1a"));
    assert!(!is_simple_lua_ident(""));
    assert!(!is_simple_lua_ident("a-b"));
    assert_eq!(format_lua_key("vip"), "vip");
    assert_eq!(format_lua_key("starter pack"), "[\"starter pack\"]");
    assert_eq!(format_lua_key("say \"hi\""), "[\"say \\\"hi\\\"\"]");
}

#[test]
fn leaf_rendering() {
    let mut out = Vec::new();
    render_leaf(&mut out, &rich(SectionKind::Product, 3554032826, 199, "Starter Pack", ""));
    assert_eq!(
        text(&out),
        "{ id = 3554032826, price = 199, kind = \"Product\" :: Kind, name = \"Starter Pack\", description = \"\" }"
    );
    let mut out = Vec::new();
    render_leaf(&mut out, &LeafKind::IdOnly(1234567));
    assert_eq!(text(&out), "{ id = 1234567 }");
    let mut out = Vec::new();
    render_leaf(&mut out, &rich(SectionKind::Badge, 0, -5, "a\"b", "line\nbreak"));
    assert_eq!(
        text(&out),
        "{ id = 0, kind = \"Badge\" :: Kind, name = \"a\\\"b\", description = \"line\\nbreak\" }"
    );
    assert_eq!(leaf_ts_type(&LeafKind::IdOnly(1)), "{ id: number }");
    assert_eq!(leaf_ts_type(&rich(SectionKind::Pass, 1, 1, "", "")), "Pass");
}

#[test]
fn tree_keeps_keys_in_order() {
    let tree = sample_tree();
    let keys: Vec<&str> = tree.iter().map(|(k, _)| k.as_str()).collect();
    assert_eq!(keys, vec!["Items", "passes", "x-y"]);
}

#[test]
fn inserted_leaf_is_found_at_its_path() {
    let tree = sample_tree();
    let items = match &tree[0].1 {
        CodegenNode::Branch(c) => c,
        _ => panic!("Items should be a branch"),
    };
    assert_eq!(items[0].0, "Badges");
    let badges = match &items[0].1 {
        CodegenNode::Branch(c) => c,
        _ => panic!("Badges should be a branch"),
    };
    assert_eq!(badges.len(), 1);
    assert_eq!(badges[0].0, "first_win");
    match &badges[0].1 {
        CodegenNode::Leaf(LeafKind::Rich { id, name, .. }) => {
            assert_eq!(*id, 5);
            assert_eq!(name, "First Win");
        }
        _ => panic!("first_win should be a rich leaf"),
    }
}

#[test]
fn insert_replaces_leaf_and_leaf_on_path() {
    let mut tree = Vec::new();
    insert_into_tree(&mut tree, &Vec::new(), &"a".to_string(), LeafKind::IdOnly(1));
    insert_into_tree(&mut tree, &Vec::new(), &"a".to_string(), LeafKind::IdOnly(2));
    assert_eq!(tree.len(), 1);
    assert!(matches!(tree[0].1, CodegenNode::Leaf(LeafKind::IdOnly(2))));
    insert_into_tree(&mut tree, &segs("a"), &"b".to_string(), LeafKind::IdOnly(3));
    assert_eq!(tree.len(), 1);
    match &tree[0].1 {
        CodegenNode::Branch(c) => {
            assert_eq!(c.len(), 1);
            assert_eq!(c[0].0, "b");
        }
        _ => panic!("the leaf on the path should have become a branch"),
    }
    insert_into_tree(&mut tree, &Vec::new(), &"0".to_string(), LeafKind::IdOnly(4));
    insert_into_tree(&mut tree, &Vec::new(), &"z".to_string(), LeafKind::IdOnly(5));
    let keys: Vec<&str> = tree.iter().map(|(k, _)| k.as_str()).collect();
    assert_eq!(keys, vec!["0", "a", "z"]);
}

#[test]
fn nested_rendering() {
    let tree = sample_tree();
    let mut out = Vec::new();
    render_nested(&mut out, &tree);
    let expected = [
        "return {\n",
        "\tItems = {\n",
        "\t\tBadges = {\n",
        "\t\t\tfirst_win = { id = 5, kind = \"Badge\" :: Kind, name = \"First Win\", description = \"d\" }\n",
        "\t\t}\n",
        "\t},\n\n",
        "\tpasses = {\n",
        "\t\tvip = { id = 1, price = 179, kind = \"Pass\" :: Kind, name = \"V.I.P\", description = \"\" }\n",
        "\t},\n\n",
        "\t[\"x-y\"] = { id = 7 }\n",
        "}"
    ].concat();
    assert_eq!(text(&out), expected);
}

#[test]
fn flat_rendering() {
    let tree = sample_tree();
    let leaves = collect_flat_leaves(&tree);
    let paths: Vec<&str> = leaves.iter().map(|(p, _)| p.as_str()).collect();
    assert_eq!(paths, vec!["Items.Badges.first_win", "passes.vip", "x-y"]);
    let mut out = Vec::new();
    render_flat(&mut out, &tree);
    let expected = [
        "return {\n",
        "\t[\"Items.Badges.first_win\"] = { id = 5, kind = \"Badge\" :: Kind, name = \"First Win\", description = \"d\" },\n",
        "\t[\"passes.vip\"] = { id = 1, price = 179, kind = \"Pass\" :: Kind, name = \"V.I.P\", description = \"\" },\n",
        "\t[\"x-y\"] = { id = 7 }\n",
        "}"
    ].concat();
    assert_eq!(text(&out), expected);
}

#[test]
fn empty_tree_rendering() {
    let tree: Vec<(String, CodegenNode)> = Vec::new();
    let mut out = Vec::new();
    render_flat(&mut out, &tree);
    assert_eq!(text(&out), "return {\n}");
    let mut out = Vec::new();
    render_nested(&mut out, &tree);
    assert_eq!(text(&out), "return {\n}");
}

#[test]
fn declaration_rendering() {
    let tree = sample_tree();
    let mut out = Vec::new();
    render_flat_dts(&mut out, &tree, "monets");
    let expected = [
        "declare const monets: {\n",
        "\t\"Items.Badges.first_win\": Badge;\n",
        "\t\"passes.vip\": Pass;\n",
        "\t\"x-y\": { id: number };\n",
        "};\n",
        "export default monets;\n"
    ].concat();
    assert_eq!(text(&out), expected);
    let mut out = Vec::new();
    render_nested_dts(&mut out, &tree, "monets");
    let expected = [
        "declare const monets: {\n",
        "\tItems: {\n",
        "\t\tBadges: {\n",
        "\t\t\tfirst_win: Badge;\n",
        "\t\t};\n",
        "\t};\n",
        "\tpasses: {\n",
        "\t\tvip: Pass;\n",
        "\t};\n",
        "\t\"x-y\": { id: number };\n",
        "};\n",
        "export default monets;\n"
    ].concat();
    assert_eq!(text(&out), expected);
}

#[test]
fn flat_sections_sorted_alphabetically_ignoring_case() {
    let mut tree = Vec::new();
    insert_into_tree(&mut tree, &segs("passes"), &"vip".to_string(), LeafKind::IdOnly(1));
    insert_into_tree(&mut tree, &segs("Shop.Premium"), &"vip".to_string(), LeafKind::IdOnly(2));
    insert_into_tree(&mut tree, &segs("passes"), &"legacy_vip".to_string(), LeafKind::IdOnly(3));
    insert_into_tree(&mut tree, &segs("Items.Badges"), &"first_win".to_string(), LeafKind::IdOnly(4));
    let mut out = Vec::new();
    render_flat(&mut out, &tree);
    let expected = [
        "return {\n",
        "\t[\"Items.Badges.first_win\"] = { id = 4 },\n",
        "\t[\"passes.legacy_vip\"] = { id = 3 },\n",
        "\t[\"passes.vip\"] = { id = 1 },\n",
        "\t[\"Shop.Premium.vip\"] = { id = 2 }\n",
        "}",
    ]
    .concat();
    assert_eq!(text(&out), expected);
}

#[test]
fn nested_sections_sorted_alphabetically_ignoring_case() {
    let mut tree = Vec::new();
    insert_into_tree(&mut tree, &segs("passes"), &"vip".to_string(), LeafKind::IdOnly(1));
    insert_into_tree(&mut tree, &segs("Shop.Premium"), &"vip".to_string(), LeafKind::IdOnly(2));
    insert_into_tree(&mut tree, &segs("Items.Badges"), &"first_win".to_string(), LeafKind::IdOnly(4));
    let mut out = Vec::new();
    render_nested(&mut out, &tree);
    let expected = [
        "return {\n",
        "\tItems = {\n",
        "\t\tBadges = {\n",
        "\t\t\tfirst_win = { id = 4 }\n",
        "\t\t}\n",
        "\t},\n\n",
        "\tpasses = {\n",
        "\t\tvip = { id = 1 }\n",
        "\t},\n\n",
        "\tShop = {\n",
        "\t\tPremium = {\n",
        "\t\t\tvip = { id = 2 }\n",
        "\t\t}\n",
        "\t}\n",
        "}",
    ]
    .concat();
    assert_eq!(text(&out), expected);
}
