use rbxmonet::luau::SectionPrices;
use rbxmonet::products::{CodegenConfig, CodegenStyle, Metadata, Product, ProductMap, VCSProducts};

fn luau_header() -> String {
    [
    "-- This file is automatically generated by rbxmonet. Do not edit this file directly.\n",
    "export type Kind = \"Pass\" | \"Product\" | \"Badge\"\n",
    "export type Pass = { id: number, price: number, kind: Kind, name: string, description: string }\n",
    "export type Product = { id: number, price: number, kind: Kind, name: string, description: string }\n",
    "export type Badge = { id: number, kind: Kind, name: string, description: string }\n\n"
].concat()
}

fn dts_header() -> String {
    [
    "// This file is automatically generated by rbxmonet. Do not edit this file directly.\n",
    "export type Kind = \"Pass\" | \"Product\" | \"Badge\";\n",
    "export interface Pass { id: number; price: number; kind: \"Pass\"; name: string; description: string }\n",
    "export interface Product { id: number; price: number; kind: \"Product\"; name: string; description: string }\n",
    "export interface Badge { id: number; kind: \"Badge\"; name: string; description: string }\n\n"
].concat()
}

fn product(id: u64, name: &str, description: &str, price: i64) -> Product {
    Product {
        id: Some(id),
        name: name.to_string(),
        prefix: None,
        description: Some(description.to_string()),
        active: true,
        discount: None,
        price,
        regional_pricing: None,
        icon: None,
        icon_id: None,
        icon_hash: None,
        path: None,
    }
}

fn sample(style: CodegenStyle, output: Option<&str>, typescript: bool) -> VCSProducts {
    let mut passes = ProductMap::new();
    let mut vip = product(1834607988, "V.I.P", "Daily perks", 199);
    vip.discount = Some(10);
    passes.insert("vip".to_string(), vip);
    let mut products = ProductMap::new();
    products.insert("starter_pack".to_string(), product(3554032826, "Starter Pack", "", 199));
    let mut badges = ProductMap::new();
    badges.insert(
        "first_win".to_string(),
        product(2147483648, "First Win", "Awarded for your first victory", 0),
    );
    VCSProducts {
        metadata: Metadata { universe_id: 9946763161, discount_prefix: None, name_filters: None },
        codegen: CodegenConfig {
            output: output.map(|s| s.to_string()),
            style,
            typescript,
            paths: vec![("badges".to_string(), "Items.Badges".to_string())],
            extra: vec![("passes.legacy_vip".to_string(), 1234567)],
        },
        passes,
        products,
        badges,
    }
}

fn prices() -> SectionPrices {
    SectionPrices { passes: vec![179], products: vec![199], badges: vec![0] }
}

#[test]
fn no_output_path_means_no_files() {
    let v = sample(CodegenStyle::Flat, None, true);
    assert!(v.render_luau(&prices()).is_none());
}

#[test]
fn nested_module_and_declarations() {
    let v = sample(CodegenStyle::Nested, Some("src/monets.luau"), true);
    let out = v.render_luau(&prices()).unwrap();
    assert_eq!(out.luau.path, "src/monets.luau");
    let body = [
        "return {\n",
        "\tItems = {\n",
        "\t\tBadges = {\n",
        "\t\t\tfirst_win = { id = 2147483648, kind = \"Badge\" :: Kind, name = \"First Win\", description = \"Awarded for your first victory\" }\n",
        "\t\t}\n",
        "\t},\n\n",
        "\tpasses = {\n",
        "\t\tlegacy_vip = { id = 1234567 },\n",
        "\t\tvip = { id = 1834607988, price = 179, kind = \"Pass\" :: Kind, name = \"💲10% OFF💲 V.I.P\", description = \"Daily perks\" }\n",
        "\t},\n\n",
        "\tproducts = {\n",
        "\t\tstarter_pack = { id = 3554032826, price = 199, kind = \"Product\" :: Kind, name = \"Starter Pack\", description = \"\" }\n",
        "\t}\n",
        "}"
    ].concat();
    assert_eq!(out.luau.contents, format!("{}{}", luau_header(), body));
    let dts = out.dts.unwrap();
    assert_eq!(dts.path, "src/monets.d.ts");
    let decl = [
        "declare const monets: {\n",
        "\tItems: {\n",
        "\t\tBadges: {\n",
        "\t\t\tfirst_win: Badge;\n",
        "\t\t};\n",
        "\t};\n",
        "\tpasses: {\n",
        "\t\tlegacy_vip: { id: number };\n",
        "\t\tvip: Pass;\n",
        "\t};\n",
        "\tproducts: {\n",
        "\t\tstarter_pack: Product;\n",
        "\t};\n",
        "};\n",
        "export default monets;\n"
    ].concat();
    assert_eq!(dts.contents, format!("{}{}", dts_header(), decl));
}

#[test]
fn flat_module_with_custom_prefix_and_item_path() {
    let mut v = sample(CodegenStyle::Flat, Some("out/Monets.lua"), false);
    v.metadata.discount_prefix = Some("[{}% off] ".to_string());
    let mut moved = product(7, "Moved", "", 5);
    moved.path = Some("Shop.Premium".to_string());
    moved.prefix = Some("NEW".to_string());
    v.passes.insert("moved".to_string(), moved);
    let pr = SectionPrices { passes: vec![179, 5], products: vec![199], badges: vec![0] };
    let out = v.render_luau(&pr).unwrap();
    assert!(out.dts.is_none());
    let body = [
        "return {\n",
        "\t[\"Items.Badges.first_win\"] = { id = 2147483648, kind = \"Badge\" :: Kind, name = \"First Win\", description = \"Awarded for your first victory\" },\n",
        "\t[\"passes.legacy_vip\"] = { id = 1234567 },\n",
        "\t[\"passes.vip\"] = { id = 1834607988, price = 179, kind = \"Pass\" :: Kind, name = \"[10% off] V.I.P\", description = \"Daily perks\" },\n",
        "\t[\"products.starter_pack\"] = { id = 3554032826, price = 199, kind = \"Product\" :: Kind, name = \"Starter Pack\", description = \"\" },\n",
        "\t[\"Shop.Premium.moved\"] = { id = 7, price = 5, kind = \"Pass\" :: Kind, name = \"NEW Moved\", description = \"\" }\n",
        "}"
    ].concat();
    assert_eq!(out.luau.contents, format!("{}{}", luau_header(), body));
}
