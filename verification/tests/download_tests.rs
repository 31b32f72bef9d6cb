use rbxmonet::download::{disambiguate_slug, prune_section_u64, Downloader, RemoteSnapshot};
use rbxmonet::products::{CodegenConfig, CodegenStyle, Metadata, MultiProduct, Product, ProductMap, VCSProducts};

fn product(id: Option<u64>, name: &str) -> Product {
    Product {
        id,
        name: name.to_string(),
        prefix: None,
        description: Some("remote".to_string()),
        active: true,
        discount: None,
        price: 50,
        regional_pricing: None,
        icon: None,
        icon_id: None,
        icon_hash: None,
        path: None,
    }
}

fn empty_file() -> VCSProducts {
    VCSProducts {
        metadata: Metadata { universe_id: 1, discount_prefix: None, name_filters: None },
        codegen: CodegenConfig {
            output: None,
            style: CodegenStyle::Flat,
            typescript: false,
            paths: Vec::new(),
            extra: Vec::new(),
        },
        passes: ProductMap::new(),
        products: ProductMap::new(),
        badges: ProductMap::new(),
    }
}

#[test]
fn slug_collisions_get_the_id_appended() {
    let mut section = ProductMap::new();
    section.insert("vip".to_string(), product(Some(1), "VIP"));
    assert_eq!(disambiguate_slug(&section, "vip", Some(1)), "vip");
    assert_eq!(disambiguate_slug(&section, "vip", Some(2)), "vip_2");
    assert_eq!(disambiguate_slug(&section, "gold", Some(2)), "gold");
    assert_eq!(disambiguate_slug(&section, "", Some(42)), "item_42");
    assert_eq!(disambiguate_slug(&section, "", None), "item_0");
}

#[test]
fn suffixed_slug_held_by_another_id_is_not_reused() {
    let mut section = ProductMap::new();
    section.insert("vip".to_string(), product(Some(1), "VIP"));
    section.insert("vip_2".to_string(), product(Some(3), "VIP too"));
    assert_eq!(disambiguate_slug(&section, "vip", Some(2)), "vip_2_2");
    section.insert("vip_2_2".to_string(), product(Some(2), "VIP again"));
    assert_eq!(disambiguate_slug(&section, "vip", Some(2)), "vip_2_2");
}

#[test]
fn pruning_drops_entries_whose_id_is_gone() {
    let mut section = ProductMap::new();
    section.insert("kept".to_string(), product(Some(1), "Kept"));
    section.insert("gone".to_string(), product(Some(2), "Gone"));
    section.insert("pending".to_string(), product(None, "Pending"));
    prune_section_u64(&mut section, &vec![1, 3]);
    assert_eq!(section.len(), 2);
    assert_eq!(section.key_at(0), "kept");
    assert_eq!(section.key_at(1), "pending");
    assert!(section.get("gone").is_none());
}

#[test]
fn download_merges_and_prunes() {
    let mut local = empty_file();
    let mut vip = product(Some(10), "V.I.P");
    vip.price = 199;
    vip.discount = Some(10);
    vip.description = Some("Daily perks".to_string());
    vip.icon = Some("assets/vip.png".to_string());
    local.passes.insert("vip".to_string(), vip);
    local.passes.insert("stale".to_string(), product(Some(99), "Stale"));
    local.passes.insert("new_one".to_string(), product(None, "New"));
    local.badges.insert("keep_badge".to_string(), product(Some(5), "Badge"));

    let mut remote_vip = product(Some(10), "💲10% OFF💲 V.I.P");
    remote_vip.price = 179;
    remote_vip.description = Some("####".to_string());
    remote_vip.regional_pricing = Some(false);
    let snapshot = RemoteSnapshot {
        products: vec![
            MultiProduct::Pass(remote_vip),
            MultiProduct::Pass(product(Some(11), "Gold Pass")),
            MultiProduct::DevProduct(product(Some(20), "[Gift] Coins")),
        ],
        passes_fetched: true,
        dev_products_fetched: true,
        badges_fetched: false,
    };
    let out = Downloader::new(local, snapshot).download(false);

    assert_eq!(out.passes.len(), 3);
    let vip = out.passes.get("vip").unwrap();
    assert_eq!(vip.name, "V.I.P");
    assert_eq!(vip.price, 199);
    assert_eq!(vip.discount, Some(10));
    assert_eq!(vip.description.as_deref(), Some("Daily perks"));
    assert_eq!(vip.icon.as_deref(), Some("assets/vip.png"));
    assert_eq!(vip.regional_pricing, None);
    assert!(out.passes.get("stale").is_none());
    assert!(out.passes.get("new_one").is_some());
    let gold = out.passes.get("gold_pass").unwrap();
    assert_eq!(gold.id, Some(11));
    assert_eq!(gold.name, "Gold Pass");
    let coins = out.products.get("coins").unwrap();
    assert_eq!(coins.name, "Coins");
    assert_eq!(coins.id, Some(20));
    assert!(out.badges.get("keep_badge").is_some());
}

#[test]
fn overwrite_takes_remote_values() {
    let mut local = empty_file();
    let mut vip = product(Some(10), "Local Name");
    vip.price = 199;
    vip.description = Some("local".to_string());
    vip.prefix = Some("P".to_string());
    local.passes.insert("vip".to_string(), vip);
    let mut remote = product(Some(10), "Remote Name");
    remote.price = 179;
    remote.regional_pricing = Some(true);
    let snapshot = RemoteSnapshot {
        products: vec![MultiProduct::Pass(remote)],
        passes_fetched: true,
        dev_products_fetched: true,
        badges_fetched: true,
    };
    let out = Downloader::new(local, snapshot).download(true);
    let vip = out.passes.get("vip").unwrap();
    assert_eq!(vip.name, "Remote Name");
    assert_eq!(vip.price, 179);
    assert_eq!(vip.prefix, None);
    assert_eq!(vip.description.as_deref(), Some("remote"));
    assert_eq!(vip.regional_pricing, Some(true));
}
