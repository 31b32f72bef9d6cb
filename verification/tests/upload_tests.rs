use rbxmonet::diffs::{DiffChange, ProductDiff};
use rbxmonet::luau::SectionPrices;
use rbxmonet::products::{
    CodegenConfig, CodegenStyle, Metadata, MultiProduct, Product, ProductMap, ProductType, VCSProducts,
};
use rbxmonet::upload::{
    all_targets, apply_discount_prefix, consume_free_quota, expected_badge_cost, short_hash, BadgeAction,
    AttemptRun, BadgeRun, IconDirty, IconDirtyMap, Uploader,
};

fn product(id: Option<u64>, name: &str) -> Product {
    Product {
        id,
        name: name.to_string(),
        prefix: None,
        description: Some("d".to_string()),
        active: true,
        discount: None,
        price: 100,
        regional_pricing: None,
        icon: None,
        icon_id: None,
        icon_hash: None,
        path: None,
    }
}

fn file(prefix: Option<&str>) -> VCSProducts {
    VCSProducts {
        metadata: Metadata { universe_id: 1, discount_prefix: prefix.map(|s| s.to_string()), name_filters: None },
        codegen: CodegenConfig {
            output: None,
            style: CodegenStyle::Flat,
            typescript: false,
            paths: Vec::new(),
            extra: Vec::new(),
        },
        passes: ProductMap::new(),
        products: ProductMap::new(),
        badges: ProductMap::new(),
    }
}

#[test]
fn short_hash_keeps_eight_characters() {
    assert_eq!(short_hash("0123456789abcdef"), "01234567");
    assert_eq!(short_hash("abc"), "abc");
    assert_eq!(short_hash(""), "");
}

#[test]
fn discount_prefix_goes_before_the_name() {
    let mut p = product(Some(1), "V.I.P");
    apply_discount_prefix(&mut p, None);
    assert_eq!(p.name, "V.I.P");
    p.discount = Some(25);
    apply_discount_prefix(&mut p, None);
    assert_eq!(p.name, "💲25% OFF💲 V.I.P");
    let mut q = product(Some(1), "Gold");
    q.discount = Some(5);
    apply_discount_prefix(&mut q, Some("-{}%".to_string()));
    assert_eq!(q.name, "-5% Gold");
}

#[test]
fn badge_cost_and_quota() {
    assert_eq!(expected_badge_cost(Some(3), None), Some(0));
    assert_eq!(expected_badge_cost(Some(0), Some(100)), Some(100));
    assert_eq!(expected_badge_cost(None, None), None);
    assert_eq!(consume_free_quota(Some(3)), Some(2));
    assert_eq!(consume_free_quota(Some(0)), Some(0));
    assert_eq!(consume_free_quota(None), None);
}

#[test]
fn pending_entries_are_found() {
    let mut v = file(None);
    v.passes.insert("vip".to_string(), product(Some(1), "VIP"));
    let up = Uploader::new(v, Vec::new());
    assert!(!up.has_empty_products());
    let mut v = file(Some("SALE {}%"));
    let mut fresh = product(None, "Fresh");
    fresh.discount = Some(10);
    fresh.icon = Some("icon.png".to_string());
    v.products.insert("fresh".to_string(), fresh);
    v.badges.insert("win".to_string(), product(None, "Win"));
    let up = Uploader::new(v, Vec::new());
    assert!(up.has_empty_products());
    let creates = up.pending_creates();
    assert_eq!(creates.len(), 1);
    assert_eq!(creates[0].kind, ProductType::DevProduct);
    assert_eq!(creates[0].slug, "fresh");
    assert_eq!(creates[0].product.name, "SALE 10% Fresh");
    assert_eq!(creates[0].icon_path.as_deref(), Some("icon.png"));
    assert_eq!(up.pending_badge_slugs(), vec!["win".to_string()]);
    let b = up.badge_create("win").unwrap();
    assert_eq!(b.name, "Win");
    assert_eq!(b.description, "d");
    assert_eq!(b.icon_path, "assets/Image/missing_texture.png");
    assert!(up.badge_create("nope").is_none());
}

#[test]
fn created_id_is_recorded() {
    let mut v = file(None);
    v.passes.insert("fresh".to_string(), product(None, "Fresh"));
    v.passes.insert("other".to_string(), product(None, "Other"));
    let mut up = Uploader::new(v, Vec::new());
    up.record_created(ProductType::Pass, "fresh", 777, Some(5), Some("h".to_string()));
    let v = up.into_local_products();
    let p = v.passes.get("fresh").unwrap();
    assert_eq!(p.id, Some(777));
    assert_eq!(p.icon_id, Some(5));
    assert_eq!(p.icon_hash.as_deref(), Some("h"));
    assert_eq!(v.passes.get("other").unwrap().id, None);
}

#[test]
fn diffs_are_offered_badges_first_then_by_id() {
    let mut v = file(None);
    v.passes.insert("p2".to_string(), product(Some(2), "P2"));
    v.passes.insert("p1".to_string(), product(Some(1), "P1"));
    v.badges.insert("b9".to_string(), product(Some(9), "B9"));
    v.products.insert("same".to_string(), product(Some(4), "Same"));
    let mut icon = product(Some(5), "Icon");
    icon.icon = Some("i.png".to_string());
    icon.icon_hash = Some("0123456789".to_string());
    v.products.insert("icon".to_string(), icon);
    let remote = vec![
        MultiProduct::Pass(product(Some(1), "Old P1")),
        MultiProduct::Pass(product(Some(2), "Old P2")),
        MultiProduct::Badge(product(Some(9), "Old B9")),
        MultiProduct::DevProduct(product(Some(4), "Same")),
        MultiProduct::DevProduct(product(Some(5), "Icon")),
    ];
    let up = Uploader::new(v, remote);
    let mut dirty = IconDirtyMap::new();
    let local_icon = up.local_products().products.get("icon").unwrap();
    let d = up.icon_check(local_icon, Some("abcdef0123".to_string()), false).unwrap();
    assert_eq!(d.kind, ProductType::DevProduct);
    assert_eq!(d.id, 5);
    assert_eq!(d.old_hash.as_deref(), Some("0123456789"));
    assert!(up.icon_check(local_icon, Some("0123456789".to_string()), false).is_none());
    assert!(up.icon_check(local_icon, Some("0123456789".to_string()), true).is_some());
    dirty.insert(d);
    let prices = SectionPrices { passes: vec![100, 100], products: vec![100, 100], badges: vec![100] };
    let diffs = up.compute_diffs(&dirty, &prices);
    let order: Vec<(ProductType, u64)> = all_targets(&diffs);
    assert_eq!(
        order,
        vec![
            (ProductType::Badge, 9),
            (ProductType::DevProduct, 5),
            (ProductType::Pass, 1),
            (ProductType::Pass, 2),
        ]
    );
    let icon_diff = &diffs[1].1;
    assert_eq!(icon_diff.diffs.len(), 1);
    assert!(matches!(&icon_diff.diffs[0], DiffChange::Changed(ProductDiff::Icon(o, n)) if o == "01234567" && n == "abcdef01"));
}

#[test]
fn update_plan_and_sync_record() {
    let mut v = file(None);
    let mut b = product(Some(9), "Badge");
    b.discount = Some(0);
    v.badges.insert("b".to_string(), b);
    let mut up = Uploader::new(v, Vec::new());
    let local = up.find_for_update(ProductType::Badge, 9).unwrap();
    assert!(up.find_for_update(ProductType::Pass, 9).is_none());
    let mut dirty = IconDirtyMap::new();
    dirty.insert(IconDirty {
        kind: ProductType::Badge,
        id: 9,
        path: "b.png".to_string(),
        new_hash: "ffff".to_string(),
        old_hash: None,
    });
    let plan = up.plan_update(&local, ProductType::Badge, 9, &dirty, 0);
    assert_eq!(plan.request.name, "Badge");
    assert_eq!(plan.request.price, Some(0));
    assert_eq!(plan.badge_request.as_ref().unwrap().description, "d");
    assert_eq!(plan.icon_path.as_deref(), Some("b.png"));
    assert_eq!(plan.new_icon_hash.as_deref(), Some("ffff"));
    up.record_synced(ProductType::Badge, 9, Some(123), plan.new_icon_hash.clone());
    let v = up.into_local_products();
    let b = v.badges.get("b").unwrap();
    assert_eq!(b.icon_id, Some(123));
    assert_eq!(b.icon_hash.as_deref(), Some("ffff"));
}

#[test]
fn badge_loop_goes_on_after_a_failed_create() {
    let mut run = BadgeRun::start(Some(1));
    assert_eq!(run.next_action(), BadgeAction::Create(0));
    run.created(false);
    assert_eq!(run.next_action(), BadgeAction::Create(0));
    run.created(true);
    assert_eq!(run.free_quota, Some(0));
    assert_eq!(run.next_action(), BadgeAction::FetchMetadata);
    run.metadata_fetched(Some(100));
    assert_eq!(run.next_action(), BadgeAction::Create(100));
}

#[test]
fn badge_loop_stops_when_the_price_is_unknown() {
    let mut run = BadgeRun::start(None);
    assert_eq!(run.next_action(), BadgeAction::FetchMetadata);
    run.metadata_fetched(None);
    assert_eq!(run.next_action(), BadgeAction::Stop);
    run.created(false);
    assert_eq!(run.next_action(), BadgeAction::Stop);
}

#[test]
fn attempt_run_goes_on_after_a_failure() {
    let mut run = AttemptRun::new(3);
    assert_eq!(run.next_item(), Some(0));
    run.record(true);
    assert_eq!(run.next_item(), Some(1));
    run.record(false);
    assert_eq!(run.next_item(), Some(2));
    run.record(true);
    assert_eq!(run.next_item(), None);
    assert_eq!((run.succeeded(), run.failed()), (2, 1));
    assert!(!run.all_ok());
    assert!(AttemptRun::new(0).all_ok());
    assert_eq!(AttemptRun::new(0).next_item(), None);
}
