use rbxmonet::api::{
    assemble_snapshot, badge_create_fields, badge_listing_unavailable, decode_error_message, free_quota,
    next_page_cursor, parse_u64, status_error_message, Badge, BadgeUpdateRequest, DevProduct, GamePass,
    PriceInformation, ProductUpdateRequest, RateLimitStep, RobloxRateLimitMiddleware,
};
use rbxmonet::products::{MultiProduct, Product};

fn pairs(v: &[(&str, &str)]) -> Vec<(String, String)> {
    v.iter().map(|(a, b)| (a.to_string(), b.to_string())).collect()
}

fn pass() -> GamePass {
    GamePass {
        game_pass_id: 1834607988,
        name: "V.I.P".to_string(),
        description: "Daily perks".to_string(),
        is_for_sale: true,
        icon_asset_id: 55,
        created_timestamp: String::new(),
        updated_timestamp: String::new(),
        price_information: Some(PriceInformation {
            default_price_in_robux: 199,
            enabled_features: Some(vec!["RegionalPricing".to_string()]),
        }),
    }
}

#[test]
fn rate_limit_defaults() {
    let m = RobloxRateLimitMiddleware::new();
    assert_eq!(m.max_429_retries, 5);
    assert_eq!(m.cushion_ms, 75);
    let m2 = m.with_max_429_retries(2);
    assert_eq!(m2.max_429_retries, 2);
    assert_eq!(m2.cushion_ms, 75);
}

#[test]
fn rate_limit_retries_only_429_and_stops() {
    let m = RobloxRateLimitMiddleware::new().with_max_429_retries(2);
    let none: Option<String> = None;
    assert_eq!(m.after_response(0, 200, &none, &none), RateLimitStep::Return);
    assert_eq!(m.after_response(0, 429, &none, &none), RateLimitStep::Retry { wait_secs: 1 });
    assert_eq!(
        m.after_response(1, 429, &Some(" 7 ".to_string()), &Some("3".to_string())),
        RateLimitStep::Retry { wait_secs: 7 }
    );
    assert_eq!(
        m.after_response(1, 429, &Some("soon".to_string()), &Some("3".to_string())),
        RateLimitStep::Retry { wait_secs: 3 }
    );
    assert_eq!(m.after_response(2, 429, &none, &none), RateLimitStep::Return);
    assert_eq!(m.after_response(9, 429, &Some("1".to_string()), &none), RateLimitStep::Return);
}

#[test]
fn retry_wait_from_headers() {
    assert_eq!(RobloxRateLimitMiddleware::retry_wait_from_headers(&Some("12".to_string()), &None), 12);
    assert_eq!(RobloxRateLimitMiddleware::retry_wait_from_headers(&None, &Some("4".to_string())), 4);
    assert_eq!(RobloxRateLimitMiddleware::retry_wait_from_headers(&Some("".to_string()), &Some("x".to_string())), 1);
}

#[test]
fn parse_u64_like_std() {
    assert_eq!(parse_u64("42"), Some(42));
    assert_eq!(parse_u64("+42"), Some(42));
    assert_eq!(parse_u64("18446744073709551615"), Some(u64::MAX));
    assert_eq!(parse_u64("18446744073709551616"), None);
    assert_eq!(parse_u64(""), None);
    assert_eq!(parse_u64("+"), None);
    assert_eq!(parse_u64("-1"), None);
    assert_eq!(parse_u64(" 1"), None);
    for s in ["0", "007", "123456789", "99999999999999999999", "1a"] {
        assert_eq!(parse_u64(s), s.parse::<u64>().ok());
    }
}

#[test]
fn pass_becomes_a_product() {
    let p: Product = pass().to_product();
    assert_eq!(p.id, Some(1834607988));
    assert_eq!(p.price, 199);
    assert_eq!(p.regional_pricing, Some(true));
    assert_eq!(p.description.as_deref(), Some("Daily perks"));
    assert_eq!(p.icon_id, Some(55));
    let mut gp = pass();
    gp.price_information = None;
    let p = gp.to_product();
    assert_eq!(p.price, 0);
    assert_eq!(p.regional_pricing, None);
}

#[test]
fn dev_product_and_badge_become_products() {
    let dp = DevProduct {
        product_id: 3554032826,
        name: "Starter Pack".to_string(),
        description: String::new(),
        universe_id: 1,
        is_for_sale: false,
        store_page_enabled: false,
        price_information: Some(PriceInformation { default_price_in_robux: 199, enabled_features: Some(Vec::new()) }),
        is_immutable: false,
        created_timestamp: String::new(),
        updated_timestamp: String::new(),
        icon_image_asset_id: None,
    };
    let p = dp.to_product();
    assert_eq!(p.id, Some(3554032826));
    assert!(!p.active);
    assert_eq!(p.regional_pricing, Some(false));
    let b = Badge { id: 7, name: "First Win".to_string(), description: None, enabled: true, icon_image_id: Some(3) };
    let p = b.to_product();
    assert_eq!(p.price, 0);
    assert_eq!(p.description.as_deref(), Some(""));
    assert_eq!(p.icon_id, Some(3));
    assert!(p.active);
}

#[test]
fn update_request_and_form() {
    let mut p = pass().to_product();
    p.prefix = Some("NEW".to_string());
    let u = ProductUpdateRequest::from_product(&p, 179);
    assert_eq!(u.name, "NEW V.I.P");
    assert_eq!(u.price, Some(179));
    assert_eq!(u.is_for_sale, Some(true));
    assert_eq!(u.store_page_enabled, None);
    assert_eq!(
        u.form_fields(),
        pairs(&[
            ("name", "NEW V.I.P"),
            ("description", "Daily perks"),
            ("isForSale", "true"),
            ("price", "179"),
            ("isRegionalPricingEnabled", "true"),
        ])
    );
    let free = ProductUpdateRequest::from_product(&p, 0);
    assert_eq!(free.form_fields().len(), 4);
    let d = ProductUpdateRequest::from_dev_product(&DevProduct {
        product_id: 3,
        name: "Coins".to_string(),
        description: "many".to_string(),
        universe_id: 1,
        is_for_sale: true,
        store_page_enabled: true,
        price_information: Some(PriceInformation { default_price_in_robux: 25, enabled_features: None }),
        is_immutable: false,
        created_timestamp: String::new(),
        updated_timestamp: String::new(),
        icon_image_asset_id: None,
    });
    assert_eq!(d.name, "Coins");
    assert_eq!(d.price, Some(25));
    assert_eq!(d.is_regional_pricing_enabled, None);
    assert_eq!(d.description.as_deref(), Some("many"));
    let g = ProductUpdateRequest::from_game_pass(&pass());
    assert_eq!(g.name, "V.I.P");
    assert_eq!(g.price, Some(199));
    let b = BadgeUpdateRequest::from_product(&p);
    assert_eq!(b.name, "NEW V.I.P");
    assert_eq!(b.description, "Daily perks");
    assert!(b.enabled);
}

#[test]
fn badge_create_form() {
    assert_eq!(
        badge_create_fields("First Win", "yay", false, 100),
        pairs(&[
            ("name", "First Win"),
            ("description", "yay"),
            ("paymentSourceType", "1"),
            ("expectedCost", "100"),
            ("isActive", "false"),
        ])
    );
}

#[test]
fn listing_helpers() {
    assert_eq!(next_page_cursor(&Some("abc".to_string())), Some("abc".to_string()));
    assert_eq!(next_page_cursor(&Some(String::new())), None);
    assert_eq!(next_page_cursor(&None), None);
    assert!(badge_listing_unavailable(404));
    assert!(badge_listing_unavailable(403));
    assert!(badge_listing_unavailable(401));
    assert!(!badge_listing_unavailable(500));
    assert_eq!(free_quota(Some(2), Some(9)), 2);
    assert_eq!(free_quota(None, Some(9)), 9);
    assert_eq!(free_quota(None, None), 0);
}

#[test]
fn snapshot_keeps_listing_order_and_fetch_flags() {
    let b = Badge { id: 7, name: "W".to_string(), description: Some("x".to_string()), enabled: false, icon_image_id: None };
    let snap = assemble_snapshot(Some(vec![pass()]), None, Some(vec![b]));
    assert!(snap.passes_fetched);
    assert!(!snap.dev_products_fetched);
    assert!(snap.badges_fetched);
    assert_eq!(snap.products.len(), 2);
    assert!(matches!(&snap.products[0], MultiProduct::Pass(p) if p.id == Some(1834607988)));
    assert!(matches!(&snap.products[1], MultiProduct::Badge(p) if p.id == Some(7)));
}

#[test]
fn error_messages() {
    assert_eq!(status_error_message("update pass", "404 Not Found", "  "), "update pass: HTTP 404 Not Found");
    assert_eq!(
        status_error_message("update pass", "400 Bad Request", " bad price \n"),
        "update pass: HTTP 400 Bad Request \u{2014} bad price"
    );
    let long = "x".repeat(600);
    let msg = decode_error_message("create badge", "eof", &long);
    assert_eq!(msg, format!("create badge: decoding response body failed: eof \u{2014} body[..500]: {}", "x".repeat(500)));
    assert_eq!(
        decode_error_message("op", "e", "{}"),
        "op: decoding response body failed: e \u{2014} body[..500]: {}"
    );
}
