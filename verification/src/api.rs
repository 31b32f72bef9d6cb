//! The Open Cloud side: the request and response bodies, their conversion
//! to and from products, the multipart form of an update, pagination,
//! error messages, and the retry decisions of the rate-limit middleware.
use vstd::prelude::*;
use crate::download::RemoteSnapshot;
use crate::products::{MultiProduct, Product, ProductView, ov, clone_opt, title_of};
use crate::text::{
    chars_of, chars_of_string, dec, is_digit, push_str, push_u64, string_from_chars, trim,
    trim_chars, to_owned_string,
};

verus! {

// ---------------------------------------------------------------------------
// Bodies
// ---------------------------------------------------------------------------
/// `priceInformation` of a game pass or developer product.
#[derive(Debug)]
pub struct PriceInformation {
    pub default_price_in_robux: u64,
    pub enabled_features: Option<Vec<String>>,
}

#[derive(Debug)]
pub struct DevProduct {
    pub product_id: u64,
    pub name: String,
    pub description: String,
    pub universe_id: u64,
    pub is_for_sale: bool,
    pub store_page_enabled: bool,
    pub price_information: Option<PriceInformation>,
    pub is_immutable: bool,
    pub created_timestamp: String,
    pub updated_timestamp: String,
    pub icon_image_asset_id: Option<u64>,
}

#[derive(Debug)]
pub struct GamePass {
    pub game_pass_id: u64,
    pub name: String,
    pub description: String,
    pub is_for_sale: bool,
    pub icon_asset_id: u64,
    pub created_timestamp: String,
    pub updated_timestamp: String,
    pub price_information: Option<PriceInformation>,
}

#[derive(Debug)]
pub struct Badge {
    pub id: u64,
    pub name: String,
    pub description: Option<String>,
    pub enabled: bool,
    pub icon_image_id: Option<u64>,
}

/// The body of a pass or developer product create or update.
#[derive(Debug)]
pub struct ProductUpdateRequest {
    pub name: String,
    pub description: Option<String>,
    pub is_for_sale: Option<bool>,
    pub price: Option<u64>,
    pub is_regional_pricing_enabled: Option<bool>,
    pub store_page_enabled: Option<bool>,
}

#[derive(Debug)]
pub struct BadgeMetadata {
    pub badge_creation_price: u64,
}

#[derive(Debug)]
pub struct BadgePage {
    pub data: Vec<Badge>,
    pub next_page_cursor: Option<String>,
}

#[derive(Debug)]
pub struct DevProductPage {
    pub developer_products: Vec<DevProduct>,
    pub next_page_token: Option<String>,
}

#[derive(Debug)]
pub struct GamePassPage {
    pub game_passes: Vec<GamePass>,
    pub next_page_token: Option<String>,
}

#[derive(Debug)]
pub struct BadgeUpdateRequest {
    pub name: String,
    pub description: String,
    pub enabled: bool,
}

#[derive(Debug)]
pub struct BadgeIconResponse {
    pub icon_image_id: Option<u64>,
}

// ---------------------------------------------------------------------------
// Conversions
// ---------------------------------------------------------------------------
pub open spec fn features_v(f: Option<Vec<String>>) -> Option<Seq<Seq<char>>> {
    match f {
        Some(v) => Some(v@.map_values(|s: String| s@)),
        None => None,
    }
}

/// Whether the enabled features include regional pricing; unset when the
/// feature list is.
pub open spec fn regional_from(features: Option<Seq<Seq<char>>>) -> Option<bool> {
    match features {
        Some(f) => Some(f.contains("RegionalPricing"@)),
        None => None,
    }
}

pub open spec fn price_info_v(pi: Option<PriceInformation>) -> (i64, Option<Seq<Seq<char>>>) {
    match pi {
        Some(p) => (p.default_price_in_robux as i64, features_v(p.enabled_features)),
        None => (0, None),
    }
}

fn regional_pricing_of(pi: &Option<PriceInformation>) -> (r: (i64, Option<bool>))
    ensures
        r.0 == price_info_v(*pi).0,
        r.1 == regional_from(price_info_v(*pi).1),
{
    match pi {
        Some(p) => {
            let price = p.default_price_in_robux as i64;
            match &p.enabled_features {
                Some(f) => {
                    let ghost fv = f@.map_values(|s: String| s@);
                    let target = chars_of("RegionalPricing");
                    let mut found = false;
                    let mut i: usize = 0;
                    while i < f.len()
                        invariant
                            0 <= i <= f@.len(),
                            fv == f@.map_values(|s: String| s@),
                            target@ == "RegionalPricing"@,
                            found == exists|j: int| 0 <= j < i && fv[j] == "RegionalPricing"@,
                        decreases f@.len() - i,
                    {
                        let c = chars_of_string(&f[i]);
                        if crate::text::chars_eq(&c, &target) {
                            found = true;
                        }
                        assert(fv[i as int] == f@[i as int]@);
                        i += 1;
                    }
                    proof {
                        if found {
                            let j = choose|j: int| 0 <= j < f@.len() && fv[j] == "RegionalPricing"@;
                            assert(fv.contains("RegionalPricing"@));
                        }
                        if fv.contains("RegionalPricing"@) {
                            let j = choose|j: int| 0 <= j < fv.len() && fv[j] == "RegionalPricing"@;
                            assert(0 <= j < f@.len());
                        }
                    }
                    (price, Some(found))
                },
                None => (price, None),
            }
        },
        None => (0, None),
    }
}

/// A game pass as a product.
pub open spec fn product_of_pass(gp: GamePass) -> ProductView {
    ProductView {
        id: Some(gp.game_pass_id),
        name: gp.name@,
        prefix: None,
        description: Some(gp.description@),
        active: gp.is_for_sale,
        discount: None,
        price: price_info_v(gp.price_information).0,
        regional_pricing: regional_from(price_info_v(gp.price_information).1),
        icon: None,
        icon_id: Some(gp.icon_asset_id),
        icon_hash: None,
        path: None,
    }
}

/// A developer product as a product.
pub open spec fn product_of_dev_product(dp: DevProduct) -> ProductView {
    ProductView {
        id: Some(dp.product_id),
        name: dp.name@,
        prefix: None,
        description: Some(dp.description@),
        active: dp.is_for_sale,
        discount: None,
        price: price_info_v(dp.price_information).0,
        regional_pricing: regional_from(price_info_v(dp.price_information).1),
        icon: None,
        icon_id: dp.icon_image_asset_id,
        icon_hash: None,
        path: None,
    }
}

/// A badge as a product: price 0, description empty when unset.
pub open spec fn product_of_badge(b: Badge) -> ProductView {
    ProductView {
        id: Some(b.id),
        name: b.name@,
        prefix: None,
        description: Some(
            match ov(b.description) {
                Some(d) => d,
                None => Seq::empty(),
            },
        ),
        active: b.enabled,
        discount: None,
        price: 0,
        regional_pricing: None,
        icon: None,
        icon_id: b.icon_image_id,
        icon_hash: None,
        path: None,
    }
}

impl GamePass {
    pub fn to_product(&self) -> (r: Product)
        ensures
            r@ == product_of_pass(*self),
    {
        let (price, regional_pricing) = regional_pricing_of(&self.price_information);
        Product {
            discount: None,
            prefix: None,
            id: Some(self.game_pass_id),
            name: self.name.clone(),
            description: Some(self.description.clone()),
            active: self.is_for_sale,
            price,
            regional_pricing,
            icon: None,
            icon_id: Some(self.icon_asset_id),
            icon_hash: None,
            path: None,
        }
    }
}

impl DevProduct {
    pub fn to_product(&self) -> (r: Product)
        ensures
            r@ == product_of_dev_product(*self),
    {
        let (price, regional_pricing) = regional_pricing_of(&self.price_information);
        Product {
            discount: None,
            prefix: None,
            id: Some(self.product_id),
            name: self.name.clone(),
            description: Some(self.description.clone()),
            active: self.is_for_sale,
            price,
            regional_pricing,
            icon: None,
            icon_id: self.icon_image_asset_id,
            icon_hash: None,
            path: None,
        }
    }
}

impl Badge {
    pub fn to_product(&self) -> (r: Product)
        ensures
            r@ == product_of_badge(*self),
    {
        Product {
            discount: None,
            prefix: None,
            id: Some(self.id),
            name: self.name.clone(),
            description: Some(
                match &self.description {
                    Some(d) => d.clone(),
                    None => String::new(),
                },
            ),
            active: self.enabled,
            price: 0,
            regional_pricing: None,
            icon: None,
            icon_id: self.icon_image_id,
            icon_hash: None,
            path: None,
        }
    }
}

pub struct UpdateRequestV {
    pub name: Seq<char>,
    pub description: Option<Seq<char>>,
    pub is_for_sale: Option<bool>,
    pub price: Option<u64>,
    pub is_regional_pricing_enabled: Option<bool>,
    pub store_page_enabled: Option<bool>,
}

impl View for ProductUpdateRequest {
    type V = UpdateRequestV;

    open spec fn view(&self) -> UpdateRequestV {
        UpdateRequestV {
            name: self.name@,
            description: ov(self.description),
            is_for_sale: self.is_for_sale,
            price: self.price,
            is_regional_pricing_enabled: self.is_regional_pricing_enabled,
            store_page_enabled: self.store_page_enabled,
        }
    }
}

/// The update body of a product whose price after discount is `price`.
pub open spec fn update_request_of(p: ProductView, price: u64) -> UpdateRequestV {
    UpdateRequestV {
        name: title_of(p),
        description: p.description,
        is_for_sale: Some(p.active),
        price: Some(price),
        is_regional_pricing_enabled: p.regional_pricing,
        store_page_enabled: None,
    }
}

impl ProductUpdateRequest {
    /// The update body of `p`; `price` is `p`'s price after its discount.
    pub fn from_product(p: &Product, price: u64) -> (r: ProductUpdateRequest)
        ensures
            r@ == update_request_of(p@, price),
    {
        ProductUpdateRequest {
            name: p.get_title(),
            description: clone_opt(&p.description),
            is_for_sale: Some(p.active),
            price: Some(price),
            is_regional_pricing_enabled: p.regional_pricing,
            store_page_enabled: None,
        }
    }

    /// The update body of a game pass (no discount: its price is the
    /// listed price).
    pub fn from_game_pass(gp: &GamePass) -> (r: ProductUpdateRequest)
        ensures
            r@ == update_request_of(product_of_pass(*gp), product_of_pass(*gp).price as u64),
    {
        let p = gp.to_product();
        let price = p.price as u64;
        ProductUpdateRequest::from_product(&p, price)
    }

    /// The update body of a developer product (no discount).
    pub fn from_dev_product(dp: &DevProduct) -> (r: ProductUpdateRequest)
        ensures
            r@ == update_request_of(
                product_of_dev_product(*dp),
                product_of_dev_product(*dp).price as u64,
            ),
    {
        let p = dp.to_product();
        let price = p.price as u64;
        ProductUpdateRequest::from_product(&p, price)
    }
}

pub struct BadgeUpdateV {
    pub name: Seq<char>,
    pub description: Seq<char>,
    pub enabled: bool,
}

impl View for BadgeUpdateRequest {
    type V = BadgeUpdateV;

    open spec fn view(&self) -> BadgeUpdateV {
        BadgeUpdateV { name: self.name@, description: self.description@, enabled: self.enabled }
    }
}

pub open spec fn badge_update_of(p: ProductView) -> BadgeUpdateV {
    BadgeUpdateV {
        name: title_of(p),
        description: match p.description {
            Some(d) => d,
            None => Seq::empty(),
        },
        enabled: p.active,
    }
}

impl BadgeUpdateRequest {
    pub fn from_product(p: &Product) -> (r: BadgeUpdateRequest)
        ensures
            r@ == badge_update_of(p@),
    {
        BadgeUpdateRequest {
            name: p.get_title(),
            description: match &p.description {
                Some(d) => d.clone(),
                None => String::new(),
            },
            enabled: p.active,
        }
    }
}

// ---------------------------------------------------------------------------
// Multipart form of an update
// ---------------------------------------------------------------------------
pub open spec fn bool_text(b: bool) -> Seq<char> {
    if b {
        "true"@
    } else {
        "false"@
    }
}

pub open spec fn fields_v(s: Seq<(String, String)>) -> Seq<(Seq<char>, Seq<char>)> {
    s.map_values(|e: (String, String)| (e.0@, e.1@))
}

/// The text parts of the multipart form, in order: `name`, then
/// `description`, `isForSale`, `price` (only above zero) and
/// `isRegionalPricingEnabled` when set.
pub open spec fn form_fields_of(u: UpdateRequestV) -> Seq<(Seq<char>, Seq<char>)> {
    seq![("name"@, u.name)] + (match u.description {
        Some(d) => seq![("description"@, d)],
        None => Seq::empty(),
    }) + (match u.is_for_sale {
        Some(b) => seq![("isForSale"@, bool_text(b))],
        None => Seq::empty(),
    }) + (match u.price {
        Some(p) => if p > 0 {
            seq![("price"@, dec(p as nat))]
        } else {
            Seq::empty()
        },
        None => Seq::empty(),
    }) + (match u.is_regional_pricing_enabled {
        Some(b) => seq![("isRegionalPricingEnabled"@, bool_text(b))],
        None => Seq::empty(),
    })
}

fn bool_string(b: bool) -> (r: String)
    ensures
        r@ == bool_text(b),
{
    if b {
        to_owned_string("true")
    } else {
        to_owned_string("false")
    }
}

impl ProductUpdateRequest {
    /// The text parts of the multipart form for this update.
    pub fn form_fields(&self) -> (r: Vec<(String, String)>)
        ensures
            fields_v(r@) == form_fields_of(self@),
    {
        let mut f: Vec<(String, String)> = Vec::new();
        f.push((to_owned_string("name"), self.name.clone()));
        let ghost a = fields_v(f@);
        match &self.description {
            Some(d) => f.push((to_owned_string("description"), d.clone())),
            None => {},
        }
        let ghost b = fields_v(f@);
        match self.is_for_sale {
            Some(x) => f.push((to_owned_string("isForSale"), bool_string(x))),
            None => {},
        }
        let ghost c = fields_v(f@);
        match self.price {
            Some(p) => if p > 0 {
                let mut t: Vec<char> = Vec::new();
                push_u64(&mut t, p);
                f.push((to_owned_string("price"), string_from_chars(&t)));
            },
            None => {},
        }
        let ghost d = fields_v(f@);
        match self.is_regional_pricing_enabled {
            Some(x) => f.push((to_owned_string("isRegionalPricingEnabled"), bool_string(x))),
            None => {},
        }
        assert(fields_v(f@) =~= form_fields_of(self@));
        f
    }
}

/// The text parts of the form that creates a badge, in order: `name`,
/// `description`, `paymentSourceType` (always `1`), `expectedCost`,
/// `isActive`; the icon goes in a part of its own.
pub open spec fn badge_create_fields_of(name: Seq<char>, description: Seq<char>, is_active: bool, expected_cost: u64) -> Seq<(Seq<char>, Seq<char>)> {
    seq![
        ("name"@, name),
        ("description"@, description),
        ("paymentSourceType"@, "1"@),
        ("expectedCost"@, dec(expected_cost as nat)),
        ("isActive"@, bool_text(is_active)),
    ]
}

pub fn badge_create_fields(name: &str, description: &str, is_active: bool, expected_cost: u64) -> (r: Vec<(String, String)>)
    ensures
        fields_v(r@) == badge_create_fields_of(name@, description@, is_active, expected_cost),
{
    let mut f: Vec<(String, String)> = Vec::new();
    f.push((to_owned_string("name"), to_owned_string(name)));
    f.push((to_owned_string("description"), to_owned_string(description)));
    f.push((to_owned_string("paymentSourceType"), to_owned_string("1")));
    let mut t: Vec<char> = Vec::new();
    push_u64(&mut t, expected_cost);
    f.push((to_owned_string("expectedCost"), string_from_chars(&t)));
    f.push((to_owned_string("isActive"), bool_string(is_active)));
    assert(fields_v(f@) =~= badge_create_fields_of(name@, description@, is_active, expected_cost));
    f
}

/// The free badge quota read from the answer: its `quota` field when that
/// is an unsigned integer, else the answer itself when it is one, else 0.
pub open spec fn free_quota_of(quota_field: Option<u64>, body_number: Option<u64>) -> u64 {
    match quota_field {
        Some(q) => q,
        None => match body_number {
            Some(n) => n,
            None => 0,
        },
    }
}

pub fn free_quota(quota_field: Option<u64>, body_number: Option<u64>) -> (r: u64)
    ensures
        r == free_quota_of(quota_field, body_number),
{
    match quota_field {
        Some(q) => q,
        None => match body_number {
            Some(n) => n,
            None => 0,
        },
    }
}

// ---------------------------------------------------------------------------
// Listing
// ---------------------------------------------------------------------------
/// The cursor of the next page: a non-empty token, else the listing ends.
pub open spec fn next_cursor_of(token: Option<Seq<char>>) -> Option<Seq<char>> {
    match token {
        Some(c) => if c.len() > 0 {
            Some(c)
        } else {
            None
        },
        None => None,
    }
}

pub fn next_page_cursor(token: &Option<String>) -> (r: Option<String>)
    ensures
        ov(r) == next_cursor_of(ov(*token)),
{
    match token {
        Some(c) => if c.as_str().unicode_len() > 0 {
            Some(c.clone())
        } else {
            None
        },
        None => None,
    }
}

/// The badge listing is skipped (not an error) on 404, 403 and 401.
pub open spec fn badges_unavailable(status: u16) -> bool {
    status == 404 || status == 403 || status == 401
}

pub fn badge_listing_unavailable(status: u16) -> (r: bool)
    ensures
        r == badges_unavailable(status),
{
    status == 404 || status == 403 || status == 401
}

/// The snapshot of the three listings; a listing that was skipped
/// contributes nothing and is marked as not fetched.
pub open spec fn snapshot_products(
    passes: Option<Seq<GamePass>>,
    products: Option<Seq<DevProduct>>,
    badges: Option<Seq<Badge>>,
) -> Seq<(ProductView, crate::products::ProductType)> {
    (match passes {
        Some(s) => s.map_values(|g: GamePass| (product_of_pass(g), crate::products::ProductType::Pass)),
        None => Seq::empty(),
    }) + (match products {
        Some(s) => s.map_values(
            |d: DevProduct| (product_of_dev_product(d), crate::products::ProductType::DevProduct),
        ),
        None => Seq::empty(),
    }) + (match badges {
        Some(s) => s.map_values(|b: Badge| (product_of_badge(b), crate::products::ProductType::Badge)),
        None => Seq::empty(),
    })
}

pub open spec fn opt_seq<T>(o: Option<Vec<T>>) -> Option<Seq<T>> {
    match o {
        Some(v) => Some(v@),
        None => None,
    }
}

/// Assembles the snapshot of `fetch_all_products` from the three listings.
pub fn assemble_snapshot(
    passes: Option<Vec<GamePass>>,
    products: Option<Vec<DevProduct>>,
    badges: Option<Vec<Badge>>,
) -> (r: RemoteSnapshot)
    ensures
        crate::download::remote_v(r.products@) == snapshot_products(
            opt_seq(passes),
            opt_seq(products),
            opt_seq(badges),
        ),
        r.passes_fetched == passes is Some,
        r.dev_products_fetched == products is Some,
        r.badges_fetched == badges is Some,
{
    let mut all: Vec<MultiProduct> = Vec::new();
    let ghost e: Seq<(ProductView, crate::products::ProductType)> = Seq::empty();
    assert(crate::download::remote_v(all@) =~= e);
    match &passes {
        Some(items) => {
            let mut i: usize = 0;
            while i < items.len()
                invariant
                    0 <= i <= items@.len(),
                    crate::download::remote_v(all@) == items@.take(i as int).map_values(
                        |g: GamePass| (product_of_pass(g), crate::products::ProductType::Pass),
                    ),
                decreases items@.len() - i,
            {
                let ghost before = all@;
                let p = items[i].to_product();
                all.push(MultiProduct::Pass(p));
                assert(crate::download::remote_v(all@) =~= crate::download::remote_v(before).push((p@, crate::products::ProductType::Pass)));
                assert(items@.take(i + 1) =~= items@.take(i as int).push(items@[i as int]));
                assert(crate::download::remote_v(all@) =~= items@.take(i + 1).map_values(
                    |g: GamePass| (product_of_pass(g), crate::products::ProductType::Pass),
                ));
                i += 1;
            }
            assert(items@.take(items@.len() as int) =~= items@);
        },
        None => {},
    }
    let ghost after_passes = crate::download::remote_v(all@);
    match &products {
        Some(items) => {
            let mut i: usize = 0;
            while i < items.len()
                invariant
                    0 <= i <= items@.len(),
                    crate::download::remote_v(all@) == after_passes + items@.take(i as int).map_values(
                        |d: DevProduct| (product_of_dev_product(d), crate::products::ProductType::DevProduct),
                    ),
                decreases items@.len() - i,
            {
                let ghost before = all@;
                let p = items[i].to_product();
                all.push(MultiProduct::DevProduct(p));
                assert(crate::download::remote_v(all@) =~= crate::download::remote_v(before).push((p@, crate::products::ProductType::DevProduct)));
                assert(items@.take(i + 1) =~= items@.take(i as int).push(items@[i as int]));
                assert(crate::download::remote_v(all@) =~= after_passes + items@.take(i + 1).map_values(
                    |d: DevProduct| (product_of_dev_product(d), crate::products::ProductType::DevProduct),
                ));
                i += 1;
            }
            assert(items@.take(items@.len() as int) =~= items@);
        },
        None => {
            assert(crate::download::remote_v(all@) =~= after_passes + Seq::empty());
        },
    }
    let ghost after_products = crate::download::remote_v(all@);
    match &badges {
        Some(items) => {
            let mut i: usize = 0;
            while i < items.len()
                invariant
                    0 <= i <= items@.len(),
                    crate::download::remote_v(all@) == after_products + items@.take(i as int).map_values(
                        |b: Badge| (product_of_badge(b), crate::products::ProductType::Badge),
                    ),
                decreases items@.len() - i,
            {
                let ghost before = all@;
                let p = items[i].to_product();
                all.push(MultiProduct::Badge(p));
                assert(crate::download::remote_v(all@) =~= crate::download::remote_v(before).push((p@, crate::products::ProductType::Badge)));
                assert(items@.take(i + 1) =~= items@.take(i as int).push(items@[i as int]));
                assert(crate::download::remote_v(all@) =~= after_products + items@.take(i + 1).map_values(
                    |b: Badge| (product_of_badge(b), crate::products::ProductType::Badge),
                ));
                i += 1;
            }
            assert(items@.take(items@.len() as int) =~= items@);
        },
        None => {
            assert(crate::download::remote_v(all@) =~= after_products + Seq::empty());
        },
    }
    assert(crate::download::remote_v(all@) =~= snapshot_products(
        opt_seq(passes),
        opt_seq(products),
        opt_seq(badges),
    ));
    RemoteSnapshot {
        products: all,
        passes_fetched: passes.is_some(),
        dev_products_fetched: products.is_some(),
        badges_fetched: badges.is_some(),
    }
}

// ---------------------------------------------------------------------------
// Error messages
// ---------------------------------------------------------------------------
/// The error of a failed request: `<op>: HTTP <status>`, followed by
/// ` — <body>` when the trimmed body is not empty.
pub open spec fn status_error_text(op: Seq<char>, status: Seq<char>, body: Seq<char>) -> Seq<char> {
    let t = trim(body);
    if t.len() == 0 {
        op + ": HTTP "@ + status
    } else {
        op + ": HTTP "@ + status + " \u{2014} "@ + t
    }
}

pub fn status_error_message(op: &str, status: &str, body: &str) -> (r: String)
    ensures
        r@ == status_error_text(op@, status@, body@),
{
    let b = chars_of(body);
    let t = trim_chars(&b);
    let mut out = chars_of(op);
    push_str(&mut out, ": HTTP ");
    push_str(&mut out, status);
    if t.len() > 0 {
        push_str(&mut out, " \u{2014} ");
        crate::text::push_chars(&mut out, &t);
    }
    string_from_chars(&out)
}

/// The error of an undecodable body: the decoder's message and the first
/// 500 characters of the body.
pub open spec fn decode_error_text(op: Seq<char>, err: Seq<char>, body: Seq<char>) -> Seq<char> {
    let preview = if body.len() <= 500 {
        body
    } else {
        body.take(500)
    };
    op + ": decoding response body failed: "@ + err + " \u{2014} body[..500]: "@ + preview
}

pub fn decode_error_message(op: &str, err: &str, body: &str) -> (r: String)
    ensures
        r@ == decode_error_text(op@, err@, body@),
{
    let b = chars_of(body);
    let mut preview: Vec<char> = Vec::new();
    let mut i: usize = 0;
    while i < b.len() && i < 500
        invariant
            0 <= i <= b@.len(),
            i <= 500,
            preview@ == b@.take(i as int),
        decreases b@.len() - i,
    {
        preview.push(b[i]);
        i += 1;
        assert(preview@ =~= b@.take(i as int));
    }
    if b.len() <= 500 {
        assert(b@.take(b@.len() as int) =~= b@);
    }
    let mut out = chars_of(op);
    push_str(&mut out, ": decoding response body failed: ");
    push_str(&mut out, err);
    push_str(&mut out, " \u{2014} body[..500]: ");
    crate::text::push_chars(&mut out, &preview);
    string_from_chars(&out)
}

// ---------------------------------------------------------------------------
// Rate limiting
// ---------------------------------------------------------------------------
/// Retries requests answered with 429, waiting as the headers say.
#[derive(Clone, Copy, Debug)]
pub struct RobloxRateLimitMiddleware {
    pub max_429_retries: usize,
    pub cushion_ms: u64,
}

/// What to do with a response.
#[derive(Debug, PartialEq, Eq, Structural)]
pub enum RateLimitStep {
    /// Hand the response back.
    Return,
    /// Sleep this many seconds (plus the cushion), then send again.
    Retry { wait_secs: u64 },
}

/// The value of `u64::from_str` on a string of decimal digits.
pub open spec fn digits_value(s: Seq<char>) -> nat
    decreases s.len(),
{
    if s.len() == 0 {
        0
    } else {
        digits_value(s.drop_last()) * 10 + ((s.last() as u32) - ('0' as u32)) as nat
    }
}

pub open spec fn all_digits(s: Seq<char>) -> bool {
    forall|i: int| 0 <= i < s.len() ==> is_digit(#[trigger] s[i])
}

/// `s.parse::<u64>()`: an optional `+` and at least one digit, no overflow.
pub open spec fn parse_u64_of(s: Seq<char>) -> Option<u64> {
    let d = if s.len() > 0 && s[0] == '+' {
        s.drop_first()
    } else {
        s
    };
    if d.len() > 0 && all_digits(d) && digits_value(d) <= u64::MAX {
        Some(digits_value(d) as u64)
    } else {
        None
    }
}

pub fn parse_u64(s: &str) -> (r: Option<u64>)
    ensures
        r == parse_u64_of(s@),
{
    let c = chars_of(s);
    let start: usize = if c.len() > 0 && c[0] == '+' {
        1
    } else {
        0
    };
    let ghost d = if s@.len() > 0 && s@[0] == '+' {
        s@.drop_first()
    } else {
        s@
    };
    assert(d =~= c@.skip(start as int));
    if start >= c.len() {
        return None;
    }
    let mut v: u64 = 0;
    let mut i: usize = start;
    while i < c.len()
        invariant
            start <= i <= c@.len(),
            c@ == s@,
            d == c@.skip(start as int),
            d == (if s@.len() > 0 && s@[0] == '+' {
                s@.drop_first()
            } else {
                s@
            }),
            start < c@.len(),
            all_digits(c@.subrange(start as int, i as int)),
            v as nat == digits_value(c@.subrange(start as int, i as int)),
        decreases c@.len() - i,
    {
        let ch = c[i];
        let ghost pre = c@.subrange(start as int, i as int);
        let ghost nxt = c@.subrange(start as int, i + 1);
        assert(nxt.drop_last() =~= pre);
        assert(nxt.last() == ch);
        if !('0' <= ch && ch <= '9') {
            assert(d[i - start] == c@[i as int]);
            assert(!is_digit(d[i - start]));
            assert(!all_digits(d));
            return None;
        }
        let digit = (ch as u32 - '0' as u32) as u64;
        if v > (u64::MAX - digit) / 10 {
            proof {
                assert(digits_value(nxt) == v * 10 + digit);
                assert(v * 10 + digit > u64::MAX) by (nonlinear_arith)
                    requires
                        v > (u64::MAX - digit) / 10,
                        digit <= 9,
                ;
                assert(d.take(i + 1 - start) =~= nxt);
                if all_digits(d) {
                    lemma_digits_value_mono(d, (i + 1 - start) as int);
                }
            }
            return None;
        }
        assert(v * 10 + digit <= u64::MAX) by (nonlinear_arith)
            requires
                v <= (u64::MAX - digit) / 10,
                digit <= 9,
        ;
        v = v * 10 + digit;
        i += 1;
    }
    assert(c@.subrange(start as int, c@.len() as int) =~= d);
    Some(v)
}

proof fn lemma_digits_value_mono(s: Seq<char>, k: int)
    requires
        0 <= k <= s.len(),
        all_digits(s),
    ensures
        digits_value(s.take(k)) <= digits_value(s),
    decreases s.len() - k,
{
    if k < s.len() {
        lemma_digits_value_mono(s, k + 1);
        let t = s.take(k + 1);
        assert(t.drop_last() =~= s.take(k));
        assert(is_digit(t.last()));
        assert(digits_value(t) == digits_value(s.take(k)) * 10 + ((t.last() as u32) - ('0' as u32)) as nat);
        assert(digits_value(s.take(k)) <= digits_value(s.take(k)) * 10) by (nonlinear_arith);
    } else {
        assert(s.take(k) =~= s);
    }
}

/// Seconds to wait before retrying: `retry-after`, else
/// `x-ratelimit-reset`, each read as a trimmed integer; else one second.
pub open spec fn retry_wait_of(retry_after: Option<Seq<char>>, reset: Option<Seq<char>>) -> u64 {
    let a = match retry_after {
        Some(s) => parse_u64_of(trim(s)),
        None => None,
    };
    let b = match reset {
        Some(s) => parse_u64_of(trim(s)),
        None => None,
    };
    match a {
        Some(x) => x,
        None => match b {
            Some(y) => y,
            None => 1,
        },
    }
}

fn parse_trimmed(s: &Option<String>) -> (r: Option<u64>)
    ensures
        r == match ov(*s) {
            Some(x) => parse_u64_of(trim(x)),
            None => None,
        },
{
    match s {
        Some(x) => {
            let c = chars_of_string(x);
            let t = trim_chars(&c);
            let ts = string_from_chars(&t);
            parse_u64(ts.as_str())
        },
        None => None,
    }
}

pub open spec fn rate_limit_step_of(
    m: RobloxRateLimitMiddleware,
    attempt: usize,
    status: u16,
    retry_after: Option<Seq<char>>,
    reset: Option<Seq<char>>,
) -> RateLimitStep {
    if status != 429 || attempt >= m.max_429_retries {
        RateLimitStep::Return
    } else {
        RateLimitStep::Retry { wait_secs: retry_wait_of(retry_after, reset) }
    }
}

/// A request is sent at most `max_429_retries + 1` times: from that
/// attempt on, every response is handed back, 429 or not.
pub proof fn lemma_retries_bounded(
    m: RobloxRateLimitMiddleware,
    attempt: usize,
    status: u16,
    retry_after: Option<Seq<char>>,
    reset: Option<Seq<char>>,
)
    requires
        attempt >= m.max_429_retries,
    ensures
        rate_limit_step_of(m, attempt, status, retry_after, reset) == RateLimitStep::Return,
{
}

/// Only a 429 is ever retried.
pub proof fn lemma_only_429_retried(
    m: RobloxRateLimitMiddleware,
    attempt: usize,
    status: u16,
    retry_after: Option<Seq<char>>,
    reset: Option<Seq<char>>,
)
    requires
        status != 429,
    ensures
        rate_limit_step_of(m, attempt, status, retry_after, reset) == RateLimitStep::Return,
{
}

impl RobloxRateLimitMiddleware {
    pub fn new() -> (r: Self)
        ensures
            r.max_429_retries == 5,
            r.cushion_ms == 75,
    {
        RobloxRateLimitMiddleware { max_429_retries: 5, cushion_ms: 75 }
    }

    pub fn with_max_429_retries(self, n: usize) -> (r: Self)
        ensures
            r.max_429_retries == n,
            r.cushion_ms == self.cushion_ms,
    {
        RobloxRateLimitMiddleware { max_429_retries: n, cushion_ms: self.cushion_ms }
    }

    /// Seconds to wait, from the `retry-after` and `x-ratelimit-reset`
    /// header values (as text, when they are visible ASCII).
    pub fn retry_wait_from_headers(retry_after: &Option<String>, reset: &Option<String>) -> (r: u64)
        ensures
            r == retry_wait_of(ov(*retry_after), ov(*reset)),
    {
        match parse_trimmed(retry_after) {
            Some(x) => x,
            None => match parse_trimmed(reset) {
                Some(y) => y,
                None => 1,
            },
        }
    }

    /// The decision after attempt number `attempt` (from 0) got `status`:
    /// anything but 429 is handed back, as is the 429 of the last allowed
    /// attempt; otherwise wait and retry.
    pub fn after_response(
        &self,
        attempt: usize,
        status: u16,
        retry_after: &Option<String>,
        reset: &Option<String>,
    ) -> (r: RateLimitStep)
        ensures
            r == rate_limit_step_of(*self, attempt, status, ov(*retry_after), ov(*reset)),
    {
        if status != 429 || attempt >= self.max_429_retries {
            RateLimitStep::Return
        } else {
            RateLimitStep::Retry {
                wait_secs: RobloxRateLimitMiddleware::retry_wait_from_headers(retry_after, reset),
            }
        }
    }
}

} // verus!
