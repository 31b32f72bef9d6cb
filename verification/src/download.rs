//! `download`: merging the products fetched from the universe into the
//! products file, and pruning the entries whose remote counterpart is gone.
use vstd::prelude::*;
use crate::names::{NameFilters, canonical, canonical_name, censored, filters_view, format_name, is_censored, slug_of};
use crate::products::{
    MultiProduct, Product, ProductMap, ProductType, ProductView, VCSProducts, clone_opt,
    discounted, key_pos, lemma_key_pos, pm_get, pm_insert, unique_keys, lemma_insert_then_get,
};
use crate::text::{dec, push_str, push_u64, string_from_chars};

verus! {

/// Products fetched from the universe. Each `*_fetched` flag is true when
/// the endpoint answered (an empty list counts as "nothing in the
/// universe"), false when the fetch was skipped; pruning leaves a section
/// alone when its fetch was skipped.
#[derive(Debug)]
pub struct RemoteSnapshot {
    pub products: Vec<MultiProduct>,
    pub passes_fetched: bool,
    pub dev_products_fetched: bool,
    pub badges_fetched: bool,
}

pub open spec fn remote_v(s: Seq<MultiProduct>) -> Seq<(ProductView, ProductType)> {
    s.map_values(|m: MultiProduct| (m.product()@, m.kind()))
}

/// The id as the merge compares it: `id as i64`, `-1` when unset.
pub open spec fn id_key(id: Option<u64>) -> int {
    match id {
        Some(i) => if i <= 0x7fff_ffff_ffff_ffff {
            i as int
        } else {
            i - 0x1_0000_0000_0000_0000
        },
        None => -1,
    }
}

pub fn same_id_key(a: Option<u64>, b: Option<u64>) -> (r: bool)
    ensures
        r == (id_key(a) == id_key(b)),
{
    match (a, b) {
        (Some(x), Some(y)) => x == y,
        (None, None) => true,
        (Some(x), None) => x == u64::MAX,
        (None, Some(y)) => y == u64::MAX,
    }
}

/// Position of the first entry whose id matches, or -1.
pub open spec fn find_by_id(s: Seq<(Seq<char>, ProductView)>, id: Option<u64>) -> int
    decreases s.len(),
{
    if s.len() == 0 {
        -1
    } else if id_key(s[0].1.id) == id_key(id) {
        0
    } else {
        let r = find_by_id(s.drop_first(), id);
        if r < 0 {
            -1
        } else {
            r + 1
        }
    }
}

proof fn lemma_find_by_id(s: Seq<(Seq<char>, ProductView)>, id: Option<u64>)
    ensures
        -1 <= find_by_id(s, id) < s.len(),
        find_by_id(s, id) >= 0 ==> id_key(s[find_by_id(s, id)].1.id) == id_key(id),
        forall|j: int|
            0 <= j < s.len() && (find_by_id(s, id) < 0 || j < find_by_id(s, id)) ==> id_key(
                #[trigger] s[j].1.id,
            ) != id_key(id),
    decreases s.len(),
{
    if s.len() > 0 {
        lemma_find_by_id(s.drop_first(), id);
        assert forall|j: int|
            0 <= j < s.len() && (find_by_id(s, id) < 0 || j < find_by_id(s, id)) implies id_key(
            #[trigger] s[j].1.id,
        ) != id_key(id) by {
            if j > 0 {
                assert(s[j] == s.drop_first()[j - 1]);
            }
        }
    }
}

fn position_by_id(section: &ProductMap, id: Option<u64>) -> (r: Option<usize>)
    ensures
        match r {
            Some(i) => i as int == find_by_id(section@, id) && i < section@.len(),
            None => find_by_id(section@, id) < 0,
        },
{
    let ghost s = section@;
    proof {
        lemma_find_by_id(s, id);
    }
    let mut i: usize = 0;
    while i < section.len()
        invariant
            0 <= i <= s.len(),
            s == section@,
            -1 <= find_by_id(s, id) < s.len(),
            find_by_id(s, id) >= 0 ==> id_key(s[find_by_id(s, id)].1.id) == id_key(id),
            forall|j: int|
                0 <= j < s.len() && (find_by_id(s, id) < 0 || j < find_by_id(s, id)) ==> id_key(
                    #[trigger] s[j].1.id,
                ) != id_key(id),
            forall|j: int| 0 <= j < i ==> id_key(#[trigger] s[j].1.id) != id_key(id),
        decreases s.len() - i,
    {
        if same_id_key(section.value_at(i).id, id) {
            assert(id_key(s[i as int].1.id) == id_key(id));
            return Some(i);
        }
        i += 1;
    }
    None
}

/// The length of the longest key of `s`.
pub open spec fn max_key_len(s: Seq<(Seq<char>, ProductView)>) -> nat
    decreases s.len(),
{
    if s.len() == 0 {
        0
    } else {
        let m = max_key_len(s.drop_last());
        if s.last().0.len() > m {
            s.last().0.len()
        } else {
            m
        }
    }
}

proof fn lemma_max_key_len(s: Seq<(Seq<char>, ProductView)>)
    ensures
        forall|j: int| 0 <= j < s.len() ==> (#[trigger] s[j]).0.len() <= max_key_len(s),
    decreases s.len(),
{
    if s.len() > 0 {
        lemma_max_key_len(s.drop_last());
        assert forall|j: int| 0 <= j < s.len() implies (#[trigger] s[j]).0.len() <= max_key_len(s) by {
            if j < s.len() - 1 {
                assert(s[j] == s.drop_last()[j]);
            }
        }
    }
}

/// A key longer than every key of `s` is free.
proof fn lemma_long_key_free(s: Seq<(Seq<char>, ProductView)>, k: Seq<char>)
    requires
        k.len() > max_key_len(s),
    ensures
        pm_get(s, k) is None,
{
    lemma_max_key_len(s);
    lemma_key_pos(s, k);
    if key_pos(s, k) >= 0 {
        assert(s[key_pos(s, k)].0 == k);
    }
}

/// How many more characters a slug can grow before it is longer than
/// every key of `s`.
pub open spec fn slug_room(s: Seq<(Seq<char>, ProductView)>, c: Seq<char>) -> nat {
    if c.len() > max_key_len(s) {
        0
    } else {
        (max_key_len(s) + 1 - c.len()) as nat
    }
}

/// The slug `c`, suffixed with `_<n>` as many times as it takes until no
/// entry with an id other than `id` holds it.
pub open spec fn free_slug(s: Seq<(Seq<char>, ProductView)>, c: Seq<char>, id: Option<u64>, n: nat) -> Seq<
    char,
>
    decreases slug_room(s, c),
{
    if c.len() <= max_key_len(s) && pm_get(s, c) is Some && pm_get(s, c)->0.id != id {
        free_slug(s, c + "_"@ + dec(n), id, n)
    } else {
        c
    }
}

/// The slug for a new remote product: the canonical slug, `item_<id>` when
/// that is empty, suffixed with `_<id>` (again, as often as needed) while
/// an entry with another id holds it.
pub open spec fn disambiguated(s: Seq<(Seq<char>, ProductView)>, base: Seq<char>, id: Option<u64>) -> Seq<char> {
    let n = match id {
        Some(i) => i,
        None => 0,
    };
    let b = if base.len() == 0 {
        "item_"@ + dec(n as nat)
    } else {
        base
    };
    free_slug(s, b, id, n as nat)
}

/// The slug that `free_slug` settles on is free, or holds `id` already.
proof fn lemma_free_slug(s: Seq<(Seq<char>, ProductView)>, c: Seq<char>, id: Option<u64>, n: nat)
    ensures
        pm_get(s, free_slug(s, c, id, n)) is None || pm_get(s, free_slug(s, c, id, n))->0.id == id,
        free_slug(s, c, id, n).len() >= c.len(),
    decreases slug_room(s, c),
{
    if c.len() <= max_key_len(s) && pm_get(s, c) is Some && pm_get(s, c)->0.id != id {
        lemma_free_slug(s, c + "_"@ + dec(n), id, n);
    } else if c.len() > max_key_len(s) {
        lemma_long_key_free(s, c);
    }
}

/// A new remote product never takes over a slug from a local entry with
/// another id: the slug it gets is free, or already holds its id.
pub proof fn lemma_disambiguated_free(s: Seq<(Seq<char>, ProductView)>, base: Seq<char>, id: Option<u64>)
    ensures
        pm_get(s, disambiguated(s, base, id)) is None || pm_get(s, disambiguated(s, base, id))->0.id == id,
{
    let n: nat = match id {
        Some(i) => i as nat,
        None => 0,
    };
    let b = if base.len() == 0 {
        "item_"@ + dec(n)
    } else {
        base
    };
    lemma_free_slug(s, b, id, n);
}

pub fn disambiguate_slug(section: &ProductMap, base: &str, incoming_id: Option<u64>) -> (r: String)
    ensures
        r@ == disambiguated(section@, base@, incoming_id),
        pm_get(section@, r@) is None || pm_get(section@, r@)->0.id == incoming_id,
{
    let ghost s = section@;
    let n = match incoming_id {
        Some(i) => i,
        None => 0,
    };
    let bc = crate::text::chars_of(base);
    let mut b: Vec<char>;
    if bc.len() == 0 {
        b = Vec::new();
        push_str(&mut b, "item_");
        push_u64(&mut b, n);
    } else {
        b = bc;
    }
    proof {
        lemma_free_slug(s, b@, incoming_id, n as nat);
    }
    loop
        invariant
            s == section@,
            free_slug(s, b@, incoming_id, n as nat) == disambiguated(s, base@, incoming_id),
        decreases slug_room(s, b@),
    {
        let bs = string_from_chars(&b);
        let taken = match section.get(bs.as_str()) {
            Some(existing) => existing.id != incoming_id,
            None => false,
        };
        if !taken {
            proof {
                if b@.len() > max_key_len(s) {
                    lemma_long_key_free(s, b@);
                }
            }
            return bs;
        }
        proof {
            if b@.len() > max_key_len(s) {
                lemma_long_key_free(s, b@);
            }
        }
        let ghost prev = b@;
        push_str(&mut b, "_");
        push_u64(&mut b, n);
        assert(b@ == prev + "_"@ + dec(n as nat));
    }
}

pub open spec fn opt_or<T>(a: Option<T>, b: Option<T>) -> Option<T> {
    match a {
        Some(x) => Some(x),
        None => b,
    }
}

/// The merged entry for remote product `r`, `ex` being the local entry
/// with the same id.
pub open spec fn merged_product(
    r: ProductView,
    ex: Option<ProductView>,
    overwrite: bool,
    fv: Option<Seq<Seq<char>>>,
) -> ProductView {
    let keep = !overwrite && ex is Some;
    let e = ex->0;
    let description = if keep {
        e.description
    } else {
        r.description
    };
    let regional = if ex is Some && !overwrite {
        e.regional_pricing
    } else {
        r.regional_pricing
    };
    ProductView {
        id: r.id,
        name: if keep {
            canonical(e.name, fv)
        } else {
            canonical(r.name, fv)
        },
        prefix: if keep {
            e.prefix
        } else {
            None
        },
        description: if keep && (description matches Some(d) && censored(d)) {
            e.description
        } else {
            description
        },
        active: r.active,
        discount: if ex is Some && discounted(e) {
            e.discount
        } else {
            None
        },
        price: if ex is Some && !overwrite {
            e.price
        } else {
            r.price
        },
        regional_pricing: if regional == Some(false) {
            None
        } else {
            regional
        },
        icon: if ex is Some {
            e.icon
        } else {
            None
        },
        icon_id: opt_or(
            r.icon_id,
            if ex is Some {
                e.icon_id
            } else {
                None
            },
        ),
        icon_hash: if ex is Some {
            e.icon_hash
        } else {
            None
        },
        path: if ex is Some {
            e.path
        } else {
            None
        },
    }
}

/// With `--overwrite` a download takes the remote name, description,
/// price and active flag; without it, a product already in the file keeps
/// its own name, description, price and prefix, and takes only the remote
/// active flag.
pub proof fn lemma_overwrite_choice(
    r: ProductView,
    e: ProductView,
    fv: Option<Seq<Seq<char>>>,
)
    ensures
        merged_product(r, Some(e), true, fv).name == canonical(r.name, fv),
        merged_product(r, Some(e), true, fv).description == r.description,
        merged_product(r, Some(e), true, fv).price == r.price,
        merged_product(r, Some(e), true, fv).prefix is None,
        merged_product(r, Some(e), false, fv).name == canonical(e.name, fv),
        merged_product(r, Some(e), false, fv).description == e.description,
        merged_product(r, Some(e), false, fv).price == e.price,
        merged_product(r, Some(e), false, fv).prefix == e.prefix,
        merged_product(r, Some(e), true, fv).active == r.active,
        merged_product(r, Some(e), false, fv).active == r.active,
{
}

/// One remote product merged into its section: it replaces the local
/// entry with the same id (keeping its slug), or lands under a new slug.
pub open spec fn merge_step(
    s: Seq<(Seq<char>, ProductView)>,
    r: ProductView,
    overwrite: bool,
    fv: Option<Seq<Seq<char>>>,
) -> Seq<(Seq<char>, ProductView)> {
    let j = find_by_id(s, r.id);
    let ex = if j >= 0 {
        Some(s[j].1)
    } else {
        None
    };
    let key = if j >= 0 {
        s[j].0
    } else {
        disambiguated(s, slug_of(canonical(r.name, fv)), r.id)
    };
    pm_insert(s, key, merged_product(r, ex, overwrite, fv))
}

/// A merged remote product lands under the slug of the local entry with
/// its id (that slug is kept), or under the disambiguated slug of its
/// name when no local entry has its id; either way it reads back as the
/// merged product, with the remote id.
pub proof fn lemma_merge_step_places(
    s: Seq<(Seq<char>, ProductView)>,
    r: ProductView,
    overwrite: bool,
    fv: Option<Seq<Seq<char>>>,
)
    ensures
        find_by_id(s, r.id) >= 0 ==> {
            let j = find_by_id(s, r.id);
            pm_get(merge_step(s, r, overwrite, fv), s[j].0) == Some(
                merged_product(r, Some(s[j].1), overwrite, fv),
            )
        },
        find_by_id(s, r.id) < 0 ==> pm_get(
            merge_step(s, r, overwrite, fv),
            disambiguated(s, slug_of(canonical(r.name, fv)), r.id),
        ) == Some(merged_product(r, None, overwrite, fv)),
        merged_product(r, None, overwrite, fv).id == r.id,
{
    let j = find_by_id(s, r.id);
    if j >= 0 {
        lemma_insert_then_get(s, s[j].0, merged_product(r, Some(s[j].1), overwrite, fv));
    } else {
        lemma_insert_then_get(
            s,
            disambiguated(s, slug_of(canonical(r.name, fv)), r.id),
            merged_product(r, None, overwrite, fv),
        );
    }
}

/// A local discount survives a download, with or without `--overwrite`:
/// when the local entry with the remote product's id has a discount in
/// effect, the merged entry under its slug keeps that discount, and the
/// overwrite flag makes no difference to the discount.
pub proof fn lemma_merge_keeps_discount(
    s: Seq<(Seq<char>, ProductView)>,
    r: ProductView,
    overwrite: bool,
    fv: Option<Seq<Seq<char>>>,
)
    requires
        find_by_id(s, r.id) >= 0,
        s[find_by_id(s, r.id)].1.discount matches Some(d) && d > 0,
    ensures
        pm_get(merge_step(s, r, overwrite, fv), s[find_by_id(s, r.id)].0) matches Some(m)
            && m.discount == s[find_by_id(s, r.id)].1.discount,
        merged_product(r, Some(s[find_by_id(s, r.id)].1), true, fv).discount == merged_product(
            r,
            Some(s[find_by_id(s, r.id)].1),
            false,
            fv,
        ).discount,
{
    lemma_merge_step_places(s, r, overwrite, fv);
}

fn merge_into_section(
    section: &mut ProductMap,
    r: &Product,
    overwrite: bool,
    filters: &Option<NameFilters>,
)
    ensures
        final(section)@ == merge_step(old(section)@, r@, overwrite, filters_view(*filters)),
{
    let ghost fv = filters_view(*filters);
    let ghost s = section@;
    let name = format_name(canonical_name(r.name.as_str(), filters).as_str());
    let pos = position_by_id(section, r.id);
    let key: String;
    let product: Product;
    match pos {
        Some(j) => {
            let e = section.value_at(j);
            let keep = !overwrite;
            let description = if keep {
                clone_opt(&e.description)
            } else {
                clone_opt(&r.description)
            };
            let regional = if !overwrite {
                e.regional_pricing
            } else {
                r.regional_pricing
            };
            let description = if keep {
                match &description {
                    Some(d) => if is_censored(d.as_str()) {
                        clone_opt(&e.description)
                    } else {
                        clone_opt(&description)
                    },
                    None => None,
                }
            } else {
                description
            };
            product = Product {
                id: r.id,
                name: if keep {
                    canonical_name(e.name.as_str(), filters)
                } else {
                    canonical_name(r.name.as_str(), filters)
                },
                prefix: if keep {
                    clone_opt(&e.prefix)
                } else {
                    None
                },
                description,
                active: r.active,
                discount: if e.has_discount() {
                    e.discount
                } else {
                    None
                },
                price: if !overwrite {
                    e.price
                } else {
                    r.price
                },
                regional_pricing: if regional == Some(false) {
                    None
                } else {
                    regional
                },
                icon: clone_opt(&e.icon),
                icon_id: match r.icon_id {
                    Some(x) => Some(x),
                    None => e.icon_id,
                },
                icon_hash: clone_opt(&e.icon_hash),
                path: clone_opt(&e.path),
            };
            key = section.key_at(j).clone();
            assert(product@ == merged_product(r@, Some(s[j as int].1), overwrite, fv));
        },
        None => {
            let regional = r.regional_pricing;
            product = Product {
                id: r.id,
                name: canonical_name(r.name.as_str(), filters),
                prefix: None,
                description: clone_opt(&r.description),
                active: r.active,
                discount: None,
                price: r.price,
                regional_pricing: if regional == Some(false) {
                    None
                } else {
                    regional
                },
                icon: None,
                icon_id: r.icon_id,
                icon_hash: None,
                path: None,
            };
            key = disambiguate_slug(section, name.as_str(), r.id);
            assert(product@ == merged_product(r@, None, overwrite, fv));
        },
    }
    section.insert(key, product);
}

/// The three sections of the products file.
pub struct SectionsV {
    pub passes: Seq<(Seq<char>, ProductView)>,
    pub products: Seq<(Seq<char>, ProductView)>,
    pub badges: Seq<(Seq<char>, ProductView)>,
}

pub open spec fn sections_of(v: VCSProducts) -> SectionsV {
    SectionsV { passes: v.passes@, products: v.products@, badges: v.badges@ }
}

/// The sections after the first `n` remote products are merged, each into
/// the section of its kind.
pub open spec fn merge_all(
    st: SectionsV,
    rs: Seq<(ProductView, ProductType)>,
    overwrite: bool,
    fv: Option<Seq<Seq<char>>>,
    n: nat,
) -> SectionsV
    decreases n,
{
    if n == 0 || n > rs.len() {
        st
    } else {
        let prev = merge_all(st, rs, overwrite, fv, (n - 1) as nat);
        let (r, t) = rs[n - 1];
        match t {
            ProductType::Pass => SectionsV {
                passes: merge_step(prev.passes, r, overwrite, fv),
                ..prev
            },
            ProductType::DevProduct => SectionsV {
                products: merge_step(prev.products, r, overwrite, fv),
                ..prev
            },
            ProductType::Badge => SectionsV {
                badges: merge_step(prev.badges, r, overwrite, fv),
                ..prev
            },
        }
    }
}

// ---------------------------------------------------------------------------
// Pruning
// ---------------------------------------------------------------------------
/// An entry survives pruning when it has no id yet (a pending create) or
/// its id is among the remote ids.
pub open spec fn survives(e: ProductView, ids: Seq<u64>) -> bool {
    match e.id {
        Some(i) => ids.contains(i),
        None => true,
    }
}

/// The first `n` entries that survive pruning, in order.
pub open spec fn pruned(s: Seq<(Seq<char>, ProductView)>, ids: Seq<u64>, n: nat) -> Seq<
    (Seq<char>, ProductView),
>
    decreases n,
{
    if n == 0 || n > s.len() {
        Seq::empty()
    } else if survives(s[n - 1].1, ids) {
        pruned(s, ids, (n - 1) as nat).push(s[n - 1])
    } else {
        pruned(s, ids, (n - 1) as nat)
    }
}

/// The ids of the remote products of kind `t`, first `n` considered.
pub open spec fn remote_ids(rs: Seq<(ProductView, ProductType)>, t: ProductType, n: nat) -> Seq<u64>
    decreases n,
{
    if n == 0 || n > rs.len() {
        Seq::empty()
    } else if rs[n - 1].1 == t && rs[n - 1].0.id is Some {
        remote_ids(rs, t, (n - 1) as nat).push(rs[n - 1].0.id->0)
    } else {
        remote_ids(rs, t, (n - 1) as nat)
    }
}

proof fn lemma_pruned_members(s: Seq<(Seq<char>, ProductView)>, ids: Seq<u64>, n: nat)
    requires
        n <= s.len(),
    ensures
        forall|k: int| 0 <= k < pruned(s, ids, n).len() ==> survives(#[trigger] pruned(s, ids, n)[k].1, ids)
            && exists|j: int| 0 <= j < n && pruned(s, ids, n)[k] == s[j],
        forall|j: int| 0 <= j < n && survives(#[trigger] s[j].1, ids) ==> pruned(s, ids, n).contains(s[j]),
    decreases n,
{
    if n > 0 {
        lemma_pruned_members(s, ids, (n - 1) as nat);
        let p = pruned(s, ids, (n - 1) as nat);
        if survives(s[n - 1].1, ids) {
            assert(pruned(s, ids, n) == p.push(s[n - 1]));
            assert forall|k: int| 0 <= k < pruned(s, ids, n).len() implies survives(
                #[trigger] pruned(s, ids, n)[k].1,
                ids,
            ) && exists|j: int| 0 <= j < n && pruned(s, ids, n)[k] == s[j] by {
                if k < p.len() {
                    assert(pruned(s, ids, n)[k] == p[k]);
                } else {
                    assert(pruned(s, ids, n)[k] == s[n - 1]);
                }
            }
            assert forall|j: int| 0 <= j < n && survives(#[trigger] s[j].1, ids) implies pruned(
                s,
                ids,
                n,
            ).contains(s[j]) by {
                if j < n - 1 {
                    let k = choose|k: int| 0 <= k < p.len() && p[k] == s[j];
                    assert(pruned(s, ids, n)[k] == s[j]);
                } else {
                    assert(pruned(s, ids, n)[p.len() as int] == s[j]);
                }
            }
        }
    }
}

fn ids_contain(ids: &Vec<u64>, id: u64) -> (r: bool)
    ensures
        r == ids@.contains(id),
{
    let mut i: usize = 0;
    while i < ids.len()
        invariant
            0 <= i <= ids@.len(),
            forall|j: int| 0 <= j < i ==> ids@[j] != id,
        decreases ids@.len() - i,
    {
        if ids[i] == id {
            assert(ids@[i as int] == id);
            return true;
        }
        i += 1;
    }
    false
}

proof fn lemma_pruned_keys_subset(s: Seq<(Seq<char>, ProductView)>, ids: Seq<u64>, n: nat, k: Seq<char>)
    requires
        n <= s.len(),
        forall|j: int| 0 <= j < n ==> #[trigger] s[j].0 != k,
    ensures
        forall|q: int| 0 <= q < pruned(s, ids, n).len() ==> #[trigger] pruned(s, ids, n)[q].0 != k,
    decreases n,
{
    if n > 0 {
        lemma_pruned_keys_subset(s, ids, (n - 1) as nat, k);
        let p = pruned(s, ids, (n - 1) as nat);
        if survives(s[n - 1].1, ids) {
            assert forall|q: int| 0 <= q < pruned(s, ids, n).len() implies #[trigger] pruned(s, ids, n)[q].0 != k by {
                if q < p.len() {
                    assert(pruned(s, ids, n)[q] == p[q]);
                }
            }
        }
    }
}

/// Drops the entries whose id is no longer among `remote_ids`; entries
/// without an id (pending creates) stay.
pub fn prune_section_u64(section: &mut ProductMap, remote_ids: &Vec<u64>)
    ensures
        final(section)@ == pruned(old(section)@, remote_ids@, old(section)@.len()),
        forall|k: int| 0 <= k < final(section)@.len() ==> survives(#[trigger] final(section)@[k].1, remote_ids@),
        forall|j: int|
            0 <= j < old(section)@.len() && survives(#[trigger] old(section)@[j].1, remote_ids@)
                ==> final(section)@.contains(old(section)@[j]),
{
    let ghost s = section@;
    section.unique();
    let mut kept = ProductMap::new();
    let mut i: usize = 0;
    while i < section.len()
        invariant
            0 <= i <= s.len(),
            s == section@,
            unique_keys(s),
            kept@ == pruned(s, remote_ids@, i as nat),
        decreases s.len() - i,
    {
        let p = section.value_at(i);
        let keep = match p.id {
            Some(id) => ids_contain(remote_ids, id),
            None => true,
        };
        if keep {
            proof {
                assert forall|j: int| 0 <= j < i implies #[trigger] s[j].0 != s[i as int].0 by {}
                lemma_pruned_keys_subset(s, remote_ids@, i as nat, s[i as int].0);
                lemma_key_pos(kept@, s[i as int].0);
            }
            kept.insert(section.key_at(i).clone(), p.duplicate());
        }
        i += 1;
    }
    proof {
        lemma_pruned_members(s, remote_ids@, s.len());
    }
    *section = kept;
}

fn collect_ids(products: &Vec<MultiProduct>, t: ProductType) -> (r: Vec<u64>)
    ensures
        r@ == remote_ids(remote_v(products@), t, products@.len()),
{
    let ghost rs = remote_v(products@);
    let mut ids: Vec<u64> = Vec::new();
    let mut i: usize = 0;
    while i < products.len()
        invariant
            0 <= i <= products@.len(),
            rs == remote_v(products@),
            ids@ == remote_ids(rs, t, i as nat),
        decreases products@.len() - i,
    {
        let (p, kind) = products[i].split();
        assert(rs[i as int] == (p@, kind));
        if kind == t {
            match p.id {
                Some(id) => ids.push(id),
                None => {},
            }
        }
        i += 1;
    }
    ids
}

/// The sections after pruning against the snapshot: a section is pruned
/// only when its fetch succeeded.
pub open spec fn prune_all(st: SectionsV, snap: RemoteSnapshot) -> SectionsV {
    let rs = remote_v(snap.products@);
    let n = snap.products@.len();
    SectionsV {
        passes: if snap.passes_fetched {
            pruned(st.passes, remote_ids(rs, ProductType::Pass, n), st.passes.len())
        } else {
            st.passes
        },
        products: if snap.dev_products_fetched {
            pruned(st.products, remote_ids(rs, ProductType::DevProduct, n), st.products.len())
        } else {
            st.products
        },
        badges: if snap.badges_fetched {
            pruned(st.badges, remote_ids(rs, ProductType::Badge, n), st.badges.len())
        } else {
            st.badges
        },
    }
}

pub fn prune_stale(local: &mut VCSProducts, snapshot: &RemoteSnapshot)
    ensures
        sections_of(*final(local)) == prune_all(sections_of(*old(local)), *snapshot),
        final(local).metadata == old(local).metadata,
        final(local).codegen == old(local).codegen,
{
    if snapshot.passes_fetched {
        let ids = collect_ids(&snapshot.products, ProductType::Pass);
        prune_section_u64(&mut local.passes, &ids);
    }
    if snapshot.dev_products_fetched {
        let ids = collect_ids(&snapshot.products, ProductType::DevProduct);
        prune_section_u64(&mut local.products, &ids);
    }
    if snapshot.badges_fetched {
        let ids = collect_ids(&snapshot.products, ProductType::Badge);
        prune_section_u64(&mut local.badges, &ids);
    }
}

/// What `download` writes: the remote products merged into the local
/// sections, then the stale entries pruned.
pub open spec fn downloaded(v: VCSProducts, snap: RemoteSnapshot, overwrite: bool) -> SectionsV {
    let rs = remote_v(snap.products@);
    prune_all(
        merge_all(sections_of(v), rs, overwrite, filters_view(v.metadata.name_filters), rs.len()),
        snap,
    )
}

/// Merges the snapshot into the local products (see `merged_product` and
/// `merge_step`), then prunes (see `prune_all`). Metadata and codegen
/// settings are untouched.
pub fn merge_remote(local: &mut VCSProducts, snapshot: &RemoteSnapshot, overwrite: bool)
    ensures
        sections_of(*final(local)) == downloaded(*old(local), *snapshot, overwrite),
        final(local).metadata == old(local).metadata,
        final(local).codegen == old(local).codegen,
{
    let ghost rs = remote_v(snapshot.products@);
    let ghost st0 = sections_of(*local);
    let ghost fv = filters_view(local.metadata.name_filters);
    let mut i: usize = 0;
    while i < snapshot.products.len()
        invariant
            0 <= i <= snapshot.products@.len(),
            rs == remote_v(snapshot.products@),
            fv == filters_view(local.metadata.name_filters),
            local.metadata == old(local).metadata,
            local.codegen == old(local).codegen,
            sections_of(*local) == merge_all(st0, rs, overwrite, fv, i as nat),
        decreases snapshot.products@.len() - i,
    {
        let (p, kind) = snapshot.products[i].split();
        assert(rs[i as int] == (p@, kind));
        match kind {
            ProductType::Pass => merge_into_section(&mut local.passes, p, overwrite, &local.metadata.name_filters),
            ProductType::DevProduct => merge_into_section(&mut local.products, p, overwrite, &local.metadata.name_filters),
            ProductType::Badge => merge_into_section(&mut local.badges, p, overwrite, &local.metadata.name_filters),
        }
        i += 1;
    }
    prune_stale(local, snapshot);
}

/// The local products file and the snapshot fetched from the universe.
#[derive(Debug)]
pub struct Downloader {
    local_products: VCSProducts,
    remote_snapshot: RemoteSnapshot,
}

impl Downloader {
    pub closed spec fn local(self) -> VCSProducts {
        self.local_products
    }

    pub closed spec fn snapshot(self) -> RemoteSnapshot {
        self.remote_snapshot
    }

    pub fn new(local_products: VCSProducts, remote_snapshot: RemoteSnapshot) -> (r: Downloader)
        ensures
            r.local() == local_products,
            r.snapshot() == remote_snapshot,
    {
        Downloader { local_products, remote_snapshot }
    }

    /// The products file as `download` writes it: the snapshot merged in,
    /// then the stale entries pruned (see `downloaded`).
    pub fn download(self, overwrite: bool) -> (r: VCSProducts)
        ensures
            sections_of(r) == downloaded(self.local(), self.snapshot(), overwrite),
            r.metadata == self.local().metadata,
            r.codegen == self.local().codegen,
    {
        let mut local = self.local_products;
        merge_remote(&mut local, &self.remote_snapshot, overwrite);
        local
    }
}

} // verus!
