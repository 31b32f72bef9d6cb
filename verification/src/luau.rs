//! The generated `monets.luau` module (and its `.d.ts` sidecar) as a
//! function of the products file.
use vstd::prelude::*;
use crate::codegen::{
    CodegenNode, LeafKind, LeafV, NodeV, SectionKind, derive_dts_path, derive_module_name,
    dts_path_of, entries_v, flat_dts_text, flat_text, insert_into_tree, module_name_of,
    nested_dts_text, nested_text, render_flat, render_flat_dts, render_nested, render_nested_dts,
    split_dots, split_path, tree_insert,
};
use crate::products::{
    CodegenStyle, Product, ProductMap, ProductView, VCSProducts, discounted, ov, title_of,
};
use crate::text::{
    chars_of, chars_of_string, dec, push_chars, push_str, push_u64, string_from_chars,
    to_owned_string,
};

verus! {

/// `s.replace("{}", rep)`: every `{}`, scanning left to right, replaced by
/// `rep`.
pub open spec fn replace_braces(s: Seq<char>, rep: Seq<char>) -> Seq<char>
    decreases s.len(),
{
    if s.len() == 0 {
        s
    } else if s.len() >= 2 && s[0] == '{' && s[1] == '}' {
        rep + replace_braces(s.skip(2), rep)
    } else {
        seq![s[0]] + replace_braces(s.drop_first(), rep)
    }
}

pub fn replace_placeholder(s: &str, rep: &Vec<char>) -> (r: Vec<char>)
    ensures
        r@ == replace_braces(s@, rep@),
{
    let c = chars_of(s);
    let mut out: Vec<char> = Vec::new();
    let mut i: usize = 0;
    assert(c@.skip(0) =~= c@);
    while i < c.len()
        invariant
            0 <= i <= c@.len(),
            c@ == s@,
            out@ + replace_braces(c@.skip(i as int), rep@) == replace_braces(s@, rep@),
        decreases c@.len() - i,
    {
        let ghost rest = c@.skip(i as int);
        if c[i] == '{' && i + 1 < c.len() && c[i + 1] == '}' {
            let ghost before = out@;
            push_chars(&mut out, rep);
            proof {
                assert(rest.skip(2) =~= c@.skip(i + 2));
                assert(out@ + replace_braces(c@.skip(i + 2), rep@) =~= before + replace_braces(
                    rest,
                    rep@,
                ));
            }
            i += 2;
        } else {
            let ghost before = out@;
            out.push(c[i]);
            proof {
                assert(rest.drop_first() =~= c@.skip(i + 1));
                assert(out@ + replace_braces(c@.skip(i + 1), rep@) =~= before + replace_braces(
                    rest,
                    rep@,
                ));
            }
            i += 1;
        }
    }
    assert(c@.skip(c@.len() as int) =~= Seq::<char>::empty());
    assert(out@ =~= replace_braces(s@, rep@));
    out
}

/// The discount prefix used when `metadata.discount_prefix` is not set.
pub open spec fn default_prefix() -> Seq<char> {
    "💲{}% OFF💲 "@
}

/// The `name` written into the generated table: with a discount, the
/// prefix with `{}` replaced by the percentage, then the name; otherwise
/// the title.
pub open spec fn display_name(p: ProductView, discount_prefix: Seq<char>) -> Seq<char> {
    if discounted(p) {
        replace_braces(discount_prefix, dec(p.discount.unwrap() as nat)) + p.name
    } else {
        match p.prefix {
            Some(x) => x + " "@ + p.name,
            None => p.name,
        }
    }
}

/// With a discount in effect the generated name is the discount prefix,
/// its `{}` replaced by the percentage, followed directly by the product's
/// name: the item's own prefix plays no part (whatever it is, the name is
/// the same), just as a discount drops the prefix from the title pushed to
/// Roblox.
pub proof fn lemma_discount_replaces_prefix(
    p: ProductView,
    discount_prefix: Seq<char>,
    other_prefix: Option<Seq<char>>,
    section: SectionKind,
    price: u64,
)
    requires
        p.discount matches Some(d) && d > 0,
    ensures
        display_name(p, discount_prefix) == replace_braces(discount_prefix, dec(p.discount->0 as nat)) + p.name,
        display_name(p, discount_prefix) == replace_braces(discount_prefix, dec(p.discount->0 as nat))
            + title_of(p),
        display_name(ProductView { prefix: other_prefix, ..p }, discount_prefix) == display_name(
            p,
            discount_prefix,
        ),
        product_leaf(ProductView { prefix: other_prefix, ..p }, section, price, discount_prefix) == product_leaf(
            p,
            section,
            price,
            discount_prefix,
        ),
{
}

fn format_display_name(p: &Product, discount_prefix: &str) -> (r: String)
    ensures
        r@ == display_name(p@, discount_prefix@),
{
    if p.has_discount() {
        let mut d: Vec<char> = Vec::new();
        let pct = match p.discount {
            Some(x) => x,
            None => 0,
        };
        push_u64(&mut d, pct as u64);
        let mut out = replace_placeholder(discount_prefix, &d);
        push_str(&mut out, p.name.as_str());
        string_from_chars(&out)
    } else {
        match &p.prefix {
            Some(x) => {
                let mut out = chars_of_string(x);
                push_str(&mut out, " ");
                push_str(&mut out, p.name.as_str());
                string_from_chars(&out)
            },
            None => p.name.clone(),
        }
    }
}

/// The prices of the products of each section, in section order, after
/// their discounts.
pub struct SectionPrices {
    pub passes: Vec<u64>,
    pub products: Vec<u64>,
    pub badges: Vec<u64>,
}

pub open spec fn prices_fit(v: VCSProducts, pr: SectionPrices) -> bool {
    &&& pr.passes@.len() == v.passes@.len()
    &&& pr.products@.len() == v.products@.len()
    &&& pr.badges@.len() == v.badges@.len()
}

/// The rich leaf of one product.
pub open spec fn product_leaf(
    p: ProductView,
    section: SectionKind,
    price: u64,
    discount_prefix: Seq<char>,
) -> LeafV {
    LeafV::Rich {
        section,
        id: match p.id {
            Some(i) => i,
            None => 0,
        },
        price: price as i64,
        name: display_name(p, discount_prefix),
        description: match p.description {
            Some(d) => d,
            None => Seq::empty(),
        },
    }
}

/// The first `n` products of a section inserted into the tree, each under
/// its own `path` or else the section's path.
pub open spec fn add_section(
    t: Seq<(Seq<char>, NodeV)>,
    es: Seq<(Seq<char>, ProductView)>,
    prices: Seq<u64>,
    section_path: Seq<char>,
    section: SectionKind,
    discount_prefix: Seq<char>,
    n: nat,
) -> Seq<(Seq<char>, NodeV)>
    decreases n,
{
    if n == 0 || n > es.len() {
        t
    } else {
        let e = es[n - 1];
        tree_insert(
            add_section(t, es, prices, section_path, section, discount_prefix, (n - 1) as nat),
            split_dots(
                match e.1.path {
                    Some(p) => p,
                    None => section_path,
                },
            ),
            e.0,
            product_leaf(e.1, section, prices[n - 1], discount_prefix),
        )
    }
}

/// Position of the last `.` in `s`, or -1.
pub open spec fn last_dot(s: Seq<char>) -> int
    decreases s.len(),
{
    if s.len() == 0 {
        -1
    } else if s.last() == '.' {
        s.len() - 1
    } else {
        last_dot(s.drop_last())
    }
}

/// The path and the leaf key of a `[codegen.extra]` key: split at the
/// last `.`.
pub open spec fn extra_path(k: Seq<char>) -> Seq<char> {
    if last_dot(k) >= 0 {
        k.take(last_dot(k))
    } else {
        Seq::empty()
    }
}

pub open spec fn extra_key(k: Seq<char>) -> Seq<char> {
    if last_dot(k) >= 0 {
        k.skip(last_dot(k) + 1)
    } else {
        k
    }
}

/// The first `n` extras inserted as `{ id = N }` leaves.
pub open spec fn add_extras(t: Seq<(Seq<char>, NodeV)>, xs: Seq<(Seq<char>, u64)>, n: nat) -> Seq<
    (Seq<char>, NodeV),
>
    decreases n,
{
    if n == 0 || n > xs.len() {
        t
    } else {
        tree_insert(
            add_extras(t, xs, (n - 1) as nat),
            split_dots(extra_path(xs[n - 1].0)),
            extra_key(xs[n - 1].0),
            LeafV::IdOnly(xs[n - 1].1),
        )
    }
}

pub open spec fn pairs_view(s: Seq<(String, String)>) -> Seq<(Seq<char>, Seq<char>)> {
    s.map_values(|e: (String, String)| (e.0@, e.1@))
}

pub open spec fn extras_view(s: Seq<(String, u64)>) -> Seq<(Seq<char>, u64)> {
    s.map_values(|e: (String, u64)| (e.0@, e.1))
}

/// The value under the first entry with key `k`.
pub open spec fn lookup_pair(s: Seq<(Seq<char>, Seq<char>)>, k: Seq<char>) -> Option<Seq<char>>
    decreases s.len(),
{
    if s.len() == 0 {
        None
    } else if s[0].0 == k {
        Some(s[0].1)
    } else {
        lookup_pair(s.drop_first(), k)
    }
}

/// The dotted path of a built-in section: `[codegen.paths]`, or the
/// section's own name.
pub open spec fn section_path(v: VCSProducts, name: Seq<char>) -> Seq<char> {
    match lookup_pair(pairs_view(v.codegen.paths@), name) {
        Some(p) => p,
        None => name,
    }
}

pub open spec fn prefix_of(v: VCSProducts) -> Seq<char> {
    match ov(v.metadata.discount_prefix) {
        Some(p) => p,
        None => default_prefix(),
    }
}

/// The tree of the generated table: passes, then products, then badges,
/// then the extras.
pub open spec fn codegen_tree_of(v: VCSProducts, pr: SectionPrices) -> Seq<(Seq<char>, NodeV)> {
    let dp = prefix_of(v);
    let t1 = add_section(
        Seq::empty(),
        v.passes@,
        pr.passes@,
        section_path(v, "passes"@),
        SectionKind::Pass,
        dp,
        v.passes@.len(),
    );
    let t2 = add_section(
        t1,
        v.products@,
        pr.products@,
        section_path(v, "products"@),
        SectionKind::Product,
        dp,
        v.products@.len(),
    );
    let t3 = add_section(
        t2,
        v.badges@,
        pr.badges@,
        section_path(v, "badges"@),
        SectionKind::Badge,
        dp,
        v.badges@.len(),
    );
    add_extras(t3, extras_view(v.codegen.extra@), v.codegen.extra@.len())
}

fn resolve_section(v: &VCSProducts, name: &str) -> (r: String)
    ensures
        r@ == section_path(*v, name@),
{
    let ghost ps = pairs_view(v.codegen.paths@);
    let mut i: usize = 0;
    assert(ps.skip(0) =~= ps);
    while i < v.codegen.paths.len()
        invariant
            0 <= i <= v.codegen.paths@.len(),
            ps == pairs_view(v.codegen.paths@),
            lookup_pair(ps, name@) == lookup_pair(ps.skip(i as int), name@),
        decreases v.codegen.paths@.len() - i,
    {
        let ghost rest = ps.skip(i as int);
        assert(rest[0] == (v.codegen.paths@[i as int].0@, v.codegen.paths@[i as int].1@));
        if crate::text::str_eq(v.codegen.paths[i].0.as_str(), name) {
            return v.codegen.paths[i].1.clone();
        }
        assert(rest.drop_first() =~= ps.skip(i + 1));
        i += 1;
    }
    to_owned_string(name)
}

fn add_section_exec(
    tree: &mut Vec<(String, CodegenNode)>,
    map: &ProductMap,
    prices: &Vec<u64>,
    section_path: &String,
    section: SectionKind,
    discount_prefix: &String,
)
    requires
        prices@.len() == map@.len(),
    ensures
        entries_v(final(tree)@) == add_section(
            entries_v(old(tree)@),
            map@,
            prices@,
            section_path@,
            section,
            discount_prefix@,
            map@.len(),
        ),
{
    let ghost t0 = entries_v(tree@);
    let mut i: usize = 0;
    while i < map.len()
        invariant
            0 <= i <= map@.len(),
            prices@.len() == map@.len(),
            entries_v(tree@) == add_section(
                t0,
                map@,
                prices@,
                section_path@,
                section,
                discount_prefix@,
                i as nat,
            ),
        decreases map@.len() - i,
    {
        let key = map.key_at(i);
        let p = map.value_at(i);
        let path: &str = match &p.path {
            Some(x) => x.as_str(),
            None => section_path.as_str(),
        };
        let segs = split_path(path);
        let leaf = LeafKind::Rich {
            section,
            id: match p.id {
                Some(x) => x,
                None => 0,
            },
            price: prices[i] as i64,
            name: format_display_name(p, discount_prefix.as_str()),
            description: match &p.description {
                Some(d) => d.clone(),
                None => String::new(),
            },
        };
        assert(leaf@ == product_leaf(p@, section, prices@[i as int], discount_prefix@));
        insert_into_tree(tree, &segs, key, leaf);
        i += 1;
    }
}

fn last_dot_index(c: &Vec<char>) -> (r: Option<usize>)
    ensures
        match r {
            Some(i) => last_dot(c@) == i as int && i < c@.len(),
            None => last_dot(c@) == -1,
        },
{
    let mut k: usize = c.len();
    assert(c@.take(k as int) =~= c@);
    while k > 0
        invariant
            0 <= k <= c@.len(),
            last_dot(c@) == last_dot(c@.take(k as int)),
        decreases k,
    {
        let ghost pre = c@.take(k as int);
        assert(pre.drop_last() =~= c@.take(k - 1));
        if c[k - 1] == '.' {
            assert(pre.last() == '.');
            return Some(k - 1);
        }
        k -= 1;
    }
    assert(c@.take(0) =~= Seq::<char>::empty());
    None
}

fn add_extras_exec(tree: &mut Vec<(String, CodegenNode)>, extra: &Vec<(String, u64)>)
    ensures
        entries_v(final(tree)@) == add_extras(
            entries_v(old(tree)@),
            extras_view(extra@),
            extra@.len(),
        ),
{
    let ghost t0 = entries_v(tree@);
    let ghost xs = extras_view(extra@);
    let mut i: usize = 0;
    while i < extra.len()
        invariant
            0 <= i <= extra@.len(),
            xs == extras_view(extra@),
            entries_v(tree@) == add_extras(t0, xs, i as nat),
        decreases extra@.len() - i,
    {
        let c = chars_of_string(&extra[i].0);
        let id = extra[i].1;
        assert(xs[i as int] == (extra@[i as int].0@, id));
        let (path, key): (Vec<char>, Vec<char>) = match last_dot_index(&c) {
            Some(d) => {
                let mut p: Vec<char> = Vec::new();
                let mut q: Vec<char> = Vec::new();
                let mut j: usize = 0;
                while j < c.len()
                    invariant
                        0 <= j <= c@.len(),
                        d < c@.len(),
                        j <= d ==> p@ == c@.take(j as int) && q@.len() == 0,
                        j > d ==> p@ == c@.take(d as int) && q@ == c@.subrange(
                            d + 1,
                            j as int,
                        ),
                    decreases c@.len() - j,
                {
                    if j < d {
                        p.push(c[j]);
                        assert(p@ =~= c@.take(j + 1));
                    } else if j > d {
                        q.push(c[j]);
                        assert(q@ =~= c@.subrange(d + 1, j + 1));
                    }
                    j += 1;
                }
                assert(q@ =~= c@.skip(d + 1));
                (p, q)
            },
            None => (Vec::new(), c),
        };
        let path_s = string_from_chars(&path);
        let key_s = string_from_chars(&key);
        let segs = split_path(path_s.as_str());
        proof {
            if last_dot(c@) < 0 {
                assert(path@ =~= extra_path(c@));
            }
        }
        insert_into_tree(tree, &segs, &key_s, LeafKind::IdOnly(id));
        i += 1;
    }
}

/// Builds the tree of the generated table (see `codegen_tree_of`).
pub fn build_codegen_tree(v: &VCSProducts, prices: &SectionPrices) -> (r: Vec<(String, CodegenNode)>)
    requires
        prices_fit(*v, *prices),
    ensures
        entries_v(r@) == codegen_tree_of(*v, *prices),
{
    let dp = match &v.metadata.discount_prefix {
        Some(p) => p.clone(),
        None => to_owned_string("💲{}% OFF💲 "),
    };
    let pass_path = resolve_section(v, "passes");
    let prod_path = resolve_section(v, "products");
    let badge_path = resolve_section(v, "badges");
    let mut tree: Vec<(String, CodegenNode)> = Vec::new();
    assert(entries_v(tree@) =~= Seq::<(Seq<char>, NodeV)>::empty());
    add_section_exec(&mut tree, &v.passes, &prices.passes, &pass_path, SectionKind::Pass, &dp);
    add_section_exec(
        &mut tree,
        &v.products,
        &prices.products,
        &prod_path,
        SectionKind::Product,
        &dp,
    );
    add_section_exec(&mut tree, &v.badges, &prices.badges, &badge_path, SectionKind::Badge, &dp);
    add_extras_exec(&mut tree, &v.codegen.extra);
    tree
}

/// The first lines of the Luau module: the notice and the exported types.
pub open spec fn luau_header() -> Seq<char> {
    "-- This file is automatically generated by rbxmonet. Do not edit this file directly.\n"@
        + "export type Kind = \"Pass\" | \"Product\" | \"Badge\"\n"@
        + "export type Pass = { id: number, price: number, kind: Kind, name: string, description: string }\n"@
        + "export type Product = { id: number, price: number, kind: Kind, name: string, description: string }\n"@
        + "export type Badge = { id: number, kind: Kind, name: string, description: string }\n\n"@
}

/// The first lines of the declaration file.
pub open spec fn dts_header() -> Seq<char> {
    "// This file is automatically generated by rbxmonet. Do not edit this file directly.\n"@
        + "export type Kind = \"Pass\" | \"Product\" | \"Badge\";\n"@
        + "export interface Pass { id: number; price: number; kind: \"Pass\"; name: string; description: string }\n"@
        + "export interface Product { id: number; price: number; kind: \"Product\"; name: string; description: string }\n"@
        + "export interface Badge { id: number; kind: \"Badge\"; name: string; description: string }\n\n"@
}

/// A file to write.
pub struct GeneratedFile {
    pub path: String,
    pub contents: String,
}

/// The files `serialize_luau` writes.
pub struct LuauOutput {
    pub luau: GeneratedFile,
    pub dts: Option<GeneratedFile>,
}

pub open spec fn luau_text(v: VCSProducts, pr: SectionPrices) -> Seq<char> {
    let t = codegen_tree_of(v, pr);
    luau_header() + match v.codegen.style {
        CodegenStyle::Flat => flat_text(t),
        CodegenStyle::Nested => nested_text(t),
    }
}

pub open spec fn dts_text(v: VCSProducts, pr: SectionPrices, output: Seq<char>) -> Seq<char> {
    let t = codegen_tree_of(v, pr);
    let var = module_name_of(output);
    dts_header() + match v.codegen.style {
        CodegenStyle::Flat => flat_dts_text(t, var),
        CodegenStyle::Nested => nested_dts_text(t, var),
    }
}

impl VCSProducts {
    /// The generated files: `None` when `codegen.output` is not set, else
    /// the Luau module at that path and, with `codegen.typescript`, the
    /// declaration file beside it.
    pub fn render_luau(&self, prices: &SectionPrices) -> (r: Option<LuauOutput>)
        requires
            prices_fit(*self, *prices),
        ensures
            ov(self.codegen.output) is None ==> r is None,
            ov(self.codegen.output) matches Some(out) ==> {
                &&& r is Some
                &&& r->0.luau.path@ == out
                &&& r->0.luau.contents@ == luau_text(*self, *prices)
                &&& self.codegen.typescript ==> (r->0.dts matches Some(d) && d.path@ == dts_path_of(
                    out,
                ) && d.contents@ == dts_text(*self, *prices, out))
                &&& !self.codegen.typescript ==> r->0.dts is None
            },
    {
        let output = match &self.codegen.output {
            Some(o) => o.clone(),
            None => {
                return None;
            },
        };
        let tree = build_codegen_tree(self, prices);
        let mut contents: Vec<char> = Vec::new();
        push_str(
            &mut contents,
            "-- This file is automatically generated by rbxmonet. Do not edit this file directly.\n",
        );
        push_str(&mut contents, "export type Kind = \"Pass\" | \"Product\" | \"Badge\"\n");
        push_str(
            &mut contents,
            "export type Pass = { id: number, price: number, kind: Kind, name: string, description: string }\n",
        );
        push_str(
            &mut contents,
            "export type Product = { id: number, price: number, kind: Kind, name: string, description: string }\n",
        );
        push_str(
            &mut contents,
            "export type Badge = { id: number, kind: Kind, name: string, description: string }\n\n",
        );
        assert(contents@ =~= luau_header());
        match self.codegen.style {
            CodegenStyle::Flat => render_flat(&mut contents, &tree),
            CodegenStyle::Nested => render_nested(&mut contents, &tree),
        }
        let luau = GeneratedFile { path: output.clone(), contents: string_from_chars(&contents) };
        if !self.codegen.typescript {
            return Some(LuauOutput { luau, dts: None });
        }
        let dts_path = derive_dts_path(output.as_str());
        let var_name = derive_module_name(output.as_str());
        let mut dts: Vec<char> = Vec::new();
        push_str(
            &mut dts,
            "// This file is automatically generated by rbxmonet. Do not edit this file directly.\n",
        );
        push_str(&mut dts, "export type Kind = \"Pass\" | \"Product\" | \"Badge\";\n");
        push_str(
            &mut dts,
            "export interface Pass { id: number; price: number; kind: \"Pass\"; name: string; description: string }\n",
        );
        push_str(
            &mut dts,
            "export interface Product { id: number; price: number; kind: \"Product\"; name: string; description: string }\n",
        );
        push_str(
            &mut dts,
            "export interface Badge { id: number; kind: \"Badge\"; name: string; description: string }\n\n",
        );
        assert(dts@ =~= dts_header());
        match self.codegen.style {
            CodegenStyle::Flat => render_flat_dts(&mut dts, &tree, var_name.as_str()),
            CodegenStyle::Nested => render_nested_dts(&mut dts, &tree, var_name.as_str()),
        }
        Some(
            LuauOutput {
                luau,
                dts: Some(GeneratedFile { path: dts_path, contents: string_from_chars(&dts) }),
            },
        )
    }
}

} // verus!
