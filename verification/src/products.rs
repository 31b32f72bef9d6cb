//! The products file model: products, the slug-keyed sections that hold
//! them, and the per-product operations (title, discount, diff against the
//! remote copy, slug normalization).
use vstd::prelude::*;
use dyn_fmt::AsStrFormatExt;
use crate::diffs::{ChangeV, DiffChange, FieldV, ProductDiff, ProductDiffs, ProductDiffsV, changes_v};
use crate::names::NameFilters;
use crate::text::{chars_of, chars_of_string, dec, push_str, string_from_chars};

verus! {

#[derive(Debug, Clone, Copy, PartialEq, Eq, PartialOrd, Ord, Hash, Structural)]
pub enum ProductType {
    Pass,
    DevProduct,
    Badge,
}

/// The rank `Ord` gives a product type (declaration order).
pub open spec fn type_rank(t: ProductType) -> int {
    match t {
        ProductType::Pass => 0,
        ProductType::DevProduct => 1,
        ProductType::Badge => 2,
    }
}

pub fn product_type_rank(t: ProductType) -> (r: u8)
    ensures
        r as int == type_rank(t),
{
    match t {
        ProductType::Pass => 0,
        ProductType::DevProduct => 1,
        ProductType::Badge => 2,
    }
}

/// Layout of the generated Luau table.
#[derive(Debug, Clone, Copy, PartialEq, Eq, Structural)]
pub enum CodegenStyle {
    Flat,
    Nested,
}

impl Default for CodegenStyle {
    fn default() -> (r: Self)
        ensures
            r == CodegenStyle::Flat,
    {
        CodegenStyle::Flat
    }
}

/// A pass, developer product or badge as the products file records it.
#[derive(Debug)]
pub struct Product {
    pub id: Option<u64>,
    pub name: String,
    pub prefix: Option<String>,
    pub description: Option<String>,
    pub active: bool,
    pub discount: Option<u8>,
    pub price: i64,
    pub regional_pricing: Option<bool>,
    pub icon: Option<String>,
    pub icon_id: Option<u64>,
    pub icon_hash: Option<String>,
    pub path: Option<String>,
}

pub struct ProductView {
    pub id: Option<u64>,
    pub name: Seq<char>,
    pub prefix: Option<Seq<char>>,
    pub description: Option<Seq<char>>,
    pub active: bool,
    pub discount: Option<u8>,
    pub price: i64,
    pub regional_pricing: Option<bool>,
    pub icon: Option<Seq<char>>,
    pub icon_id: Option<u64>,
    pub icon_hash: Option<Seq<char>>,
    pub path: Option<Seq<char>>,
}

pub open spec fn ov(o: Option<String>) -> Option<Seq<char>> {
    match o {
        Some(s) => Some(s@),
        None => None,
    }
}

pub fn clone_opt(o: &Option<String>) -> (r: Option<String>)
    ensures
        ov(r) == ov(*o),
{
    match o {
        Some(s) => Some(s.clone()),
        None => None,
    }
}

impl View for Product {
    type V = ProductView;

    open spec fn view(&self) -> ProductView {
        ProductView {
            id: self.id,
            name: self.name@,
            prefix: ov(self.prefix),
            description: ov(self.description),
            active: self.active,
            discount: self.discount,
            price: self.price,
            regional_pricing: self.regional_pricing,
            icon: ov(self.icon),
            icon_id: self.icon_id,
            icon_hash: ov(self.icon_hash),
            path: ov(self.path),
        }
    }
}

/// A discount is in effect when it is set and above zero.
pub open spec fn discounted(p: ProductView) -> bool {
    match p.discount {
        Some(d) => d > 0,
        None => false,
    }
}

/// The title pushed to Roblox: the name, after the prefix when one is set
/// and no discount is in effect.
pub open spec fn title_of(p: ProductView) -> Seq<char> {
    if discounted(p) {
        p.name
    } else {
        match p.prefix {
            Some(x) => x + " "@ + p.name,
            None => p.name,
        }
    }
}

/// What `dyn_fmt`'s `format` writes for the format string `f` when the
/// argument still to place is `arg` (`None` once it was placed): `{}`
/// takes the argument (nothing once it is used), a brace followed by any
/// other character keeps that character (`{{` gives `{`, `}}` gives `}`),
/// a brace at the very end is dropped, everything else is copied.
pub open spec fn dyn_format(f: Seq<char>, arg: Option<Seq<char>>) -> Seq<char>
    decreases f.len(),
{
    if f.len() == 0 {
        Seq::empty()
    } else if f[0] == '{' || f[0] == '}' {
        if f.len() == 1 {
            Seq::empty()
        } else if f[0] == '{' && f[1] == '}' {
            let placed = match arg {
                Some(a) => a,
                None => Seq::empty(),
            };
            placed + dyn_format(f.skip(2), None)
        } else {
            seq![f[1]] + dyn_format(f.skip(2), arg)
        }
    } else {
        seq![f[0]] + dyn_format(f.skip(1), arg)
    }
}

/// `fmt.format(&[arg])` of `dyn_fmt::AsStrFormatExt`: the format string
/// with its `{}` replaced by the decimal digits of `arg` (see
/// `dyn_format`, which follows the crate's `Display for Arguments`).
#[verifier::external_body]
fn format_discount(fmt: &str, arg: u8) -> (r: String)
    ensures
        r@ == dyn_format(fmt@, Some(dec(arg as nat))),
{
    fmt.format(&[arg])
}

/// The title compared with the remote name in a diff: with a discount in
/// effect (above zero) and a discount prefix configured, the formatted
/// prefix, a space, then the title.
pub open spec fn diff_title(p: ProductView, discount_prefix: Option<Seq<char>>) -> Seq<char> {
    match (p.discount, discount_prefix) {
        (Some(d), Some(prefix)) if d > 0 => dyn_format(prefix, Some(dec(d as nat))) + " "@ + title_of(p),
        _ => title_of(p),
    }
}

pub open spec fn seq_change(old: Seq<char>, new: Seq<char>, f: FieldV) -> ChangeV {
    if old != new {
        ChangeV::Changed(f)
    } else {
        ChangeV::Unchanged(f)
    }
}

/// The five compared fields, remote value first: title, description,
/// price, regional pricing, active.
pub open spec fn diff_changes(
    p: ProductView,
    other: ProductView,
    discount_prefix: Option<Seq<char>>,
    price: u64,
) -> Seq<ChangeV> {
    let title = diff_title(p, discount_prefix);
    let od = other.description.unwrap();
    let pd = match p.description {
        Some(d) => d,
        None => Seq::empty(),
    };
    let op = other.price as u64;
    let orp = match other.regional_pricing {
        Some(b) => b,
        None => false,
    };
    let prp = match p.regional_pricing {
        Some(b) => b,
        None => false,
    };
    seq![
        seq_change(other.name, title, FieldV::Title(other.name, title)),
        seq_change(od, pd, FieldV::Description(od, pd)),
        if op != price {
            ChangeV::Changed(FieldV::Price(op, price))
        } else {
            ChangeV::Unchanged(FieldV::Price(op, price))
        },
        if orp != prp {
            ChangeV::Changed(FieldV::RegionalPricing(orp, prp))
        } else {
            ChangeV::Unchanged(FieldV::RegionalPricing(orp, prp))
        },
        if other.active != p.active {
            ChangeV::Changed(FieldV::Active(other.active, p.active))
        } else {
            ChangeV::Unchanged(FieldV::Active(other.active, p.active))
        },
    ]
}

pub open spec fn any_changed(cs: Seq<ChangeV>) -> bool {
    exists|i: int| 0 <= i < cs.len() && #[trigger] cs[i] is Changed
}

/// The diff of a local product against its remote copy, when any field
/// differs.
pub open spec fn product_diff(
    p: ProductView,
    other: ProductView,
    discount_prefix: Option<Seq<char>>,
    price: u64,
) -> Option<ProductDiffsV> {
    let cs = diff_changes(p, other, discount_prefix, price);
    if any_changed(cs) {
        Some(
            ProductDiffsV {
                name: p.name,
                id: match p.id {
                    Some(i) => i,
                    None => 0,
                },
                diffs: cs,
            },
        )
    } else {
        None
    }
}

/// A product has no diff against its remote copy exactly when the copy
/// agrees on the title, description, price, regional pricing and active
/// flag.
pub proof fn lemma_no_diff_iff_agree(
    p: ProductView,
    other: ProductView,
    discount_prefix: Option<Seq<char>>,
    price: u64,
)
    ensures
        product_diff(p, other, discount_prefix, price) is None <==> {
            &&& other.name == diff_title(p, discount_prefix)
            &&& other.description.unwrap() == match p.description {
                Some(d) => d,
                None => Seq::empty(),
            }
            &&& other.price as u64 == price
            &&& match other.regional_pricing {
                Some(b) => b,
                None => false,
            } == match p.regional_pricing {
                Some(b) => b,
                None => false,
            }
            &&& other.active == p.active
        },
{
    let cs = diff_changes(p, other, discount_prefix, price);
    assert(cs.len() == 5);
    if any_changed(cs) {
        let i = choose|i: int| 0 <= i < cs.len() && #[trigger] cs[i] is Changed;
        assert(0 <= i < 5);
    } else {
        assert(!(cs[0] is Changed));
        assert(!(cs[1] is Changed));
        assert(!(cs[2] is Changed));
        assert(!(cs[3] is Changed));
        assert(!(cs[4] is Changed));
    }
}

pub open spec fn opt_diffs_v(d: Option<ProductDiffs>) -> Option<ProductDiffsV> {
    match d {
        Some(x) => Some(x@),
        None => None,
    }
}

fn string_change(old: String, new: String, make: u8) -> (r: DiffChange)
    requires
        make < 3,
    ensures
        make == 0 ==> r@ == seq_change(old@, new@, FieldV::Title(old@, new@)),
        make == 1 ==> r@ == seq_change(old@, new@, FieldV::Description(old@, new@)),
        make == 2 ==> r@ == seq_change(old@, new@, FieldV::Prefix(old@, new@)),
{
    let differ = old != new;
    let d = if make == 0 {
        ProductDiff::Title(old, new)
    } else if make == 1 {
        ProductDiff::Description(old, new)
    } else {
        ProductDiff::Prefix(old, new)
    };
    if differ {
        DiffChange::Changed(d)
    } else {
        DiffChange::Unchanged(d)
    }
}

impl Product {
    pub fn duplicate(&self) -> (r: Product)
        ensures
            r@ == self@,
    {
        Product {
            id: self.id,
            name: self.name.clone(),
            prefix: clone_opt(&self.prefix),
            description: clone_opt(&self.description),
            active: self.active,
            discount: self.discount,
            price: self.price,
            regional_pricing: self.regional_pricing,
            icon: clone_opt(&self.icon),
            icon_id: self.icon_id,
            icon_hash: clone_opt(&self.icon_hash),
            path: clone_opt(&self.path),
        }
    }

    pub fn has_discount(&self) -> (r: bool)
        ensures
            r == discounted(self@),
    {
        match self.discount {
            Some(d) => d > 0,
            None => false,
        }
    }

    pub fn get_title(&self) -> (r: String)
        ensures
            r@ == title_of(self@),
    {
        if self.has_discount() {
            return self.name.clone();
        }
        match &self.prefix {
            Some(prefix) => {
                let mut out = chars_of_string(prefix);
                push_str(&mut out, " ");
                push_str(&mut out, self.name.as_str());
                string_from_chars(&out)
            },
            None => self.name.clone(),
        }
    }

    /// Compares this local product with its remote copy `other`; `price` is
    /// this product's price after its discount. `None` when every field
    /// agrees.
    pub fn diff(&self, other: &Product, metadata: Option<&Metadata>, price: u64) -> (r: Option<
        ProductDiffs,
    >)
        requires
            other.description is Some,
        ensures
            opt_diffs_v(r) == product_diff(
                self@,
                other@,
                match metadata {
                    Some(m) => ov(m.discount_prefix),
                    None => None,
                },
                price,
            ),
    {
        let ghost dp = match metadata {
            Some(m) => ov(m.discount_prefix),
            None => None,
        };
        let title = match metadata {
            Some(m) => match (self.discount, &m.discount_prefix) {
                (Some(d), Some(prefix)) if d > 0 => {
                    let f = format_discount(prefix.as_str(), d);
                    let mut out = chars_of_string(&f);
                    push_str(&mut out, " ");
                    let t = self.get_title();
                    push_str(&mut out, t.as_str());
                    string_from_chars(&out)
                },
                _ => self.get_title(),
            },
            None => self.get_title(),
        };
        assert(title@ == diff_title(self@, dp));
        let description = match &self.description {
            Some(d) => d.clone(),
            None => String::new(),
        };
        let other_description = match &other.description {
            Some(d) => d.clone(),
            None => String::new(),
        };
        let mut diffs: Vec<DiffChange> = Vec::new();
        diffs.push(string_change(other.name.clone(), title, 0));
        diffs.push(string_change(other_description, description, 1));
        let op = other.price as u64;
        if op != price {
            diffs.push(DiffChange::Changed(ProductDiff::Price(op, price)));
        } else {
            diffs.push(DiffChange::Unchanged(ProductDiff::Price(op, price)));
        }
        let orp = match other.regional_pricing {
            Some(b) => b,
            None => false,
        };
        let prp = match self.regional_pricing {
            Some(b) => b,
            None => false,
        };
        if orp != prp {
            diffs.push(DiffChange::Changed(ProductDiff::RegionalPricing(orp, prp)));
        } else {
            diffs.push(DiffChange::Unchanged(ProductDiff::RegionalPricing(orp, prp)));
        }
        if other.active != self.active {
            diffs.push(DiffChange::Changed(ProductDiff::Active(other.active, self.active)));
        } else {
            diffs.push(DiffChange::Unchanged(ProductDiff::Active(other.active, self.active)));
        }
        let ghost cs = diff_changes(self@, other@, dp, price);
        assert(changes_v(diffs@) =~= cs);
        let mut has_diffs = false;
        let mut i: usize = 0;
        while i < diffs.len()
            invariant
                0 <= i <= diffs@.len(),
                changes_v(diffs@) == cs,
                has_diffs == exists|j: int| 0 <= j < i && #[trigger] cs[j] is Changed,
            decreases diffs@.len() - i,
        {
            if diffs[i].is_changed() {
                has_diffs = true;
            }
            assert(cs[i as int] == diffs@[i as int]@);
            i += 1;
        }
        if has_diffs {
            Some(
                ProductDiffs {
                    name: self.name.clone(),
                    id: match self.id {
                        Some(i) => i,
                        None => 0,
                    },
                    diffs,
                },
            )
        } else {
            None
        }
    }
}

// ---------------------------------------------------------------------------
// Sections: products keyed by slug
// ---------------------------------------------------------------------------
pub open spec fn entries_view(s: Seq<(String, Product)>) -> Seq<(Seq<char>, ProductView)> {
    s.map_values(|e: (String, Product)| (e.0@, e.1@))
}

pub open spec fn unique_keys(s: Seq<(Seq<char>, ProductView)>) -> bool {
    forall|i: int, j: int| 0 <= i < j < s.len() ==> #[trigger] s[i].0 != #[trigger] s[j].0
}

/// The position of `k`, or -1.
pub open spec fn key_pos(s: Seq<(Seq<char>, ProductView)>, k: Seq<char>) -> int
    decreases s.len(),
{
    if s.len() == 0 {
        -1
    } else if s[0].0 == k {
        0
    } else {
        let r = key_pos(s.drop_first(), k);
        if r < 0 {
            -1
        } else {
            r + 1
        }
    }
}

pub proof fn lemma_key_pos(s: Seq<(Seq<char>, ProductView)>, k: Seq<char>)
    ensures
        -1 <= key_pos(s, k) < s.len(),
        key_pos(s, k) >= 0 ==> s[key_pos(s, k)].0 == k,
        forall|j: int| 0 <= j < s.len() && (key_pos(s, k) < 0 || j < key_pos(s, k)) ==> #[trigger] s[j].0 != k,
    decreases s.len(),
{
    if s.len() > 0 {
        lemma_key_pos(s.drop_first(), k);
        assert forall|j: int| 0 <= j < s.len() && (key_pos(s, k) < 0 || j < key_pos(s, k)) implies #[trigger] s[j].0 != k by {
            if j > 0 {
                assert(s[j] == s.drop_first()[j - 1]);
            }
        }
    }
}

/// The product under `k`.
pub open spec fn pm_get(s: Seq<(Seq<char>, ProductView)>, k: Seq<char>) -> Option<ProductView> {
    let i = key_pos(s, k);
    if i >= 0 {
        Some(s[i].1)
    } else {
        None
    }
}

/// `k` bound to `v`: in place when `k` is present, else appended.
pub open spec fn pm_insert(s: Seq<(Seq<char>, ProductView)>, k: Seq<char>, v: ProductView) -> Seq<
    (Seq<char>, ProductView),
> {
    let i = key_pos(s, k);
    if i >= 0 {
        s.update(i, (k, v))
    } else {
        s.push((k, v))
    }
}

/// `s` without the entry under `k`.
pub open spec fn pm_remove(s: Seq<(Seq<char>, ProductView)>, k: Seq<char>) -> Seq<
    (Seq<char>, ProductView),
> {
    let i = key_pos(s, k);
    if i >= 0 {
        s.remove(i)
    } else {
        s
    }
}

proof fn lemma_key_pos_at(s: Seq<(Seq<char>, ProductView)>, k: Seq<char>, i: int)
    requires
        0 <= i < s.len(),
        s[i].0 == k,
        forall|j: int| 0 <= j < i ==> #[trigger] s[j].0 != k,
    ensures
        key_pos(s, k) == i,
{
    lemma_key_pos(s, k);
}

proof fn lemma_key_pos_absent(s: Seq<(Seq<char>, ProductView)>, k: Seq<char>)
    requires
        forall|j: int| 0 <= j < s.len() ==> #[trigger] s[j].0 != k,
    ensures
        key_pos(s, k) == -1,
{
    lemma_key_pos(s, k);
}

/// A section reads back what was just written under a slug.
pub proof fn lemma_insert_then_get(s: Seq<(Seq<char>, ProductView)>, k: Seq<char>, v: ProductView)
    ensures
        pm_get(pm_insert(s, k, v), k) == Some(v),
{
    lemma_key_pos(s, k);
    let i = key_pos(s, k);
    let t = pm_insert(s, k, v);
    if i >= 0 {
        assert forall|j: int| 0 <= j < i implies #[trigger] t[j].0 != k by {
            assert(t[j] == s[j]);
        }
        lemma_key_pos_at(t, k, i);
    } else {
        assert forall|j: int| 0 <= j < s.len() implies #[trigger] t[j].0 != k by {
            assert(t[j] == s[j]);
        }
        lemma_key_pos_at(t, k, s.len() as int);
    }
}

/// Writing under one slug leaves what every other slug reads.
pub proof fn lemma_insert_keeps_others(s: Seq<(Seq<char>, ProductView)>, k: Seq<char>, v: ProductView, other: Seq<char>)
    requires
        other != k,
    ensures
        pm_get(pm_insert(s, k, v), other) == pm_get(s, other),
{
    lemma_key_pos(s, k);
    lemma_key_pos(s, other);
    let i = key_pos(s, k);
    let p = key_pos(s, other);
    let t = pm_insert(s, k, v);
    assert forall|j: int| 0 <= j < s.len() implies #[trigger] t[j].0 == s[j].0 || (j == i && s[j].0 == k) by {}
    if p >= 0 {
        assert(p != i);
        assert forall|j: int| 0 <= j < p implies #[trigger] t[j].0 != other by {
            assert(s[j].0 != other);
        }
        lemma_key_pos_at(t, other, p);
        assert(t[p] == s[p]);
    } else {
        assert forall|j: int| 0 <= j < t.len() implies #[trigger] t[j].0 != other by {
            if j < s.len() {
                assert(s[j].0 != other);
            }
        }
        lemma_key_pos_absent(t, other);
    }
}

/// After a slug is removed it reads as absent; no slug occurs twice.
pub proof fn lemma_remove_then_get(s: Seq<(Seq<char>, ProductView)>, k: Seq<char>)
    requires
        unique_keys(s),
    ensures
        pm_get(pm_remove(s, k), k) is None,
{
    lemma_key_pos(s, k);
    let i = key_pos(s, k);
    let t = pm_remove(s, k);
    if i >= 0 {
        assert forall|j: int| 0 <= j < t.len() implies #[trigger] t[j].0 != k by {
            if j < i {
                assert(t[j] == s[j]);
            } else {
                assert(t[j] == s[j + 1]);
                assert(s[i].0 != s[j + 1].0);
            }
        }
    }
    lemma_key_pos_absent(t, k);
}

/// Removing one slug leaves what every other slug reads.
pub proof fn lemma_remove_keeps_others(s: Seq<(Seq<char>, ProductView)>, k: Seq<char>, other: Seq<char>)
    requires
        other != k,
    ensures
        pm_get(pm_remove(s, k), other) == pm_get(s, other),
{
    lemma_key_pos(s, k);
    lemma_key_pos(s, other);
    let i = key_pos(s, k);
    let p = key_pos(s, other);
    let t = pm_remove(s, k);
    if i < 0 {
    } else if p < 0 {
        assert forall|j: int| 0 <= j < t.len() implies #[trigger] t[j].0 != other by {
            if j < i {
                assert(t[j] == s[j]);
            } else {
                assert(t[j] == s[j + 1]);
            }
        }
        lemma_key_pos_absent(t, other);
    } else if p < i {
        assert forall|j: int| 0 <= j < p implies #[trigger] t[j].0 != other by {
            assert(t[j] == s[j]);
        }
        assert(t[p] == s[p]);
        lemma_key_pos_at(t, other, p);
    } else {
        assert(p != i);
        assert forall|j: int| 0 <= j < p - 1 implies #[trigger] t[j].0 != other by {
            if j < i {
                assert(t[j] == s[j]);
            } else {
                assert(t[j] == s[j + 1]);
            }
        }
        assert(t[p - 1] == s[p]);
        lemma_key_pos_at(t, other, p - 1);
    }
}

/// Products keyed by slug; no slug occurs twice. Entries keep the order in
/// which they were first inserted.
#[derive(Debug)]
pub struct ProductMap {
    entries: Vec<(String, Product)>,
}

impl View for ProductMap {
    type V = Seq<(Seq<char>, ProductView)>;

    closed spec fn view(&self) -> Seq<(Seq<char>, ProductView)> {
        entries_view(self.entries@)
    }
}

impl ProductMap {
    #[verifier::type_invariant]
    closed spec fn keys_unique(self) -> bool {
        unique_keys(entries_view(self.entries@))
    }

    pub fn new() -> (r: ProductMap)
        ensures
            r@ == Seq::<(Seq<char>, ProductView)>::empty(),
    {
        let r = ProductMap { entries: Vec::new() };
        assert(r@ =~= Seq::<(Seq<char>, ProductView)>::empty());
        r
    }

    pub fn len(&self) -> (r: usize)
        ensures
            r == self@.len(),
    {
        self.entries.len()
    }

    /// Every map has distinct keys.
    pub fn unique(&self)
        ensures
            unique_keys(self@),
    {
        proof {
            use_type_invariant(self);
        }
    }

    pub fn key_at(&self, i: usize) -> (r: &String)
        requires
            i < self@.len(),
        ensures
            r@ == self@[i as int].0,
    {
        assert(self@[i as int] == (self.entries@[i as int].0@, self.entries@[i as int].1@));
        &self.entries[i].0
    }

    pub fn value_at(&self, i: usize) -> (r: &Product)
        requires
            i < self@.len(),
        ensures
            r@ == self@[i as int].1,
    {
        assert(self@[i as int] == (self.entries@[i as int].0@, self.entries@[i as int].1@));
        &self.entries[i].1
    }

    /// Position of `key`, or `None`.
    pub fn position(&self, key: &str) -> (r: Option<usize>)
        ensures
            r matches Some(i) ==> i as int == key_pos(self@, key@) && i < self@.len() && self@[i as int].0 == key@,
            r is None ==> key_pos(self@, key@) < 0,
    {
        let kc = chars_of(key);
        let ghost s = self@;
        proof {
            lemma_key_pos(s, key@);
        }
        let mut i: usize = 0;
        while i < self.entries.len()
            invariant
                0 <= i <= s.len(),
                s == self@,
                kc@ == key@,
                s == entries_view(self.entries@),
                forall|j: int| 0 <= j < i ==> #[trigger] s[j].0 != key@,
                -1 <= key_pos(s, key@) < s.len(),
                key_pos(s, key@) >= 0 ==> s[key_pos(s, key@)].0 == key@,
                forall|j: int| 0 <= j < s.len() && (key_pos(s, key@) < 0 || j < key_pos(s, key@)) ==> #[trigger] s[j].0 != key@,
            decreases s.len() - i,
        {
            let kk = chars_of_string(&self.entries[i].0);
            assert(s[i as int] == (self.entries@[i as int].0@, self.entries@[i as int].1@));
            if crate::text::chars_eq(&kk, &kc) {
                assert(s[i as int].0 == key@);
                return Some(i);
            }
            i += 1;
        }
        None
    }

    pub fn get(&self, key: &str) -> (r: Option<&Product>)
        ensures
            match r {
                Some(p) => pm_get(self@, key@) == Some(p@),
                None => pm_get(self@, key@) is None,
            },
    {
        match self.position(key) {
            Some(i) => {
                assert(self@[i as int] == (self.entries@[i as int].0@, self.entries@[i as int].1@));
                Some(&self.entries[i].1)
            },
            None => None,
        }
    }

    pub fn contains_key(&self, key: &str) -> (r: bool)
        ensures
            r == (pm_get(self@, key@) is Some),
    {
        self.position(key).is_some()
    }

    /// Binds `key` to `value`, in place when the key is present.
    pub fn insert(&mut self, key: String, value: Product)
        ensures
            final(self)@ == pm_insert(old(self)@, key@, value@),
    {
        proof {
            use_type_invariant(&*self);
            lemma_key_pos(self@, key@);
        }
        let ghost s = self@;
        let pos = self.position(key.as_str());
        let mut entries: Vec<(String, Product)> = Vec::new();
        std::mem::swap(&mut entries, &mut self.entries);
        match pos {
            Some(i) => {
                entries.set(i, (key, value));
                proof {
                    assert(entries_view(entries@) =~= s.update(i as int, (key@, value@)));
                }
            },
            None => {
                entries.push((key, value));
                proof {
                    assert(entries_view(entries@) =~= s.push((key@, value@)));
                }
            },
        }
        self.entries = entries;
    }

    /// Removes the entry under `key`, returning its product.
    pub fn remove(&mut self, key: &str) -> (r: Option<Product>)
        ensures
            final(self)@ == pm_remove(old(self)@, key@),
            match r {
                Some(p) => pm_get(old(self)@, key@) == Some(p@),
                None => pm_get(old(self)@, key@) is None,
            },
    {
        proof {
            use_type_invariant(&*self);
            lemma_key_pos(self@, key@);
        }
        let ghost s = self@;
        match self.position(key) {
            Some(i) => {
                let mut entries: Vec<(String, Product)> = Vec::new();
                std::mem::swap(&mut entries, &mut self.entries);
                let (_k, v) = entries.remove(i);
                proof {
                    assert(entries_view(entries@) =~= s.remove(i as int));
                }
                self.entries = entries;
                Some(v)
            },
            None => None,
        }
    }

    /// Replaces the product at position `i`, keeping its key.
    pub fn set_value_at(&mut self, i: usize, value: Product)
        requires
            i < old(self)@.len(),
        ensures
            final(self)@ == old(self)@.update(i as int, (old(self)@[i as int].0, value@)),
    {
        proof {
            use_type_invariant(&*self);
        }
        let ghost s = self@;
        let key = self.entries[i].0.clone();
        let mut entries: Vec<(String, Product)> = Vec::new();
        std::mem::swap(&mut entries, &mut self.entries);
        entries.set(i, (key, value));
        assert(entries_view(entries@) =~= s.update(i as int, (s[i as int].0, value@)));
        self.entries = entries;
    }
}

// ---------------------------------------------------------------------------
// The products file
// ---------------------------------------------------------------------------
/// `[metadata]`.
#[derive(Debug)]
pub struct Metadata {
    pub universe_id: u64,
    pub discount_prefix: Option<String>,
    pub name_filters: Option<NameFilters>,
}

/// `[codegen]`.
#[derive(Debug)]
pub struct CodegenConfig {
    pub output: Option<String>,
    pub style: CodegenStyle,
    pub typescript: bool,
    /// `[codegen.paths]`: section name to dotted path.
    pub paths: Vec<(String, String)>,
    /// `[codegen.extra]`: dotted key to asset id.
    pub extra: Vec<(String, u64)>,
}

/// The whole products file.
#[derive(Debug)]
pub struct VCSProducts {
    pub metadata: Metadata,
    pub codegen: CodegenConfig,
    pub passes: ProductMap,
    pub products: ProductMap,
    pub badges: ProductMap,
}

/// A product fetched from the universe, tagged with its kind.
#[derive(Debug)]
pub enum MultiProduct {
    Pass(Product),
    DevProduct(Product),
    Badge(Product),
}

impl MultiProduct {
    pub open spec fn kind(&self) -> ProductType {
        match self {
            MultiProduct::Pass(_) => ProductType::Pass,
            MultiProduct::DevProduct(_) => ProductType::DevProduct,
            MultiProduct::Badge(_) => ProductType::Badge,
        }
    }

    pub open spec fn product(&self) -> Product {
        match self {
            MultiProduct::Pass(p) => *p,
            MultiProduct::DevProduct(p) => *p,
            MultiProduct::Badge(p) => *p,
        }
    }

    pub fn split(&self) -> (r: (&Product, ProductType))
        ensures
            *r.0 == self.product(),
            r.1 == self.kind(),
    {
        match self {
            MultiProduct::Pass(p) => (p, ProductType::Pass),
            MultiProduct::DevProduct(p) => (p, ProductType::DevProduct),
            MultiProduct::Badge(p) => (p, ProductType::Badge),
        }
    }
}

// ---------------------------------------------------------------------------
// Slug normalization
// ---------------------------------------------------------------------------
pub open spec fn undash(c: char) -> char {
    if c == '-' {
        '_'
    } else {
        c
    }
}

/// The key with every `-` replaced by `_`.
pub open spec fn snake_key(k: Seq<char>) -> Seq<char> {
    k.map_values(|c: char| undash(c))
}

/// The keys of the first `n` entries that contain `-`, in order.
pub open spec fn dashed_keys(s: Seq<(Seq<char>, ProductView)>, n: nat) -> Seq<Seq<char>>
    decreases n,
{
    if n == 0 || n > s.len() {
        Seq::empty()
    } else if s[n - 1].0.contains('-') {
        dashed_keys(s, (n - 1) as nat).push(s[n - 1].0)
    } else {
        dashed_keys(s, (n - 1) as nat)
    }
}

/// One rename: skipped when the snake_case key is taken, else the entry
/// moves to the snake_case key.
pub open spec fn rename_step(s: Seq<(Seq<char>, ProductView)>, old: Seq<char>) -> Seq<
    (Seq<char>, ProductView),
> {
    let new = snake_key(old);
    if pm_get(s, new) is Some {
        s
    } else {
        match pm_get(s, old) {
            Some(v) => pm_insert(pm_remove(s, old), new, v),
            None => s,
        }
    }
}

pub open spec fn rename_all(s: Seq<(Seq<char>, ProductView)>, olds: Seq<Seq<char>>, n: nat) -> Seq<
    (Seq<char>, ProductView),
>
    decreases n,
{
    if n == 0 || n > olds.len() {
        s
    } else {
        rename_step(rename_all(s, olds, (n - 1) as nat), olds[n - 1])
    }
}

/// `normalize_slug_keys`: every key with `-` moved to its snake_case form,
/// unless that form is already taken.
pub open spec fn normalized(s: Seq<(Seq<char>, ProductView)>) -> Seq<(Seq<char>, ProductView)> {
    let olds = dashed_keys(s, s.len());
    rename_all(s, olds, olds.len())
}

proof fn lemma_rename_step_len(s: Seq<(Seq<char>, ProductView)>, old: Seq<char>)
    ensures
        rename_step(s, old).len() == s.len(),
{
    let new = snake_key(old);
    lemma_key_pos(s, old);
    if pm_get(s, new) is None {
        if pm_get(s, old) is Some {
            let t = pm_remove(s, old);
            assert(new != old);
            lemma_remove_keeps_others(s, old, new);
            lemma_key_pos(t, new);
            assert(t.len() == s.len() - 1);
        }
    }
}

proof fn lemma_rename_all_len(s: Seq<(Seq<char>, ProductView)>, olds: Seq<Seq<char>>, n: nat)
    ensures
        rename_all(s, olds, n).len() == s.len(),
    decreases n,
{
    if n > 0 && n <= olds.len() {
        lemma_rename_all_len(s, olds, (n - 1) as nat);
        lemma_rename_step_len(rename_all(s, olds, (n - 1) as nat), olds[n - 1]);
    }
}

/// Normalizing the slugs neither drops nor adds an entry.
pub proof fn lemma_normalized_len(s: Seq<(Seq<char>, ProductView)>)
    ensures
        normalized(s).len() == s.len(),
{
    let olds = dashed_keys(s, s.len());
    lemma_rename_all_len(s, olds, olds.len());
}

proof fn lemma_snake_has_no_dash(k: Seq<char>)
    ensures
        !snake_key(k).contains('-'),
{
    if snake_key(k).contains('-') {
        let i = choose|i: int| 0 <= i < snake_key(k).len() && #[trigger] snake_key(k)[i] == '-';
        assert(snake_key(k)[i] == undash(k[i]));
    }
}

proof fn lemma_dashed_listed(s: Seq<(Seq<char>, ProductView)>, n: nat)
    requires
        n <= s.len(),
    ensures
        forall|i: int| 0 <= i < n && (#[trigger] s[i]).0.contains('-') ==> dashed_keys(s, n).contains(s[i].0),
        forall|j: int| 0 <= j < dashed_keys(s, n).len() ==> (#[trigger] dashed_keys(s, n)[j]).contains('-'),
    decreases n,
{
    if n > 0 {
        lemma_dashed_listed(s, (n - 1) as nat);
        let prev = dashed_keys(s, (n - 1) as nat);
        assert forall|i: int| 0 <= i < n && (#[trigger] s[i]).0.contains('-') implies dashed_keys(s, n).contains(s[i].0) by {
            if s[n - 1].0.contains('-') {
                assert(dashed_keys(s, n) == prev.push(s[n - 1].0));
                if i < n - 1 {
                    let j = choose|j: int| 0 <= j < prev.len() && prev[j] == s[i].0;
                    assert(prev.push(s[n - 1].0)[j] == s[i].0);
                } else {
                    assert(prev.push(s[n - 1].0)[prev.len() as int] == s[i].0);
                }
            }
        }
        if s[n - 1].0.contains('-') {
            assert forall|j: int| 0 <= j < dashed_keys(s, n).len() implies (#[trigger] dashed_keys(s, n)[j]).contains('-') by {
                if j < prev.len() {
                    assert(dashed_keys(s, n)[j] == prev[j]);
                }
            }
        }
    }
}

/// Every dashed slug still present is waiting for its rename, or its
/// snake_case form is taken.
pub open spec fn dash_settled(cur: Seq<(Seq<char>, ProductView)>, waiting: Seq<Seq<char>>) -> bool {
    forall|k: Seq<char>|
        #[trigger] pm_get(cur, k) is Some && k.contains('-') ==> waiting.contains(k) || pm_get(
            cur,
            snake_key(k),
        ) is Some
}

proof fn lemma_rename_step_settles(cur: Seq<(Seq<char>, ProductView)>, olds: Seq<Seq<char>>, m: int)
    requires
        0 <= m < olds.len(),
        olds[m].contains('-'),
        dash_settled(cur, olds.skip(m)),
    ensures
        dash_settled(rename_step(cur, olds[m]), olds.skip(m + 1)),
{
    let o = olds[m];
    let n = snake_key(o);
    let nxt = rename_step(cur, o);
    lemma_snake_has_no_dash(o);
    assert(olds.skip(m) =~= seq![o] + olds.skip(m + 1));
    assert forall|k: Seq<char>|
        #[trigger] pm_get(nxt, k) is Some && k.contains('-') implies olds.skip(m + 1).contains(k) || pm_get(
            nxt,
            snake_key(k),
        ) is Some by {
        lemma_snake_has_no_dash(k);
        if pm_get(cur, n) is Some {
            assert(nxt == cur);
            if olds.skip(m).contains(k) && k != o {
                let j = choose|j: int| 0 <= j < olds.skip(m).len() && olds.skip(m)[j] == k;
                assert(j > 0);
                assert(olds.skip(m + 1)[j - 1] == k);
            }
        } else if pm_get(cur, o) is Some {
            let v = pm_get(cur, o)->0;
            let removed = pm_remove(cur, o);
            assert(nxt == pm_insert(removed, n, v));
            lemma_insert_then_get(removed, n, v);
            assert(k != n);
            lemma_insert_keeps_others(removed, n, v, k);
            if k != o {
                lemma_remove_keeps_others(cur, o, k);
                assert(pm_get(cur, k) is Some);
                if olds.skip(m).contains(k) {
                    let j = choose|j: int| 0 <= j < olds.skip(m).len() && olds.skip(m)[j] == k;
                    assert(j > 0);
                    assert(olds.skip(m + 1)[j - 1] == k);
                } else {
                    let sk = snake_key(k);
                    assert(pm_get(cur, sk) is Some);
                    assert(sk != o);
                    lemma_remove_keeps_others(cur, o, sk);
                    if sk != n {
                        lemma_insert_keeps_others(removed, n, v, sk);
                    }
                }
            }
        } else {
            assert(nxt == cur);
            assert(k != o);
            if olds.skip(m).contains(k) {
                let j = choose|j: int| 0 <= j < olds.skip(m).len() && olds.skip(m)[j] == k;
                assert(j > 0);
                assert(olds.skip(m + 1)[j - 1] == k);
            }
        }
    }
}

proof fn lemma_rename_all_settles(s: Seq<(Seq<char>, ProductView)>, olds: Seq<Seq<char>>, m: nat)
    requires
        m <= olds.len(),
        forall|i: int| 0 <= i < olds.len() ==> (#[trigger] olds[i]).contains('-'),
        dash_settled(s, olds),
    ensures
        dash_settled(rename_all(s, olds, m), olds.skip(m as int)),
    decreases m,
{
    if m == 0 {
        assert(olds.skip(0) =~= olds);
    } else {
        lemma_rename_all_settles(s, olds, (m - 1) as nat);
        lemma_rename_step_settles(rename_all(s, olds, (m - 1) as nat), olds, m - 1);
    }
}

/// After loading, a slug written with `-` is left only when its
/// snake_case form is already taken.
pub proof fn lemma_normalized_snake(s: Seq<(Seq<char>, ProductView)>, k: Seq<char>)
    requires
        pm_get(normalized(s), k) is Some,
        k.contains('-'),
    ensures
        pm_get(normalized(s), snake_key(k)) is Some,
{
    let olds = dashed_keys(s, s.len());
    lemma_dashed_listed(s, s.len());
    assert forall|x: Seq<char>| #[trigger] pm_get(s, x) is Some && x.contains('-') implies olds.contains(x) || pm_get(
        s,
        snake_key(x),
    ) is Some by {
        lemma_key_pos(s, x);
        assert(s[key_pos(s, x)].0 == x);
    }
    lemma_rename_all_settles(s, olds, olds.len());
    assert(olds.skip(olds.len() as int).len() == 0);
}

fn snake_of(k: &String) -> (r: (String, bool))
    ensures
        r.0@ == snake_key(k@),
        r.1 == k@.contains('-'),
{
    let c = chars_of_string(k);
    let mut out: Vec<char> = Vec::new();
    let mut dashed = false;
    let mut i: usize = 0;
    while i < c.len()
        invariant
            0 <= i <= c@.len(),
            c@ == k@,
            out@ == c@.take(i as int).map_values(|c: char| undash(c)),
            dashed == c@.take(i as int).contains('-'),
        decreases c@.len() - i,
    {
        let ch = c[i];
        proof {
            assert(c@.take(i + 1) =~= c@.take(i as int).push(ch));
            if c@.take(i as int).contains('-') {
                let w = choose|j: int| 0 <= j < i && #[trigger] c@.take(i as int)[j] == '-';
                assert(c@.take(i + 1)[w] == '-');
            }
            if ch == '-' {
                assert(c@.take(i + 1)[i as int] == '-');
            }
            if c@.take(i + 1).contains('-') {
                let w = choose|j: int| 0 <= j < i + 1 && #[trigger] c@.take(i + 1)[j] == '-';
                if w < i {
                    assert(c@.take(i as int)[w] == '-');
                }
            }
        }
        if ch == '-' {
            out.push('_');
            dashed = true;
        } else {
            out.push(ch);
        }
        i += 1;
        assert(out@ =~= c@.take(i as int).map_values(|c: char| undash(c)));
    }
    assert(c@.take(c@.len() as int) =~= c@);
    (string_from_chars(&out), dashed)
}

/// Renames the keys written with `-` to their snake_case form (the form
/// `download` writes), unless that form is already taken.
pub fn normalize_slug_keys(map: &mut ProductMap)
    ensures
        final(map)@ == normalized(old(map)@),
{
    let ghost s = map@;
    let mut olds: Vec<String> = Vec::new();
    let n = map.len();
    let mut i: usize = 0;
    while i < n
        invariant
            0 <= i <= n,
            n == s.len(),
            map@ == s,
            crate::names::strings_view(olds@) == dashed_keys(s, i as nat),
        decreases n - i,
    {
        let (_snake, dashed) = snake_of(map.key_at(i));
        if dashed {
            let ghost before = olds@;
            olds.push(map.key_at(i).clone());
            assert(crate::names::strings_view(olds@) =~= crate::names::strings_view(before).push(
                s[i as int].0,
            ));
        }
        i += 1;
    }
    let ghost ov_ = crate::names::strings_view(olds@);
    let mut k: usize = 0;
    while k < olds.len()
        invariant
            0 <= k <= olds@.len(),
            ov_ == crate::names::strings_view(olds@),
            ov_ == dashed_keys(s, s.len()),
            map@ == rename_all(s, ov_, k as nat),
        decreases olds@.len() - k,
    {
        let (new, _d) = snake_of(&olds[k]);
        if !map.contains_key(new.as_str()) {
            match map.remove(olds[k].as_str()) {
                Some(v) => {
                    map.insert(new, v);
                },
                None => {},
            }
        }
        k += 1;
    }
}

} // verus!
