//! `sync`: the decisions of the upload — which entries are created, which
//! icons changed, the diffs offered for confirmation and the update sent
//! for each confirmed diff — and how the answers are recorded back into
//! the products file. The requests themselves are sent by the caller.
use vstd::prelude::*;
use crate::api::{BadgeUpdateRequest, ProductUpdateRequest, UpdateRequestV, BadgeUpdateV, update_request_of, badge_update_of};
use crate::diffs::{ChangeV, DiffChange, FieldV, ProductDiff, ProductDiffs, ProductDiffsV, changes_v};
use crate::download::remote_v;
use crate::luau::{SectionPrices, prices_fit, replace_braces, replace_placeholder};
use crate::products::{
    MultiProduct, Product, ProductMap, ProductType, ProductView, VCSProducts, clone_opt,
    discounted, ov, pm_get, pm_insert, product_diff, type_rank,
    lemma_insert_then_get, lemma_insert_keeps_others,
};
use crate::text::{chars_of, dec, push_str, push_u64, string_from_chars, to_owned_string};

verus! {

/// The first eight characters of an icon hash, as shown in a diff.
pub open spec fn short_of(h: Seq<char>) -> Seq<char> {
    if h.len() <= 8 {
        h
    } else {
        h.take(8)
    }
}

pub fn short_hash(h: &str) -> (r: String)
    ensures
        r@ == short_of(h@),
{
    let c = chars_of(h);
    let mut out: Vec<char> = Vec::new();
    let mut i: usize = 0;
    while i < c.len() && i < 8
        invariant
            0 <= i <= c@.len(),
            i <= 8,
            out@ == c@.take(i as int),
        decreases c@.len() - i,
    {
        out.push(c[i]);
        i += 1;
        assert(out@ =~= c@.take(i as int));
    }
    if c.len() <= 8 {
        assert(c@.take(c@.len() as int) =~= c@);
    }
    string_from_chars(&out)
}

/// The prefix `apply_discount_prefix` uses when none is configured.
pub open spec fn upload_default_prefix() -> Seq<char> {
    "💲{}% OFF💲"@
}

/// The product as pushed: with a discount in effect, its name becomes
/// the prefix (with `{}` replaced by the percentage), a space, the name.
pub open spec fn prefixed(p: ProductView, prefix: Option<Seq<char>>) -> ProductView {
    if discounted(p) {
        let pre = match prefix {
            Some(x) => x,
            None => upload_default_prefix(),
        };
        ProductView { name: replace_braces(pre, dec(p.discount.unwrap() as nat)) + " "@ + p.name, ..p }
    } else {
        p
    }
}

pub fn apply_discount_prefix(product: &mut Product, prefix: Option<String>)
    ensures
        final(product)@ == prefixed(old(product)@, ov(prefix)),
{
    let pre = match prefix {
        Some(x) => x,
        None => to_owned_string("💲{}% OFF💲"),
    };
    if product.has_discount() {
        let d = match product.discount {
            Some(x) => x,
            None => 0,
        };
        let mut pct: Vec<char> = Vec::new();
        push_u64(&mut pct, d as u64);
        let mut out = replace_placeholder(pre.as_str(), &pct);
        push_str(&mut out, " ");
        push_str(&mut out, product.name.as_str());
        product.name = string_from_chars(&out);
    }
}

/// The icon uploaded for a new badge that names none.
pub open spec fn default_icon() -> Seq<char> {
    "assets/Image/missing_texture.png"@
}

/// Local products and the products fetched from the universe.
#[derive(Debug)]
pub struct Uploader {
    local_products: VCSProducts,
    remote_products: Vec<MultiProduct>,
}

pub open spec fn section_v(v: VCSProducts, t: ProductType) -> Seq<(Seq<char>, ProductView)> {
    match t {
        ProductType::Pass => v.passes@,
        ProductType::DevProduct => v.products@,
        ProductType::Badge => v.badges@,
    }
}

pub open spec fn has_pending(s: Seq<(Seq<char>, ProductView)>) -> bool {
    exists|i: int| 0 <= i < s.len() && #[trigger] s[i].1.id is None
}

/// The entries of the first `n` that have no id yet, in order.
pub open spec fn pending_upto(s: Seq<(Seq<char>, ProductView)>, n: nat) -> Seq<(Seq<char>, ProductView)>
    decreases n,
{
    if n == 0 || n > s.len() {
        Seq::empty()
    } else if s[n - 1].1.id is None {
        pending_upto(s, (n - 1) as nat).push(s[n - 1])
    } else {
        pending_upto(s, (n - 1) as nat)
    }
}

pub open spec fn pending(s: Seq<(Seq<char>, ProductView)>) -> Seq<(Seq<char>, ProductView)> {
    pending_upto(s, s.len())
}

/// Position of the first entry whose id is `id`, or -1.
pub open spec fn first_with_id(s: Seq<(Seq<char>, ProductView)>, id: u64) -> int
    decreases s.len(),
{
    if s.len() == 0 {
        -1
    } else if s[0].1.id == Some(id) {
        0
    } else {
        let r = first_with_id(s.drop_first(), id);
        if r < 0 {
            -1
        } else {
            r + 1
        }
    }
}

proof fn lemma_first_with_id(s: Seq<(Seq<char>, ProductView)>, id: u64)
    ensures
        -1 <= first_with_id(s, id) < s.len(),
        first_with_id(s, id) >= 0 ==> s[first_with_id(s, id)].1.id == Some(id),
        forall|j: int|
            0 <= j < s.len() && (first_with_id(s, id) < 0 || j < first_with_id(s, id))
                ==> #[trigger] s[j].1.id != Some(id),
    decreases s.len(),
{
    if s.len() > 0 {
        lemma_first_with_id(s.drop_first(), id);
        assert forall|j: int|
            0 <= j < s.len() && (first_with_id(s, id) < 0 || j < first_with_id(s, id))
                implies #[trigger] s[j].1.id != Some(id) by {
            if j > 0 {
                assert(s[j] == s.drop_first()[j - 1]);
            }
        }
    }
}

fn position_with_id(m: &ProductMap, id: u64) -> (r: Option<usize>)
    ensures
        match r {
            Some(i) => i as int == first_with_id(m@, id) && i < m@.len(),
            None => first_with_id(m@, id) < 0,
        },
{
    let ghost s = m@;
    proof {
        lemma_first_with_id(s, id);
    }
    let mut i: usize = 0;
    while i < m.len()
        invariant
            0 <= i <= s.len(),
            s == m@,
            -1 <= first_with_id(s, id) < s.len(),
            first_with_id(s, id) >= 0 ==> s[first_with_id(s, id)].1.id == Some(id),
            forall|j: int|
                0 <= j < s.len() && (first_with_id(s, id) < 0 || j < first_with_id(s, id))
                    ==> #[trigger] s[j].1.id != Some(id),
            forall|j: int| 0 <= j < i ==> #[trigger] s[j].1.id != Some(id),
        decreases s.len() - i,
    {
        if m.value_at(i).id == Some(id) {
            assert(s[i as int].1.id == Some(id));
            return Some(i);
        }
        i += 1;
    }
    None
}

/// The kind of the first section holding an entry with this id.
pub open spec fn kind_of_id(v: VCSProducts, id: u64) -> Option<ProductType> {
    if first_with_id(v.passes@, id) >= 0 {
        Some(ProductType::Pass)
    } else if first_with_id(v.products@, id) >= 0 {
        Some(ProductType::DevProduct)
    } else if first_with_id(v.badges@, id) >= 0 {
        Some(ProductType::Badge)
    } else {
        None
    }
}

/// An entry whose icon file changed since its last upload.
#[derive(Debug)]
pub struct IconDirty {
    pub kind: ProductType,
    pub id: u64,
    pub path: String,
    pub new_hash: String,
    pub old_hash: Option<String>,
}

pub struct IconDirtyV {
    pub kind: ProductType,
    pub id: u64,
    pub path: Seq<char>,
    pub new_hash: Seq<char>,
    pub old_hash: Option<Seq<char>>,
}

impl View for IconDirty {
    type V = IconDirtyV;

    open spec fn view(&self) -> IconDirtyV {
        IconDirtyV {
            kind: self.kind,
            id: self.id,
            path: self.path@,
            new_hash: self.new_hash@,
            old_hash: ov(self.old_hash),
        }
    }
}

/// Whether product `p`'s icon must be pushed, given the hash of its icon
/// file (`None` when the file is unreadable): it must when forced or when
/// the hash differs from the recorded one. The kind is that of the first
/// section holding the id.
pub open spec fn icon_dirty_of(v: VCSProducts, p: ProductView, new_hash: Option<Seq<char>>, force: bool) -> Option<IconDirtyV> {
    match (p.id, p.icon, new_hash) {
        (Some(id), Some(path), Some(h)) => if force || p.icon_hash != Some(h) {
            match kind_of_id(v, id) {
                Some(t) => Some(IconDirtyV { kind: t, id, path, new_hash: h, old_hash: p.icon_hash }),
                None => None,
            }
        } else {
            None
        },
        _ => None,
    }
}

/// An icon is re-uploaded exactly when forced or when its file's hash is
/// not the recorded one (no recorded hash counts as a change): for an
/// entry of the products file with an id and an icon whose file hashes to
/// `h`, the check reports it dirty, with that hash and the recorded one,
/// unless the recorded hash is `h` and no re-upload is forced.
pub proof fn lemma_icon_dirty_when_hash_differs(v: VCSProducts, p: ProductView, h: Seq<char>, force: bool, i: int)
    requires
        p.id is Some,
        p.icon is Some,
        (0 <= i < v.passes@.len() && v.passes@[i].1 == p) || (0 <= i < v.products@.len() && v.products@[i].1
            == p) || (0 <= i < v.badges@.len() && v.badges@[i].1 == p),
    ensures
        (force || p.icon_hash != Some(h)) ==> (icon_dirty_of(v, p, Some(h), force) matches Some(d) && d.id
            == p.id->0 && d.path == p.icon->0 && d.new_hash == h && d.old_hash == p.icon_hash),
        (!force && p.icon_hash == Some(h)) ==> icon_dirty_of(v, p, Some(h), force) is None,
        p.icon_hash is None ==> icon_dirty_of(v, p, Some(h), force) is Some,
{
    let id = p.id->0;
    lemma_first_with_id(v.passes@, id);
    lemma_first_with_id(v.products@, id);
    lemma_first_with_id(v.badges@, id);
    if 0 <= i < v.passes@.len() && v.passes@[i].1 == p {
        assert(v.passes@[i].1.id == Some(id));
    } else if 0 <= i < v.products@.len() && v.products@[i].1 == p {
        assert(v.products@[i].1.id == Some(id));
    } else {
        assert(v.badges@[i].1.id == Some(id));
    }
    assert(kind_of_id(v, id) is Some);
}

/// The recorded dirty icons, at most one per (kind, id).
pub open spec fn dirty_find(s: Seq<IconDirtyV>, t: ProductType, id: u64) -> int
    decreases s.len(),
{
    if s.len() == 0 {
        -1
    } else if s[0].kind == t && s[0].id == id {
        0
    } else {
        let r = dirty_find(s.drop_first(), t, id);
        if r < 0 {
            -1
        } else {
            r + 1
        }
    }
}

proof fn lemma_dirty_find(s: Seq<IconDirtyV>, t: ProductType, id: u64)
    ensures
        -1 <= dirty_find(s, t, id) < s.len(),
        dirty_find(s, t, id) >= 0 ==> s[dirty_find(s, t, id)].kind == t && s[dirty_find(s, t, id)].id == id,
        forall|j: int|
            0 <= j < s.len() && (dirty_find(s, t, id) < 0 || j < dirty_find(s, t, id))
                ==> !(#[trigger] s[j].kind == t && s[j].id == id),
    decreases s.len(),
{
    if s.len() > 0 {
        lemma_dirty_find(s.drop_first(), t, id);
        assert forall|j: int|
            0 <= j < s.len() && (dirty_find(s, t, id) < 0 || j < dirty_find(s, t, id))
                implies !(#[trigger] s[j].kind == t && s[j].id == id) by {
            if j > 0 {
                assert(s[j] == s.drop_first()[j - 1]);
            }
        }
    }
}

pub open spec fn dirty_get(s: Seq<IconDirtyV>, t: ProductType, id: u64) -> Option<IconDirtyV> {
    let i = dirty_find(s, t, id);
    if i >= 0 {
        Some(s[i])
    } else {
        None
    }
}

pub open spec fn dirty_put(s: Seq<IconDirtyV>, e: IconDirtyV) -> Seq<IconDirtyV> {
    let i = dirty_find(s, e.kind, e.id);
    if i >= 0 {
        s.update(i, e)
    } else {
        s.push(e)
    }
}

/// The icons to push, keyed by (kind, id); a later entry for the same key
/// replaces the earlier one.
#[derive(Debug)]
pub struct IconDirtyMap {
    entries: Vec<IconDirty>,
}

impl View for IconDirtyMap {
    type V = Seq<IconDirtyV>;

    closed spec fn view(&self) -> Seq<IconDirtyV> {
        self.entries@.map_values(|e: IconDirty| e@)
    }
}

impl IconDirtyMap {
    pub fn new() -> (r: IconDirtyMap)
        ensures
            r@ == Seq::<IconDirtyV>::empty(),
    {
        let r = IconDirtyMap { entries: Vec::new() };
        assert(r@ =~= Seq::<IconDirtyV>::empty());
        r
    }

    fn position(&self, t: ProductType, id: u64) -> (r: Option<usize>)
        ensures
            match r {
                Some(i) => i as int == dirty_find(self@, t, id) && i < self@.len(),
                None => dirty_find(self@, t, id) < 0,
            },
    {
        let ghost s = self@;
        proof {
            lemma_dirty_find(s, t, id);
        }
        let mut i: usize = 0;
        while i < self.entries.len()
            invariant
                0 <= i <= s.len(),
                s == self@,
                s == self.entries@.map_values(|e: IconDirty| e@),
                -1 <= dirty_find(s, t, id) < s.len(),
                dirty_find(s, t, id) >= 0 ==> s[dirty_find(s, t, id)].kind == t && s[dirty_find(s, t, id)].id == id,
                forall|j: int|
                    0 <= j < s.len() && (dirty_find(s, t, id) < 0 || j < dirty_find(s, t, id))
                        ==> !(#[trigger] s[j].kind == t && s[j].id == id),
                forall|j: int| 0 <= j < i ==> !(#[trigger] s[j].kind == t && s[j].id == id),
            decreases s.len() - i,
        {
            assert(s[i as int] == self.entries@[i as int]@);
            if self.entries[i].kind == t && self.entries[i].id == id {
                assert(s[i as int].kind == t && s[i as int].id == id);
                return Some(i);
            }
            i += 1;
        }
        None
    }

    pub fn get(&self, t: ProductType, id: u64) -> (r: Option<&IconDirty>)
        ensures
            match r {
                Some(d) => dirty_get(self@, t, id) == Some(d@),
                None => dirty_get(self@, t, id) is None,
            },
    {
        match self.position(t, id) {
            Some(i) => {
                assert(self@[i as int] == self.entries@[i as int]@);
                Some(&self.entries[i])
            },
            None => None,
        }
    }

    pub fn insert(&mut self, e: IconDirty)
        ensures
            final(self)@ == dirty_put(old(self)@, e@),
    {
        let ghost s = self@;
        match self.position(e.kind, e.id) {
            Some(i) => {
                self.entries.set(i, e);
                assert(self@ =~= s.update(i as int, e@));
            },
            None => {
                self.entries.push(e);
                assert(self@ =~= s.push(e@));
            },
        }
    }
}

/// The create requested for an entry without an id.
#[derive(Debug)]
pub struct PendingCreate {
    pub kind: ProductType,
    pub slug: String,
    /// The product as pushed (discount prefix applied).
    pub product: Product,
    pub icon_path: Option<String>,
}

/// A badge to create.
#[derive(Debug)]
pub struct BadgeCreate {
    pub slug: String,
    pub name: String,
    pub description: String,
    pub active: bool,
    pub icon_path: String,
}

/// The update sent for one confirmed diff.
#[derive(Debug)]
pub struct UpdatePlan {
    pub kind: ProductType,
    pub id: u64,
    /// The local name, for the log.
    pub name: String,
    pub request: ProductUpdateRequest,
    /// For a badge, the badge update sent in place of `request`.
    pub badge_request: Option<BadgeUpdateRequest>,
    /// The icon to upload along, when it changed.
    pub icon_path: Option<String>,
    /// The hash recorded once the update succeeds.
    pub new_icon_hash: Option<String>,
}

/// The cost to announce for the next badge: 0 while free quota remains,
/// else the creation price from the badge metadata (100 when it carried
/// none). `None` when the metadata must be fetched first.
pub open spec fn badge_cost_of(free_quota: Option<u64>, metadata_cost: Option<u64>) -> Option<u64> {
    let q = match free_quota {
        Some(x) => x,
        None => 0,
    };
    if q > 0 {
        Some(0)
    } else {
        match metadata_cost {
            Some(c) => Some(c),
            None => None,
        }
    }
}

pub fn expected_badge_cost(free_quota: Option<u64>, metadata_cost: Option<u64>) -> (r: Option<u64>)
    ensures
        r == badge_cost_of(free_quota, metadata_cost),
{
    let q = match free_quota {
        Some(x) => x,
        None => 0,
    };
    if q > 0 {
        Some(0)
    } else {
        metadata_cost
    }
}

/// The free quota after one badge was created.
pub open spec fn quota_after_create(q: Option<u64>) -> Option<u64> {
    match q {
        Some(x) => if x > 0 {
            Some((x - 1) as u64)
        } else {
            Some(x)
        },
        None => None,
    }
}

pub fn consume_free_quota(q: Option<u64>) -> (r: Option<u64>)
    ensures
        r == quota_after_create(q),
{
    match q {
        Some(x) => if x > 0 {
            Some(x - 1)
        } else {
            Some(x)
        },
        None => None,
    }
}

/// The state of the badge-creation loop: the free quota left (when it
/// was fetched), the creation price (once fetched), and whether the loop
/// stopped.
pub struct BadgeRun {
    pub free_quota: Option<u64>,
    pub metadata_cost: Option<u64>,
    pub stopped: bool,
}

/// What the badge-creation loop does for the next pending badge.
#[derive(Debug, PartialEq, Eq, Structural)]
pub enum BadgeAction {
    /// Create it, offering this price.
    Create(u64),
    /// Fetch the creation price first.
    FetchMetadata,
    /// Leave it and the rest for the next sync.
    Stop,
}

pub open spec fn badge_action_of(st: BadgeRun) -> BadgeAction {
    if st.stopped {
        BadgeAction::Stop
    } else {
        match badge_cost_of(st.free_quota, st.metadata_cost) {
            Some(c) => BadgeAction::Create(c),
            None => BadgeAction::FetchMetadata,
        }
    }
}

impl BadgeRun {
    /// The loop before the first badge, with the free quota as fetched.
    pub fn start(free_quota: Option<u64>) -> (r: BadgeRun)
        ensures
            r.free_quota == free_quota,
            r.metadata_cost is None,
            !r.stopped,
    {
        BadgeRun { free_quota, metadata_cost: None, stopped: false }
    }

    /// What to do for the next pending badge (see `badge_action_of`).
    pub fn next_action(&self) -> (r: BadgeAction)
        ensures
            r == badge_action_of(*self),
    {
        if self.stopped {
            return BadgeAction::Stop;
        }
        match expected_badge_cost(self.free_quota, self.metadata_cost) {
            Some(c) => BadgeAction::Create(c),
            None => BadgeAction::FetchMetadata,
        }
    }

    /// After the creation price was fetched (`None` when the fetch
    /// failed); see `after_metadata`.
    pub fn metadata_fetched(&mut self, price: Option<u64>)
        ensures
            *final(self) == after_metadata(*old(self), price),
    {
        match price {
            Some(c) => self.metadata_cost = Some(c),
            None => self.stopped = true,
        }
    }

    /// After a create; see `after_create`.
    pub fn created(&mut self, ok: bool)
        ensures
            *final(self) == after_create(*old(self), ok),
    {
        if ok {
            self.free_quota = consume_free_quota(self.free_quota);
        }
    }
}

/// The loop after the creation price was fetched: the price kept, or the
/// loop stopped when the fetch failed.
pub open spec fn after_metadata(st: BadgeRun, price: Option<u64>) -> BadgeRun {
    match price {
        Some(c) => BadgeRun { metadata_cost: Some(c), ..st },
        None => BadgeRun { stopped: true, ..st },
    }
}

/// The loop after a create: a success uses up one free badge; a failure
/// changes nothing.
pub open spec fn after_create(st: BadgeRun, ok: bool) -> BadgeRun {
    if ok {
        BadgeRun { free_quota: quota_after_create(st.free_quota), ..st }
    } else {
        st
    }
}

/// One failed badge create does not stop the others: the next badge gets
/// the action it would have got. The loop stops only once the creation
/// price could not be fetched, and then for good.
pub proof fn lemma_badge_failure_goes_on(st: BadgeRun, ok: bool)
    ensures
        badge_action_of(after_create(st, false)) == badge_action_of(st),
        badge_action_of(after_metadata(st, None)) == BadgeAction::Stop,
        !st.stopped ==> badge_action_of(st) != BadgeAction::Stop,
        st.stopped ==> after_create(st, ok).stopped,
{
}

/// The progress of a loop over `total` items (the updates of the confirmed
/// diffs, or the creates of the entries without an id): the next item to
/// try, and how many succeeded and failed so far.
pub struct AttemptRun {
    total: usize,
    next: usize,
    succeeded: usize,
    failed: usize,
}

pub struct AttemptV {
    pub total: nat,
    pub next: nat,
    pub succeeded: nat,
    pub failed: nat,
}

impl View for AttemptRun {
    type V = AttemptV;

    closed spec fn view(&self) -> AttemptV {
        AttemptV {
            total: self.total as nat,
            next: self.next as nat,
            succeeded: self.succeeded as nat,
            failed: self.failed as nat,
        }
    }
}

/// The loop after one item's outcome: a failure is counted and the loop
/// goes on with the next item, as after a success.
pub open spec fn attempt_step(a: AttemptV, ok: bool) -> AttemptV {
    AttemptV {
        next: a.next + 1,
        succeeded: if ok {
            a.succeeded + 1
        } else {
            a.succeeded
        },
        failed: if ok {
            a.failed
        } else {
            a.failed + 1
        },
        ..a
    }
}

/// The loop over `total` items after the outcomes `oks`, in order.
pub open spec fn attempts_after(total: nat, oks: Seq<bool>) -> AttemptV
    decreases oks.len(),
{
    if oks.len() == 0 {
        AttemptV { total, next: 0, succeeded: 0, failed: 0 }
    } else {
        attempt_step(attempts_after(total, oks.drop_last()), oks.last())
    }
}

pub open spec fn failures(oks: Seq<bool>) -> nat
    decreases oks.len(),
{
    if oks.len() == 0 {
        0
    } else {
        failures(oks.drop_last()) + if oks.last() {
            0nat
        } else {
            1nat
        }
    }
}

/// One failure does not stop the others: whatever the outcomes of the
/// first items, the loop moves on to the next one, and it ends only once
/// every item was tried; every failure is counted.
pub proof fn lemma_every_item_tried(total: nat, oks: Seq<bool>)
    requires
        oks.len() <= total,
    ensures
        attempts_after(total, oks).next == oks.len(),
        attempts_after(total, oks).failed == failures(oks),
        attempts_after(total, oks).succeeded + attempts_after(total, oks).failed == oks.len(),
        attempts_after(total, oks).total == total,
    decreases oks.len(),
{
    if oks.len() > 0 {
        lemma_every_item_tried(total, oks.drop_last());
    }
}

impl AttemptRun {
    #[verifier::type_invariant]
    closed spec fn counts_fit(self) -> bool {
        self.succeeded + self.failed == self.next && self.next <= self.total
    }

    /// A loop over `total` items, none tried yet.
    pub fn new(total: usize) -> (r: AttemptRun)
        ensures
            r@ == attempts_after(total as nat, Seq::empty()),
    {
        AttemptRun { total, next: 0, succeeded: 0, failed: 0 }
    }

    /// The index of the next item to try; none once every item was tried.
    pub fn next_item(&self) -> (r: Option<usize>)
        ensures
            match r {
                Some(i) => i == self@.next && self@.next < self@.total,
                None => self@.next >= self@.total,
            },
    {
        if self.next < self.total {
            Some(self.next)
        } else {
            None
        }
    }

    /// Records the outcome of the item `next_item` gave.
    pub fn record(&mut self, ok: bool)
        requires
            old(self)@.next < old(self)@.total,
        ensures
            final(self)@ == attempt_step(old(self)@, ok),
    {
        proof {
            use_type_invariant(&*self);
        }
        let next = self.next + 1;
        let (succeeded, failed) = if ok {
            (self.succeeded + 1, self.failed)
        } else {
            (self.succeeded, self.failed + 1)
        };
        *self = AttemptRun { total: self.total, next, succeeded, failed };
    }

    pub fn succeeded(&self) -> (r: usize)
        ensures
            r == self@.succeeded,
    {
        self.succeeded
    }

    pub fn failed(&self) -> (r: usize)
        ensures
            r == self@.failed,
    {
        self.failed
    }

    /// Whether no item failed.
    pub fn all_ok(&self) -> (r: bool)
        ensures
            r == (self@.failed == 0),
    {
        self.failed == 0
    }
}

/// The entry after a successful create or sync: its id set, the icon id
/// and hash updated when the answer carries them.
pub open spec fn recorded(p: ProductView, id: u64, icon_id: Option<u64>, icon_hash: Option<Seq<char>>) -> ProductView {
    ProductView {
        id: Some(id),
        icon_id: match icon_id {
            Some(x) => Some(x),
            None => p.icon_id,
        },
        icon_hash: match icon_hash {
            Some(h) => Some(h),
            None => p.icon_hash,
        },
        ..p
    }
}

pub open spec fn with_section(v: VCSProducts, t: ProductType, s: Seq<(Seq<char>, ProductView)>) -> (
    Seq<(Seq<char>, ProductView)>,
    Seq<(Seq<char>, ProductView)>,
    Seq<(Seq<char>, ProductView)>,
) {
    match t {
        ProductType::Pass => (s, v.products@, v.badges@),
        ProductType::DevProduct => (v.passes@, s, v.badges@),
        ProductType::Badge => (v.passes@, v.products@, s),
    }
}

pub open spec fn sections3(v: VCSProducts) -> (
    Seq<(Seq<char>, ProductView)>,
    Seq<(Seq<char>, ProductView)>,
    Seq<(Seq<char>, ProductView)>,
) {
    (v.passes@, v.products@, v.badges@)
}

/// The first local product of kind `t` with this id, recorded after a
/// successful update: its icon id when the answer carries one, its icon
/// hash when a new icon went up.
pub open spec fn synced(s: Seq<(Seq<char>, ProductView)>, id: u64, icon_id: Option<u64>, icon_hash: Option<Seq<char>>) -> Seq<(Seq<char>, ProductView)> {
    let j = first_with_id(s, id);
    if j >= 0 {
        s.update(j, (s[j].0, recorded(s[j].1, id, icon_id, icon_hash)))
    } else {
        s
    }
}

fn record_at(m: &mut ProductMap, i: usize, id: u64, icon_id: Option<u64>, icon_hash: Option<String>)
    requires
        i < old(m)@.len(),
    ensures
        final(m)@ == old(m)@.update(
            i as int,
            (old(m)@[i as int].0, recorded(old(m)@[i as int].1, id, icon_id, ov(icon_hash))),
        ),
{
    let mut p = m.value_at(i).duplicate();
    p.id = Some(id);
    match icon_id {
        Some(x) => p.icon_id = Some(x),
        None => {},
    }
    match icon_hash {
        Some(h) => p.icon_hash = Some(h),
        None => {},
    }
    m.set_value_at(i, p);
}


// ---------------------------------------------------------------------------
// Diffs offered for confirmation
// ---------------------------------------------------------------------------
/// Position of the first remote product with this id, or -1.
pub open spec fn remote_match(rs: Seq<(ProductView, ProductType)>, id: u64) -> int
    decreases rs.len(),
{
    if rs.len() == 0 {
        -1
    } else if rs[0].0.id == Some(id) {
        0
    } else {
        let r = remote_match(rs.drop_first(), id);
        if r < 0 {
            -1
        } else {
            r + 1
        }
    }
}

proof fn lemma_remote_match(rs: Seq<(ProductView, ProductType)>, id: u64)
    ensures
        -1 <= remote_match(rs, id) < rs.len(),
        remote_match(rs, id) >= 0 ==> rs[remote_match(rs, id)].0.id == Some(id),
        forall|j: int|
            0 <= j < rs.len() && (remote_match(rs, id) < 0 || j < remote_match(rs, id))
                ==> #[trigger] rs[j].0.id != Some(id),
    decreases rs.len(),
{
    if rs.len() > 0 {
        lemma_remote_match(rs.drop_first(), id);
        assert forall|j: int|
            0 <= j < rs.len() && (remote_match(rs, id) < 0 || j < remote_match(rs, id))
                implies #[trigger] rs[j].0.id != Some(id) by {
            if j > 0 {
                assert(rs[j] == rs.drop_first()[j - 1]);
            }
        }
    }
}

/// The remote products as the diff reads them: every one has an id and a
/// description (the conversions from the listings always set both).
pub open spec fn remote_complete(rs: Seq<(ProductView, ProductType)>) -> bool {
    forall|j: int| 0 <= j < rs.len() ==> (#[trigger] rs[j]).0.id is Some && rs[j].0.description is Some
}

/// The `Icon` row of a dirty icon: the recorded hash (or `<unset>`) and
/// the new one, both shortened.
pub open spec fn icon_row(d: IconDirtyV) -> ChangeV {
    ChangeV::Changed(
        FieldV::Icon(
            match d.old_hash {
                Some(h) => short_of(h),
                None => "<unset>"@,
            },
            short_of(d.new_hash),
        ),
    )
}

/// The diff offered for one local product: the field diff against the
/// remote product with the same id, plus an `Icon` row when its icon
/// changed; nothing when neither applies.
pub open spec fn diff_entry(
    v: VCSProducts,
    p: ProductView,
    price: u64,
    dirty: Seq<IconDirtyV>,
    rs: Seq<(ProductView, ProductType)>,
) -> Option<(ProductType, ProductDiffsV)> {
    match p.id {
        None => None,
        Some(id) => {
            let j = remote_match(rs, id);
            if j < 0 {
                None
            } else {
                let t = rs[j].1;
                let computed = product_diff(p, rs[j].0, ov(v.metadata.discount_prefix), price);
                match (computed, dirty_get(dirty, t, id)) {
                    (Some(c), Some(d)) => Some((t, ProductDiffsV { diffs: c.diffs.push(icon_row(d)), ..c })),
                    (Some(c), None) => Some((t, c)),
                    (None, Some(d)) => Some((t, ProductDiffsV { name: p.name, id, diffs: seq![icon_row(d)] })),
                    (None, None) => None,
                }
            }
        },
    }
}

/// The local products in the order `upload_modified` walks them: passes,
/// then products, then badges.
pub open spec fn all_local_v(v: VCSProducts) -> Seq<ProductView> {
    v.passes@.map_values(|e: (Seq<char>, ProductView)| e.1) + v.products@.map_values(
        |e: (Seq<char>, ProductView)| e.1,
    ) + v.badges@.map_values(|e: (Seq<char>, ProductView)| e.1)
}

pub open spec fn all_prices_v(pr: SectionPrices) -> Seq<u64> {
    pr.passes@ + pr.products@ + pr.badges@
}

pub open spec fn diffs_upto(
    v: VCSProducts,
    ps: Seq<ProductView>,
    prices: Seq<u64>,
    dirty: Seq<IconDirtyV>,
    rs: Seq<(ProductView, ProductType)>,
    n: nat,
) -> Seq<(ProductType, ProductDiffsV)>
    decreases n,
{
    if n == 0 || n > ps.len() {
        Seq::empty()
    } else {
        let prev = diffs_upto(v, ps, prices, dirty, rs, (n - 1) as nat);
        match diff_entry(v, ps[n - 1], prices[n - 1], dirty, rs) {
            Some(e) => prev.push(e),
            None => prev,
        }
    }
}

/// `a` goes before `b`: badges, then products, then passes; within a
/// kind by ascending id.
pub open spec fn goes_before(a: (ProductType, ProductDiffsV), b: (ProductType, ProductDiffsV)) -> bool {
    type_rank(a.0) > type_rank(b.0) || (type_rank(a.0) == type_rank(b.0) && a.1.id < b.1.id)
}

pub open spec fn insert_ordered(t: Seq<(ProductType, ProductDiffsV)>, x: (ProductType, ProductDiffsV)) -> Seq<(ProductType, ProductDiffsV)>
    decreases t.len(),
{
    if t.len() == 0 {
        seq![x]
    } else if goes_before(x, t.last()) {
        insert_ordered(t.drop_last(), x).push(t.last())
    } else {
        t.push(x)
    }
}

/// The stable sort by `goes_before`.
pub open spec fn sort_ordered(s: Seq<(ProductType, ProductDiffsV)>) -> Seq<(ProductType, ProductDiffsV)>
    decreases s.len(),
{
    if s.len() == 0 {
        s
    } else {
        insert_ordered(sort_ordered(s.drop_last()), s.last())
    }
}

/// In offer order: no later diff goes before an earlier one.
pub open spec fn offer_sorted(s: Seq<(ProductType, ProductDiffsV)>) -> bool {
    forall|i: int, j: int| 0 <= i < j < s.len() ==> !goes_before(#[trigger] s[j], #[trigger] s[i])
}

proof fn lemma_insert_ordered(t: Seq<(ProductType, ProductDiffsV)>, x: (ProductType, ProductDiffsV), top: (ProductType, ProductDiffsV))
    requires
        offer_sorted(t),
    ensures
        offer_sorted(insert_ordered(t, x)),
        insert_ordered(t, x).to_multiset() =~= t.to_multiset().insert(x),
        (forall|j: int| 0 <= j < t.len() ==> !goes_before(top, #[trigger] t[j])) && !goes_before(top, x)
            ==> forall|i: int| 0 <= i < insert_ordered(t, x).len() ==> !goes_before(top, #[trigger] insert_ordered(t, x)[i]),
    decreases t.len(),
{
    broadcast use vstd::seq_lib::group_to_multiset_ensures;
    let r = insert_ordered(t, x);
    if t.len() == 0 {
        assert(r =~= Seq::<(ProductType, ProductDiffsV)>::empty().push(x));
    } else if goes_before(x, t.last()) {
        let rest = t.drop_last();
        let last = t.last();
        assert forall|i: int, j: int| 0 <= i < j < rest.len() implies !goes_before(#[trigger] rest[j], #[trigger] rest[i]) by {
            assert(rest[i] == t[i] && rest[j] == t[j]);
        }
        assert forall|j: int| 0 <= j < rest.len() implies !goes_before(last, #[trigger] rest[j]) by {
            assert(rest[j] == t[j]);
            assert(last == t[t.len() - 1]);
        }
        lemma_insert_ordered(rest, x, last);
        lemma_insert_ordered(rest, x, top);
        let ins = insert_ordered(rest, x);
        assert(r == ins.push(last));
        assert forall|i: int, j: int| 0 <= i < j < r.len() implies !goes_before(#[trigger] r[j], #[trigger] r[i]) by {
            if j < ins.len() {
                assert(r[i] == ins[i] && r[j] == ins[j]);
            } else {
                assert(r[i] == ins[i]);
                assert(r[j] == last);
            }
        }
        assert(rest.push(last) =~= t);
        if (forall|j: int| 0 <= j < t.len() ==> !goes_before(top, #[trigger] t[j])) && !goes_before(top, x) {
            assert forall|j: int| 0 <= j < rest.len() implies !goes_before(top, #[trigger] rest[j]) by {
                assert(rest[j] == t[j]);
            }
            assert(!goes_before(top, last)) by {
                assert(last == t[t.len() - 1]);
            }
            assert forall|i: int| 0 <= i < r.len() implies !goes_before(top, #[trigger] r[i]) by {
                if i < ins.len() {
                    assert(r[i] == ins[i]);
                }
            }
        }
    } else {
        let last = t.last();
        assert(r == t.push(x));
        assert forall|i: int, j: int| 0 <= i < j < r.len() implies !goes_before(#[trigger] r[j], #[trigger] r[i]) by {
            if j < t.len() {
                assert(r[i] == t[i] && r[j] == t[j]);
            } else {
                assert(r[i] == t[i]);
                assert(r[j] == x);
                if i < t.len() - 1 {
                    assert(!goes_before(t[t.len() - 1], t[i]));
                }
                assert(last == t[t.len() - 1]);
            }
        }
        if (forall|j: int| 0 <= j < t.len() ==> !goes_before(top, #[trigger] t[j])) && !goes_before(top, x) {
            assert forall|i: int| 0 <= i < r.len() implies !goes_before(top, #[trigger] r[i]) by {
                if i < t.len() {
                    assert(r[i] == t[i]);
                }
            }
        }
    }
}

/// The diffs are offered badges first, then developer products, then
/// passes, by ascending id within a kind; none is lost or repeated.
pub proof fn lemma_offer_order(s: Seq<(ProductType, ProductDiffsV)>)
    ensures
        offer_sorted(sort_ordered(s)),
        sort_ordered(s).to_multiset() =~= s.to_multiset(),
    decreases s.len(),
{
    broadcast use vstd::seq_lib::group_to_multiset_ensures;
    if s.len() > 0 {
        let rest = s.drop_last();
        lemma_offer_order(rest);
        lemma_insert_ordered(sort_ordered(rest), s.last(), s.last());
        assert(rest.push(s.last()) =~= s);
    }
}

/// Every diff offered for confirmation, sorted.
pub open spec fn offered_diffs(v: VCSProducts, pr: SectionPrices, dirty: Seq<IconDirtyV>, rs: Seq<(ProductView, ProductType)>) -> Seq<(ProductType, ProductDiffsV)> {
    let ps = all_local_v(v);
    sort_ordered(diffs_upto(v, ps, all_prices_v(pr), dirty, rs, ps.len()))
}

pub open spec fn typed_diffs_v(s: Seq<(ProductType, ProductDiffs)>) -> Seq<(ProductType, ProductDiffsV)> {
    s.map_values(|e: (ProductType, ProductDiffs)| (e.0, e.1@))
}

fn icon_row_exec(d: &IconDirty) -> (r: DiffChange)
    ensures
        r@ == icon_row(d@),
{
    let old = match &d.old_hash {
        Some(h) => short_hash(h.as_str()),
        None => to_owned_string("<unset>"),
    };
    DiffChange::Changed(ProductDiff::Icon(old, short_hash(d.new_hash.as_str())))
}

fn insert_by_order(t: &mut Vec<(ProductType, ProductDiffs)>, x: (ProductType, ProductDiffs))
    ensures
        typed_diffs_v(final(t)@) == insert_ordered(typed_diffs_v(old(t)@), (x.0, x.1@)),
    decreases old(t)@.len(),
{
    let ghost tv = typed_diffs_v(t@);
    if t.len() > 0 {
        let last = t.len() - 1;
        let xr = crate::products::product_type_rank(x.0);
        let lr = crate::products::product_type_rank(t[last].0);
        if xr > lr || (xr == lr && x.1.id < t[last].1.id) {
            let y = t.pop().unwrap();
            assert(typed_diffs_v(t@) =~= tv.drop_last());
            insert_by_order(t, x);
            let ghost mid = typed_diffs_v(t@);
            t.push(y);
            assert(typed_diffs_v(t@) =~= mid.push((y.0, y.1@)));
            return ;
        }
    }
    t.push(x);
    assert(typed_diffs_v(t@) =~= tv.push((x.0, x.1@)));
}

fn sort_diffs(v: Vec<(ProductType, ProductDiffs)>) -> (r: Vec<(ProductType, ProductDiffs)>)
    ensures
        typed_diffs_v(r@) == sort_ordered(typed_diffs_v(v@)),
{
    let ghost sv = typed_diffs_v(v@);
    let mut src = v;
    let mut rest: Vec<(ProductType, ProductDiffs)> = Vec::new();
    while src.len() > 0
        invariant
            typed_diffs_v(src@) + typed_diffs_v(rest@).reverse() == sv,
        decreases src@.len(),
    {
        let x = src.pop().unwrap();
        let ghost before = rest@;
        rest.push(x);
        proof {
            assert(typed_diffs_v(rest@) =~= typed_diffs_v(before).push((x.0, x.1@)));
            assert(typed_diffs_v(rest@).reverse() =~= seq![(x.0, x.1@)] + typed_diffs_v(before).reverse());
        }
        assert(typed_diffs_v(src@) + typed_diffs_v(rest@).reverse() =~= sv);
    }
    assert(typed_diffs_v(src@) =~= Seq::<(ProductType, ProductDiffsV)>::empty());
    let mut r: Vec<(ProductType, ProductDiffs)> = Vec::new();
    assert(typed_diffs_v(r@) =~= sort_ordered(sv.take(0)));
    while rest.len() > 0
        invariant
            typed_diffs_v(rest@).len() <= sv.len(),
            typed_diffs_v(rest@).reverse() == sv.skip(sv.len() - typed_diffs_v(rest@).len()),
            typed_diffs_v(r@) == sort_ordered(sv.take(sv.len() - typed_diffs_v(rest@).len())),
        decreases rest@.len(),
    {
        let ghost k = sv.len() - typed_diffs_v(rest@).len();
        let ghost rv = typed_diffs_v(rest@);
        let x = rest.pop().unwrap();
        proof {
            assert(typed_diffs_v(rest@) =~= rv.drop_last());
            assert(rv.reverse()[0] == rv.last());
            assert(sv[k] == rv.last());
            assert(rv.drop_last().reverse() =~= rv.reverse().drop_first());
            assert(sv.skip(k).drop_first() =~= sv.skip(k + 1));
            assert(sv.take(k + 1).drop_last() =~= sv.take(k));
        }
        insert_by_order(&mut r, x);
    }
    assert(sv.take(sv.len() as int) =~= sv);
    r
}

impl Uploader {
    pub fn new(local_products: VCSProducts, remote_products: Vec<MultiProduct>) -> (r: Uploader)
        ensures
            r.local() == local_products,
            r.remote() == remote_products,
    {
        Uploader { local_products, remote_products }
    }

    pub closed spec fn local(&self) -> VCSProducts {
        self.local_products
    }

    pub closed spec fn remote(&self) -> Vec<MultiProduct> {
        self.remote_products
    }

    pub fn local_products(&self) -> (r: &VCSProducts)
        ensures
            *r == self.local(),
    {
        &self.local_products
    }

    pub fn into_local_products(self) -> (r: VCSProducts)
        ensures
            r == self.local(),
    {
        self.local_products
    }

    /// Whether some pass or developer product has no id yet.
    pub fn has_empty_products(&self) -> (r: bool)
        ensures
            r == (has_pending(self.local().passes@) || has_pending(self.local().products@)),
    {
        any_pending(&self.local_products.passes) || any_pending(&self.local_products.products)
    }

    fn diff_one(
        &self,
        p: &Product,
        price: u64,
        dirty: &IconDirtyMap,
        out: &mut Vec<(ProductType, ProductDiffs)>,
    )
        requires
            remote_complete(remote_v(self.remote()@)),
        ensures
            typed_diffs_v(final(out)@) == match diff_entry(self.local(), p@, price, dirty@, remote_v(self.remote()@)) {
                Some(e) => typed_diffs_v(old(out)@).push(e),
                None => typed_diffs_v(old(out)@),
            },
    {
        let ghost rs = remote_v(self.remote_products@);
        let id = match p.id {
            Some(id) => id,
            None => {
                return ;
            },
        };
        proof {
            lemma_remote_match(rs, id);
        }
        let ghost o = out@;
        let mut j: usize = 0;
        while j < self.remote_products.len()
            invariant
                0 <= j <= rs.len(),
                out@ == o,
                o == old(out)@,
                p.id == Some(id),
                rs == remote_v(self.remote_products@),
                remote_complete(rs),
                forall|k: int| 0 <= k < j ==> #[trigger] rs[k].0.id != Some(id),
                -1 <= remote_match(rs, id) < rs.len(),
                remote_match(rs, id) >= 0 ==> rs[remote_match(rs, id)].0.id == Some(id),
                forall|k: int|
                    0 <= k < rs.len() && (remote_match(rs, id) < 0 || k < remote_match(rs, id))
                        ==> #[trigger] rs[k].0.id != Some(id),
            decreases rs.len() - j,
        {
            let (r, t) = self.remote_products[j].split();
            assert(rs[j as int] == (r@, t));
            if r.id == Some(id) {
                assert(rs[j as int].0.id == Some(id));
                assert(remote_match(rs, id) == j as int);
                let ghost before = typed_diffs_v(out@);
                let computed = p.diff(r, Some(&self.local_products.metadata), price);
                match (computed, dirty.get(t, id)) {
                    (Some(mut c), Some(d)) => {
                        let ghost cv = c@;
                        let row = icon_row_exec(d);
                        c.diffs.push(row);
                        assert(changes_v(c.diffs@) =~= cv.diffs.push(icon_row(d@)));
                        out.push((t, c));
                    },
                    (Some(c), None) => {
                        out.push((t, c));
                    },
                    (None, Some(d)) => {
                        let mut diffs: Vec<DiffChange> = Vec::new();
                        diffs.push(icon_row_exec(d));
                        assert(changes_v(diffs@) =~= seq![icon_row(d@)]);
                        out.push((t, ProductDiffs { name: p.name.clone(), id, diffs }));
                    },
                    (None, None) => {},
                }
                assert(typed_diffs_v(out@) =~= match diff_entry(self.local(), p@, price, dirty@, rs) {
                    Some(e) => before.push(e),
                    None => before,
                });
                return ;
            }
            j += 1;
        }
    }

    /// The diffs offered for confirmation (see `offered_diffs`); `prices`
    /// holds each local product's price after discount.
    pub fn compute_diffs(&self, dirty: &IconDirtyMap, prices: &SectionPrices) -> (r: Vec<(ProductType, ProductDiffs)>)
        requires
            prices_fit(self.local(), *prices),
            remote_complete(remote_v(self.remote()@)),
        ensures
            typed_diffs_v(r@) == offered_diffs(self.local(), *prices, dirty@, remote_v(self.remote()@)),
    {
        let ghost v = self.local();
        let ghost ps = all_local_v(v);
        let ghost pv = all_prices_v(*prices);
        let ghost rs = remote_v(self.remote_products@);
        let mut out: Vec<(ProductType, ProductDiffs)> = Vec::new();
        let np = self.local_products.passes.len();
        let nd = self.local_products.products.len();
        let nb = self.local_products.badges.len();
        assert(ps.len() == np + nd + nb);
        assert(typed_diffs_v(out@) =~= diffs_upto(v, ps, pv, dirty@, rs, 0));
        let mut i: usize = 0;
        while i < np
            invariant
                0 <= i <= np,
                np == v.passes@.len(),
                nd == v.products@.len(),
                nb == v.badges@.len(),
                v == self.local(),
                ps == all_local_v(v),
                pv == all_prices_v(*prices),
                rs == remote_v(self.remote()@),
                remote_complete(rs),
                prices_fit(v, *prices),
                typed_diffs_v(out@) == diffs_upto(v, ps, pv, dirty@, rs, i as nat),
            decreases np - i,
        {
            let p = self.local_products.passes.value_at(i);
            assert(ps[i as int] == p@);
            assert(pv[i as int] == prices.passes@[i as int]);
            self.diff_one(p, prices.passes[i], dirty, &mut out);
            i += 1;
        }
        let mut i: usize = 0;
        while i < nd
            invariant
                0 <= i <= nd,
                np == v.passes@.len(),
                nd == v.products@.len(),
                nb == v.badges@.len(),
                v == self.local(),
                ps == all_local_v(v),
                pv == all_prices_v(*prices),
                rs == remote_v(self.remote()@),
                remote_complete(rs),
                prices_fit(v, *prices),
                typed_diffs_v(out@) == diffs_upto(v, ps, pv, dirty@, rs, (np + i) as nat),
            decreases nd - i,
        {
            let p = self.local_products.products.value_at(i);
            assert(ps[np + i] == p@);
            assert(pv[np + i] == prices.products@[i as int]);
            self.diff_one(p, prices.products[i], dirty, &mut out);
            i += 1;
        }
        let mut i: usize = 0;
        while i < nb
            invariant
                0 <= i <= nb,
                np == v.passes@.len(),
                nd == v.products@.len(),
                nb == v.badges@.len(),
                v == self.local(),
                ps == all_local_v(v),
                pv == all_prices_v(*prices),
                rs == remote_v(self.remote()@),
                remote_complete(rs),
                prices_fit(v, *prices),
                typed_diffs_v(out@) == diffs_upto(v, ps, pv, dirty@, rs, (np + nd + i) as nat),
            decreases nb - i,
        {
            let p = self.local_products.badges.value_at(i);
            assert(ps[np + nd + i] == p@);
            assert(pv[np + nd + i] == prices.badges@[i as int]);
            self.diff_one(p, prices.badges[i], dirty, &mut out);
            i += 1;
        }
        sort_diffs(out)
    }
}

fn any_pending(m: &ProductMap) -> (r: bool)
    ensures
        r == has_pending(m@),
{
    let mut i: usize = 0;
    while i < m.len()
        invariant
            0 <= i <= m@.len(),
            forall|j: int| 0 <= j < i ==> (#[trigger] m@[j]).1.id is Some,
        decreases m@.len() - i,
    {
        if m.value_at(i).id.is_none() {
            return true;
        }
        i += 1;
    }
    false
}


/// The slugs of the first `n` entries without an id.
pub open spec fn pending_keys(s: Seq<(Seq<char>, ProductView)>) -> Seq<Seq<char>> {
    pending(s).map_values(|e: (Seq<char>, ProductView)| e.0)
}

fn pending_entries(m: &ProductMap) -> (r: Vec<usize>)
    ensures
        r@.map_values(|i: usize| m@[i as int]) == pending(m@),
        forall|k: int| 0 <= k < r@.len() ==> #[trigger] r@[k] < m@.len(),
{
    let mut r: Vec<usize> = Vec::new();
    let mut i: usize = 0;
    while i < m.len()
        invariant
            0 <= i <= m@.len(),
            r@.map_values(|i: usize| m@[i as int]) == pending_upto(m@, i as nat),
            forall|k: int| 0 <= k < r@.len() ==> #[trigger] r@[k] < m@.len(),
        decreases m@.len() - i,
    {
        if m.value_at(i).id.is_none() {
            let ghost before = r@;
            r.push(i);
            assert(r@.map_values(|i: usize| m@[i as int]) =~= before.map_values(|i: usize| m@[i as int]).push(m@[i as int]));
        }
        i += 1;
    }
    r
}

/// The entry under `slug` recorded after a create that returned `id`.
pub open spec fn created(s: Seq<(Seq<char>, ProductView)>, slug: Seq<char>, id: u64, icon_id: Option<u64>, icon_hash: Option<Seq<char>>) -> Seq<(Seq<char>, ProductView)> {
    let i = crate::products::key_pos(s, slug);
    if i >= 0 {
        s.update(i, (slug, recorded(s[i].1, id, icon_id, icon_hash)))
    } else {
        s
    }
}

/// The id a create returned is recorded under the slug, and every other
/// slug reads as before.
pub proof fn lemma_created_records_id(
    s: Seq<(Seq<char>, ProductView)>,
    slug: Seq<char>,
    id: u64,
    icon_id: Option<u64>,
    icon_hash: Option<Seq<char>>,
    other: Seq<char>,
)
    requires
        pm_get(s, slug) is Some,
        other != slug,
    ensures
        pm_get(created(s, slug, id, icon_id, icon_hash), slug) == Some(
            recorded(pm_get(s, slug)->0, id, icon_id, icon_hash),
        ),
        pm_get(created(s, slug, id, icon_id, icon_hash), slug)->0.id == Some(id),
        pm_get(created(s, slug, id, icon_id, icon_hash), other) == pm_get(s, other),
{
    let v = recorded(pm_get(s, slug)->0, id, icon_id, icon_hash);
    assert(created(s, slug, id, icon_id, icon_hash) == pm_insert(s, slug, v));
    lemma_insert_then_get(s, slug, v);
    lemma_insert_keeps_others(s, slug, v, other);
}

pub open spec fn slugs_v(s: Seq<String>) -> Seq<Seq<char>> {
    s.map_values(|x: String| x@)
}

pub open spec fn create_v(c: PendingCreate) -> (ProductType, Seq<char>, ProductView, Option<Seq<char>>) {
    (c.kind, c.slug@, c.product@, ov(c.icon_path))
}

/// The creates of `upload_empty`: the passes without an id, then the
/// developer products without an id, each with its discount prefix
/// applied.
pub open spec fn pending_creates_of(v: VCSProducts) -> Seq<(ProductType, Seq<char>, ProductView, Option<Seq<char>>)> {
    let pre = ov(v.metadata.discount_prefix);
    pending(v.passes@).map_values(
        |e: (Seq<char>, ProductView)| (ProductType::Pass, e.0, prefixed(e.1, pre), e.1.icon),
    ) + pending(v.products@).map_values(
        |e: (Seq<char>, ProductView)| (ProductType::DevProduct, e.0, prefixed(e.1, pre), e.1.icon),
    )
}

/// The discount prefix of a create: the configured one, else the default.
pub open spec fn create_prefix(v: VCSProducts) -> Seq<char> {
    match ov(v.metadata.discount_prefix) {
        Some(x) => x,
        None => "💲{}% OFF💲"@,
    }
}

/// The entry behind the `i`-th pending create: the passes without an id,
/// then the developer products without an id.
pub open spec fn create_source(v: VCSProducts, i: int) -> (Seq<char>, ProductView) {
    let np = pending(v.passes@).len() as int;
    if i < np {
        pending(v.passes@)[i]
    } else {
        pending(v.products@)[i - np]
    }
}

pub open spec fn create_kind(v: VCSProducts, i: int) -> ProductType {
    if i < pending(v.passes@).len() {
        ProductType::Pass
    } else {
        ProductType::DevProduct
    }
}

pub open spec fn has_discount_v(p: ProductView) -> bool {
    p.discount matches Some(d) && d > 0
}

/// Passes and developer products are created alike: every pending create
/// carries its entry (slug, icon, every field but the name as written),
/// and with a discount in effect its name is the discount prefix (the
/// configured one, else the default) with `{}` replaced by the
/// percentage, a space, then the entry's name.
pub proof fn lemma_creates_carry_discount_prefix(v: VCSProducts, i: int)
    requires
        0 <= i < pending_creates_of(v).len(),
    ensures
        pending_creates_of(v)[i].0 == create_kind(v, i),
        pending_creates_of(v)[i].1 == create_source(v, i).0,
        pending_creates_of(v)[i].3 == create_source(v, i).1.icon,
        pending_creates_of(v)[i].2 == (ProductView { name: pending_creates_of(v)[i].2.name, ..create_source(v, i).1 }),
        has_discount_v(create_source(v, i).1) ==> pending_creates_of(v)[i].2.name == replace_braces(
            create_prefix(v),
            dec(create_source(v, i).1.discount->0 as nat),
        ) + " "@ + create_source(v, i).1.name,
        !has_discount_v(create_source(v, i).1) ==> pending_creates_of(v)[i].2.name == create_source(v, i).1.name,
{
    let np = pending(v.passes@).len() as int;
    let pre = ov(v.metadata.discount_prefix);
    let a = pending(v.passes@).map_values(
        |e: (Seq<char>, ProductView)| (ProductType::Pass, e.0, prefixed(e.1, pre), e.1.icon),
    );
    let b = pending(v.products@).map_values(
        |e: (Seq<char>, ProductView)| (ProductType::DevProduct, e.0, prefixed(e.1, pre), e.1.icon),
    );
    assert(pending_creates_of(v) == a + b);
    if i < np {
        assert(pending_creates_of(v)[i] == a[i]);
    } else {
        assert(pending_creates_of(v)[i] == b[i - np]);
    }
}

/// The badge create of a pending badge: its description (empty when
/// unset), and its icon or the default one.
pub open spec fn badge_create_of(slug: Seq<char>, p: ProductView) -> (Seq<char>, Seq<char>, Seq<char>, bool, Seq<char>) {
    (
        slug,
        p.name,
        match p.description {
            Some(d) => d,
            None => Seq::empty(),
        },
        p.active,
        match p.icon {
            Some(i) => i,
            None => default_icon(),
        },
    )
}

impl BadgeCreate {
    pub open spec fn view_tuple(&self) -> (Seq<char>, Seq<char>, Seq<char>, bool, Seq<char>) {
        (self.slug@, self.name@, self.description@, self.active, self.icon_path@)
    }
}

/// The update of one confirmed diff: the request of the product as pushed
/// (discount prefix applied), for a badge the badge update, and the icon
/// when it changed.
pub open spec fn update_plan_of(
    v: VCSProducts,
    local: ProductView,
    kind: ProductType,
    id: u64,
    dirty: Seq<IconDirtyV>,
    price: u64,
) -> (ProductType, u64, Seq<char>, UpdateRequestV, Option<BadgeUpdateV>, Option<Seq<char>>, Option<Seq<char>>) {
    let pushed = prefixed(local, ov(v.metadata.discount_prefix));
    let d = dirty_get(dirty, kind, id);
    (
        kind,
        id,
        local.name,
        update_request_of(pushed, price),
        if kind == ProductType::Badge {
            Some(badge_update_of(pushed))
        } else {
            None
        },
        match d {
            Some(x) => Some(x.path),
            None => None,
        },
        match d {
            Some(x) => Some(x.new_hash),
            None => None,
        },
    )
}

pub open spec fn opt_badge_v(b: Option<BadgeUpdateRequest>) -> Option<BadgeUpdateV> {
    match b {
        Some(x) => Some(x@),
        None => None,
    }
}

impl UpdatePlan {
    pub open spec fn view_tuple(&self) -> (ProductType, u64, Seq<char>, UpdateRequestV, Option<BadgeUpdateV>, Option<Seq<char>>, Option<Seq<char>>) {
        (self.kind, self.id, self.name@, self.request@, opt_badge_v(self.badge_request), ov(self.icon_path), ov(self.new_icon_hash))
    }
}

pub open spec fn targets_of(s: Seq<(ProductType, ProductDiffsV)>) -> Seq<(ProductType, u64)> {
    s.map_values(|e: (ProductType, ProductDiffsV)| (e.0, e.1.id))
}

/// The (kind, id) of every diff, in order: what `--overwrite` and
/// `--auto-confirm` apply.
pub fn all_targets(diffs: &Vec<(ProductType, ProductDiffs)>) -> (r: Vec<(ProductType, u64)>)
    ensures
        r@ == targets_of(typed_diffs_v(diffs@)),
{
    let mut r: Vec<(ProductType, u64)> = Vec::new();
    let mut i: usize = 0;
    while i < diffs.len()
        invariant
            0 <= i <= diffs@.len(),
            r@ == targets_of(typed_diffs_v(diffs@)).take(i as int),
        decreases diffs@.len() - i,
    {
        r.push((diffs[i].0, diffs[i].1.id));
        i += 1;
        assert(r@ =~= targets_of(typed_diffs_v(diffs@)).take(i as int));
    }
    assert(targets_of(typed_diffs_v(diffs@)).take(diffs@.len() as int) =~= targets_of(typed_diffs_v(diffs@)));
    r
}

impl Uploader {
    /// The slugs of the badges without an id, in order.
    pub fn pending_badge_slugs(&self) -> (r: Vec<String>)
        ensures
            slugs_v(r@) == pending_keys(self.local().badges@),
    {
        let idx = pending_entries(&self.local_products.badges);
        let mut r: Vec<String> = Vec::new();
        let mut k: usize = 0;
        while k < idx.len()
            invariant
                0 <= k <= idx@.len(),
                idx@.map_values(|i: usize| self.local().badges@[i as int]) == pending(self.local().badges@),
                forall|q: int| 0 <= q < idx@.len() ==> #[trigger] idx@[q] < self.local().badges@.len(),
                slugs_v(r@) == pending_keys(self.local().badges@).take(k as int),
            decreases idx@.len() - k,
        {
            let i = idx[k];
            assert(pending(self.local().badges@)[k as int] == self.local().badges@[i as int]);
            let ghost before = r@;
            let key = self.local_products.badges.key_at(i).clone();
            r.push(key);
            assert(slugs_v(r@) =~= slugs_v(before).push(key@));
            assert(pending_keys(self.local().badges@)[k as int] == key@);
            assert(pending_keys(self.local().badges@).take(k + 1) =~= pending_keys(self.local().badges@).take(k as int).push(key@));
            k += 1;
            assert(slugs_v(r@) =~= pending_keys(self.local().badges@).take(k as int));
        }
        assert(pending_keys(self.local().badges@).take(idx@.len() as int) =~= pending_keys(self.local().badges@));
        r
    }

    /// The create of the badge under `slug`, if it is there.
    pub fn badge_create(&self, slug: &str) -> (r: Option<BadgeCreate>)
        ensures
            match r {
                Some(c) => pm_get(self.local().badges@, slug@) matches Some(p) && c.view_tuple() == badge_create_of(slug@, p),
                None => pm_get(self.local().badges@, slug@) is None,
            },
    {
        match self.local_products.badges.get(slug) {
            Some(b) => Some(
                BadgeCreate {
                    slug: to_owned_string(slug),
                    name: b.name.clone(),
                    description: match &b.description {
                        Some(d) => d.clone(),
                        None => String::new(),
                    },
                    active: b.active,
                    icon_path: match &b.icon {
                        Some(i) => i.clone(),
                        None => to_owned_string("assets/Image/missing_texture.png"),
                    },
                },
            ),
            None => None,
        }
    }

    /// The creates of passes and developer products without an id.
    pub fn pending_creates(&self) -> (r: Vec<PendingCreate>)
        ensures
            r@.map_values(|c: PendingCreate| create_v(c)) == pending_creates_of(self.local()),
    {
        let ghost v = self.local();
        let ghost pre = ov(v.metadata.discount_prefix);
        let mut r: Vec<PendingCreate> = Vec::new();
        let ghost target = pending_creates_of(v);
        let ghost np = pending(v.passes@).len();
        let idx = pending_entries(&self.local_products.passes);
        let mut k: usize = 0;
        while k < idx.len()
            invariant
                0 <= k <= idx@.len(),
                v == self.local(),
                pre == ov(v.metadata.discount_prefix),
                target == pending_creates_of(v),
                np == pending(v.passes@).len(),
                idx@.map_values(|i: usize| v.passes@[i as int]) == pending(v.passes@),
                forall|q: int| 0 <= q < idx@.len() ==> #[trigger] idx@[q] < v.passes@.len(),
                r@.map_values(|c: PendingCreate| create_v(c)) == target.take(k as int),
            decreases idx@.len() - k,
        {
            let i = idx[k];
            let ghost e = pending(v.passes@)[k as int];
            assert(e == v.passes@[i as int]);
            let mut p = self.local_products.passes.value_at(i).duplicate();
            let icon = clone_opt(&p.icon);
            apply_discount_prefix(&mut p, clone_opt(&self.local_products.metadata.discount_prefix));
            let ghost before = r@;
            r.push(PendingCreate {
                kind: ProductType::Pass,
                slug: self.local_products.passes.key_at(i).clone(),
                product: p,
                icon_path: icon,
            });
            assert(target[k as int] == (ProductType::Pass, e.0, prefixed(e.1, pre), e.1.icon));
            assert(r@.map_values(|c: PendingCreate| create_v(c)) =~= before.map_values(|c: PendingCreate| create_v(c)).push(target[k as int]));
            k += 1;
            assert(target.take(k as int) =~= target.take(k - 1).push(target[k - 1]));
        }
        let idx = pending_entries(&self.local_products.products);
        let mut k: usize = 0;
        while k < idx.len()
            invariant
                0 <= k <= idx@.len(),
                v == self.local(),
                pre == ov(v.metadata.discount_prefix),
                target == pending_creates_of(v),
                np == pending(v.passes@).len(),
                idx@.map_values(|i: usize| v.products@[i as int]) == pending(v.products@),
                forall|q: int| 0 <= q < idx@.len() ==> #[trigger] idx@[q] < v.products@.len(),
                r@.map_values(|c: PendingCreate| create_v(c)) == target.take(np + k),
            decreases idx@.len() - k,
        {
            let i = idx[k];
            let ghost e = pending(v.products@)[k as int];
            assert(e == v.products@[i as int]);
            let mut p = self.local_products.products.value_at(i).duplicate();
            let icon = clone_opt(&p.icon);
            apply_discount_prefix(&mut p, clone_opt(&self.local_products.metadata.discount_prefix));
            let ghost before = r@;
            r.push(PendingCreate {
                kind: ProductType::DevProduct,
                slug: self.local_products.products.key_at(i).clone(),
                product: p,
                icon_path: icon,
            });
            assert(target[np + k] == (ProductType::DevProduct, e.0, prefixed(e.1, pre), e.1.icon));
            assert(r@.map_values(|c: PendingCreate| create_v(c)) =~= before.map_values(|c: PendingCreate| create_v(c)).push(target[np + k]));
            k += 1;
            assert(target.take(np + k) =~= target.take(np + k - 1).push(target[np + k - 1]));
        }
        assert(target.take(target.len() as int) =~= target);
        r
    }

    /// Records a successful create of the entry under `slug` in the section
    /// of `kind`: its id, and its icon id and hash when known.
    pub fn record_created(&mut self, kind: ProductType, slug: &str, id: u64, icon_id: Option<u64>, icon_hash: Option<String>)
        ensures
            sections3(final(self).local()) == with_section(old(self).local(), kind, created(section_v(old(self).local(), kind), slug@, id, icon_id, ov(icon_hash))),
            final(self).local().metadata == old(self).local().metadata,
            final(self).local().codegen == old(self).local().codegen,
            final(self).remote() == old(self).remote(),
    {
        let pos = match kind {
            ProductType::Pass => self.local_products.passes.position(slug),
            ProductType::DevProduct => self.local_products.products.position(slug),
            ProductType::Badge => self.local_products.badges.position(slug),
        };
        match pos {
            Some(i) => match kind {
                ProductType::Pass => record_at(&mut self.local_products.passes, i, id, icon_id, icon_hash),
                ProductType::DevProduct => record_at(&mut self.local_products.products, i, id, icon_id, icon_hash),
                ProductType::Badge => record_at(&mut self.local_products.badges, i, id, icon_id, icon_hash),
            },
            None => {},
        }
    }

    /// The icon to push for product `p`, given the hash of its icon file
    /// (see `icon_dirty_of`).
    pub fn icon_check(&self, p: &Product, new_hash: Option<String>, force_icons: bool) -> (r: Option<IconDirty>)
        ensures
            match r {
                Some(d) => icon_dirty_of(self.local(), p@, ov(new_hash), force_icons) == Some(d@),
                None => icon_dirty_of(self.local(), p@, ov(new_hash), force_icons) is None,
            },
    {
        let id = match p.id {
            Some(x) => x,
            None => {
                return None;
            },
        };
        let path = match &p.icon {
            Some(x) => x.clone(),
            None => {
                return None;
            },
        };
        let h = match new_hash {
            Some(x) => x,
            None => {
                return None;
            },
        };
        let same = match &p.icon_hash {
            Some(old) => *old == h,
            None => false,
        };
        if !force_icons && same {
            return None;
        }
        let kind = if position_with_id(&self.local_products.passes, id).is_some() {
            ProductType::Pass
        } else if position_with_id(&self.local_products.products, id).is_some() {
            ProductType::DevProduct
        } else if position_with_id(&self.local_products.badges, id).is_some() {
            ProductType::Badge
        } else {
            return None;
        };
        Some(IconDirty { kind, id, path, new_hash: h, old_hash: clone_opt(&p.icon_hash) })
    }

    /// The first local product of `kind` with this id.
    pub fn find_for_update(&self, kind: ProductType, id: u64) -> (r: Option<Product>)
        ensures
            match r {
                Some(p) => first_with_id(section_v(self.local(), kind), id) >= 0 && p@ == section_v(self.local(), kind)[first_with_id(section_v(self.local(), kind), id)].1,
                None => first_with_id(section_v(self.local(), kind), id) < 0,
            },
    {
        let m = match kind {
            ProductType::Pass => &self.local_products.passes,
            ProductType::DevProduct => &self.local_products.products,
            ProductType::Badge => &self.local_products.badges,
        };
        match position_with_id(m, id) {
            Some(i) => Some(m.value_at(i).duplicate()),
            None => None,
        }
    }

    /// The update of one confirmed diff (see `update_plan_of`); `local` is
    /// the product `find_for_update` returned, `price` its price after
    /// discount.
    pub fn plan_update(&self, local: &Product, kind: ProductType, id: u64, dirty: &IconDirtyMap, price: u64) -> (r: UpdatePlan)
        ensures
            r.view_tuple() == update_plan_of(self.local(), local@, kind, id, dirty@, price),
    {
        let mut pushed = local.duplicate();
        apply_discount_prefix(&mut pushed, clone_opt(&self.local_products.metadata.discount_prefix));
        let request = ProductUpdateRequest::from_product(&pushed, price);
        let badge_request = match kind {
            ProductType::Badge => Some(BadgeUpdateRequest::from_product(&pushed)),
            _ => None,
        };
        let (icon_path, new_icon_hash) = match dirty.get(kind, id) {
            Some(d) => (Some(d.path.clone()), Some(d.new_hash.clone())),
            None => (None, None),
        };
        UpdatePlan { kind, id, name: local.name.clone(), request, badge_request, icon_path, new_icon_hash }
    }

    /// Records a successful update of the first product of `kind` with this
    /// id: the new icon id when the answer carried one, the new icon hash
    /// when an icon went up.
    pub fn record_synced(&mut self, kind: ProductType, id: u64, new_icon_id: Option<u64>, new_icon_hash: Option<String>)
        ensures
            sections3(final(self).local()) == with_section(old(self).local(), kind, synced(section_v(old(self).local(), kind), id, new_icon_id, ov(new_icon_hash))),
            final(self).local().metadata == old(self).local().metadata,
            final(self).local().codegen == old(self).local().codegen,
            final(self).remote() == old(self).remote(),
    {
        let pos = match kind {
            ProductType::Pass => position_with_id(&self.local_products.passes, id),
            ProductType::DevProduct => position_with_id(&self.local_products.products, id),
            ProductType::Badge => position_with_id(&self.local_products.badges, id),
        };
        match pos {
            Some(i) => match kind {
                ProductType::Pass => record_at(&mut self.local_products.passes, i, id, new_icon_id, new_icon_hash),
                ProductType::DevProduct => record_at(&mut self.local_products.products, i, id, new_icon_id, new_icon_hash),
                ProductType::Badge => record_at(&mut self.local_products.badges, i, id, new_icon_id, new_icon_hash),
            },
            None => {},
        }
    }
}

} // verus!
