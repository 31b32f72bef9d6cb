//! Field-by-field differences between a local product and its remote
//! counterpart, and the state of the viewer in which the user picks the
//! differences to push.
use vstd::prelude::*;
use crate::products::ProductType;
use crate::api::bool_text;
use crate::text::{dec, push_str, push_u64, string_from_chars, to_owned_string};

verus! {

/// One compared field: the remote value, then the local one.
#[derive(Debug)]
pub enum ProductDiff {
    Prefix(String, String),
    Title(String, String),
    Description(String, String),
    Price(u64, u64),
    RegionalPricing(bool, bool),
    Active(bool, bool),
    Icon(String, String),
}

pub enum FieldV {
    Prefix(Seq<char>, Seq<char>),
    Title(Seq<char>, Seq<char>),
    Description(Seq<char>, Seq<char>),
    Price(u64, u64),
    RegionalPricing(bool, bool),
    Active(bool, bool),
    Icon(Seq<char>, Seq<char>),
}

impl View for ProductDiff {
    type V = FieldV;

    open spec fn view(&self) -> FieldV {
        match self {
            ProductDiff::Prefix(a, b) => FieldV::Prefix(a@, b@),
            ProductDiff::Title(a, b) => FieldV::Title(a@, b@),
            ProductDiff::Description(a, b) => FieldV::Description(a@, b@),
            ProductDiff::Price(a, b) => FieldV::Price(*a, *b),
            ProductDiff::RegionalPricing(a, b) => FieldV::RegionalPricing(*a, *b),
            ProductDiff::Active(a, b) => FieldV::Active(*a, *b),
            ProductDiff::Icon(a, b) => FieldV::Icon(a@, b@),
        }
    }
}

/// Whether a compared field differs.
#[derive(Debug)]
pub enum DiffChange {
    Unchanged(ProductDiff),
    Changed(ProductDiff),
    Created(ProductDiff),
}

pub enum ChangeV {
    Unchanged(FieldV),
    Changed(FieldV),
    Created(FieldV),
}

impl View for DiffChange {
    type V = ChangeV;

    open spec fn view(&self) -> ChangeV {
        match self {
            DiffChange::Unchanged(d) => ChangeV::Unchanged(d@),
            DiffChange::Changed(d) => ChangeV::Changed(d@),
            DiffChange::Created(d) => ChangeV::Created(d@),
        }
    }
}

/// The compared fields of one product.
#[derive(Debug)]
pub struct ProductDiffs {
    pub name: String,
    pub id: u64,
    pub diffs: Vec<DiffChange>,
}

pub struct ProductDiffsV {
    pub name: Seq<char>,
    pub id: u64,
    pub diffs: Seq<ChangeV>,
}

pub open spec fn changes_v(s: Seq<DiffChange>) -> Seq<ChangeV> {
    s.map_values(|c: DiffChange| c@)
}

impl View for ProductDiffs {
    type V = ProductDiffsV;

    open spec fn view(&self) -> ProductDiffsV {
        ProductDiffsV { name: self.name@, id: self.id, diffs: changes_v(self.diffs@) }
    }
}

impl ProductDiff {
    pub fn duplicate(&self) -> (r: ProductDiff)
        ensures
            r@ == self@,
    {
        match self {
            ProductDiff::Prefix(a, b) => ProductDiff::Prefix(a.clone(), b.clone()),
            ProductDiff::Title(a, b) => ProductDiff::Title(a.clone(), b.clone()),
            ProductDiff::Description(a, b) => ProductDiff::Description(a.clone(), b.clone()),
            ProductDiff::Price(a, b) => ProductDiff::Price(*a, *b),
            ProductDiff::RegionalPricing(a, b) => ProductDiff::RegionalPricing(*a, *b),
            ProductDiff::Active(a, b) => ProductDiff::Active(*a, *b),
            ProductDiff::Icon(a, b) => ProductDiff::Icon(a.clone(), b.clone()),
        }
    }
}

impl DiffChange {
    pub fn duplicate(&self) -> (r: DiffChange)
        ensures
            r@ == self@,
    {
        match self {
            DiffChange::Unchanged(d) => DiffChange::Unchanged(d.duplicate()),
            DiffChange::Changed(d) => DiffChange::Changed(d.duplicate()),
            DiffChange::Created(d) => DiffChange::Created(d.duplicate()),
        }
    }

    pub fn is_changed(&self) -> (r: bool)
        ensures
            r == (self@ is Changed),
    {
        match self {
            DiffChange::Changed(_) => true,
            _ => false,
        }
    }
}

impl ProductDiffs {
    pub fn duplicate(&self) -> (r: ProductDiffs)
        ensures
            r@ == self@,
    {
        let mut diffs: Vec<DiffChange> = Vec::new();
        let mut i: usize = 0;
        while i < self.diffs.len()
            invariant
                0 <= i <= self.diffs@.len(),
                changes_v(diffs@) == changes_v(self.diffs@).take(i as int),
            decreases self.diffs@.len() - i,
        {
            let ghost before = diffs@;
            let d = self.diffs[i].duplicate();
            diffs.push(d);
            assert(changes_v(diffs@) =~= changes_v(before).push(d@));
            assert(changes_v(self.diffs@).take(i + 1) =~= changes_v(self.diffs@).take(i as int).push(
                self.diffs@[i as int]@,
            ));
            i += 1;
            assert(changes_v(diffs@) =~= changes_v(self.diffs@).take(i as int));
        }
        assert(changes_v(self.diffs@).take(self.diffs@.len() as int) =~= changes_v(self.diffs@));
        ProductDiffs { name: self.name.clone(), id: self.id, diffs }
    }
}


// ---------------------------------------------------------------------------
// Text of the viewer
// ---------------------------------------------------------------------------
/// How a line of the detail view is drawn.
#[derive(Debug, Clone, Copy, PartialEq, Eq, Structural)]
pub enum LineTone {
    Plain,
    Removed,
    Added,
}

/// A line of text and its tone.
#[derive(Debug)]
pub struct StyledLine {
    pub text: String,
    pub tone: LineTone,
}

pub open spec fn lines_v(s: Seq<StyledLine>) -> Seq<(Seq<char>, LineTone)> {
    s.map_values(|l: StyledLine| (l.text@, l.tone))
}

/// The label and the two values of a field as the detail view shows them;
/// `Prefix` is not shown.
pub open spec fn field_text(f: FieldV) -> Option<(Seq<char>, Seq<char>, Seq<char>)> {
    match f {
        FieldV::Prefix(_, _) => None,
        FieldV::Title(o, n) => Some(("Title"@, o, n)),
        FieldV::Description(o, n) => Some(("Description"@, o, n)),
        FieldV::Price(o, n) => Some(("Price"@, dec(o as nat), dec(n as nat))),
        FieldV::RegionalPricing(o, n) => Some(("Regional Pricing"@, bool_text(o), bool_text(n))),
        FieldV::Active(o, n) => Some(("Active"@, bool_text(o), bool_text(n))),
        FieldV::Icon(o, n) => Some(("Icon"@, o, n)),
    }
}

/// The lines one compared field adds to the remote (left) and local
/// (right) columns.
pub open spec fn change_lines(c: ChangeV) -> (Seq<(Seq<char>, LineTone)>, Seq<(Seq<char>, LineTone)>) {
    match c {
        ChangeV::Unchanged(f) => match field_text(f) {
            Some((l, o, n)) => (
                seq![("  "@ + l + ": "@ + o, LineTone::Plain)],
                seq![("  "@ + l + ": "@ + n, LineTone::Plain)],
            ),
            None => (Seq::empty(), Seq::empty()),
        },
        ChangeV::Changed(f) => match field_text(f) {
            Some((l, o, n)) => (
                seq![("- "@ + l + ": "@ + o, LineTone::Removed)],
                seq![("+ "@ + l + ": "@ + n, LineTone::Added)],
            ),
            None => (Seq::empty(), Seq::empty()),
        },
        ChangeV::Created(f) => match field_text(f) {
            Some((l, _o, n)) => (Seq::empty(), seq![("+ "@ + l + ": "@ + n, LineTone::Added)]),
            None => (Seq::empty(), Seq::empty()),
        },
    }
}

/// Both columns of the detail view of the first `k` fields.
pub open spec fn diff_columns(cs: Seq<ChangeV>, k: nat) -> (Seq<(Seq<char>, LineTone)>, Seq<(Seq<char>, LineTone)>)
    decreases k,
{
    if k == 0 || k > cs.len() {
        (Seq::empty(), Seq::empty())
    } else {
        let prev = diff_columns(cs, (k - 1) as nat);
        let cur = change_lines(cs[k - 1]);
        (prev.0 + cur.0, prev.1 + cur.1)
    }
}

fn field_strings(f: &ProductDiff) -> (r: Option<(String, String, String)>)
    ensures
        match r {
            Some((l, o, n)) => field_text(f@) == Some((l@, o@, n@)),
            None => field_text(f@) is None,
        },
{
    match f {
        ProductDiff::Prefix(_, _) => None,
        ProductDiff::Title(o, n) => Some((to_owned_string("Title"), o.clone(), n.clone())),
        ProductDiff::Description(o, n) => Some((to_owned_string("Description"), o.clone(), n.clone())),
        ProductDiff::Price(o, n) => {
            let mut a: Vec<char> = Vec::new();
            push_u64(&mut a, *o);
            let mut b: Vec<char> = Vec::new();
            push_u64(&mut b, *n);
            Some((to_owned_string("Price"), string_from_chars(&a), string_from_chars(&b)))
        },
        ProductDiff::RegionalPricing(o, n) => Some((to_owned_string("Regional Pricing"), bool_string(*o), bool_string(*n))),
        ProductDiff::Active(o, n) => Some((to_owned_string("Active"), bool_string(*o), bool_string(*n))),
        ProductDiff::Icon(o, n) => Some((to_owned_string("Icon"), o.clone(), n.clone())),
    }
}

fn bool_string(b: bool) -> (r: String)
    ensures
        r@ == bool_text(b),
{
    if b {
        to_owned_string("true")
    } else {
        to_owned_string("false")
    }
}

fn line(head: &str, label: &String, value: &String, tone: LineTone) -> (r: StyledLine)
    ensures
        r.text@ == head@ + label@ + ": "@ + value@,
        r.tone == tone,
{
    let mut t: Vec<char> = Vec::new();
    push_str(&mut t, head);
    push_str(&mut t, label.as_str());
    push_str(&mut t, ": ");
    push_str(&mut t, value.as_str());
    StyledLine { text: string_from_chars(&t), tone }
}

/// The two columns of the detail view of a product's diff: the remote
/// values on the left, the local ones on the right.
pub fn render_diff_lines(d: &ProductDiffs) -> (r: (Vec<StyledLine>, Vec<StyledLine>))
    ensures
        (lines_v(r.0@), lines_v(r.1@)) == diff_columns(changes_v(d.diffs@), d.diffs@.len()),
{
    let ghost cs = changes_v(d.diffs@);
    let mut left: Vec<StyledLine> = Vec::new();
    let mut right: Vec<StyledLine> = Vec::new();
    let mut i: usize = 0;
    while i < d.diffs.len()
        invariant
            0 <= i <= d.diffs@.len(),
            cs == changes_v(d.diffs@),
            (lines_v(left@), lines_v(right@)) == diff_columns(cs, i as nat),
        decreases d.diffs@.len() - i,
    {
        let ghost l0 = lines_v(left@);
        let ghost r0 = lines_v(right@);
        assert(cs[i as int] == d.diffs@[i as int]@);
        match &d.diffs[i] {
            DiffChange::Unchanged(f) => match field_strings(f) {
                Some((l, o, n)) => {
                    let a = line("  ", &l, &o, LineTone::Plain);
                    let b = line("  ", &l, &n, LineTone::Plain);
                    left.push(a);
                    right.push(b);
                },
                None => {},
            },
            DiffChange::Changed(f) => match field_strings(f) {
                Some((l, o, n)) => {
                    let a = line("- ", &l, &o, LineTone::Removed);
                    let b = line("+ ", &l, &n, LineTone::Added);
                    left.push(a);
                    right.push(b);
                },
                None => {},
            },
            DiffChange::Created(f) => match field_strings(f) {
                Some((l, _o, n)) => {
                    let b = line("+ ", &l, &n, LineTone::Added);
                    right.push(b);
                },
                None => {},
            },
        }
        let ghost cur = change_lines(cs[i as int]);
        assert(lines_v(left@) =~= l0 + cur.0);
        assert(lines_v(right@) =~= r0 + cur.1);
        i += 1;
    }
    (left, right)
}

pub open spec fn type_label(t: ProductType) -> Seq<char> {
    match t {
        ProductType::Pass => "Pass"@,
        ProductType::DevProduct => "DevProduct"@,
        ProductType::Badge => "Badge"@,
    }
}

/// The line of the list view: `*` marks a diff not yet marked for sync.
pub open spec fn list_line(t: ProductType, d: ProductDiffsV, confirmed: bool) -> Seq<char> {
    (if confirmed {
        ""@
    } else {
        "*"@
    }) + " "@ + type_label(t) + ": "@ + d.name + " (ID: "@ + dec(d.id as nat) + ")"@
}

// ---------------------------------------------------------------------------
// The viewer
// ---------------------------------------------------------------------------
/// A key press, as the viewer reads it.
#[derive(Debug, Clone, Copy, PartialEq, Eq, Structural)]
pub enum KeyCode {
    Char(char),
    Up,
    Down,
    Enter,
    Other,
}

#[derive(Debug, Clone, Copy, PartialEq, Eq, Structural)]
pub struct KeyInput {
    pub code: KeyCode,
    pub shift: bool,
    /// A press (not a release or a repeat).
    pub press: bool,
}

/// The diff viewer: the diffs, the ones marked for sync, the selection,
/// and the diff open in the detail view.
#[derive(Debug)]
pub struct DiffViewer {
    view: Option<(ProductType, ProductDiffs)>,
    diffs: Vec<(ProductType, ProductDiffs)>,
    confs: Vec<(ProductType, u64)>,
    selected: usize,
    scroll: u16,
    should_quit: bool,
}

pub struct ViewerV {
    pub view: Option<(ProductType, ProductDiffsV)>,
    pub diffs: Seq<(ProductType, ProductDiffsV)>,
    pub confs: Seq<(ProductType, u64)>,
    pub selected: nat,
    pub scroll: u16,
    pub should_quit: bool,
}

pub open spec fn typed_v(s: Seq<(ProductType, ProductDiffs)>) -> Seq<(ProductType, ProductDiffsV)> {
    s.map_values(|e: (ProductType, ProductDiffs)| (e.0, e.1@))
}

impl View for DiffViewer {
    type V = ViewerV;

    closed spec fn view(&self) -> ViewerV {
        ViewerV {
            view: match self.view {
                Some(v) => Some((v.0, v.1@)),
                None => None,
            },
            diffs: typed_v(self.diffs@),
            confs: self.confs@,
            selected: self.selected as nat,
            scroll: self.scroll,
            should_quit: self.should_quit,
        }
    }
}

/// `confs` without any entry equal to `t`.
pub open spec fn without(confs: Seq<(ProductType, u64)>, t: (ProductType, u64)) -> Seq<(ProductType, u64)>
    decreases confs.len(),
{
    if confs.len() == 0 {
        confs
    } else if confs.last() == t {
        without(confs.drop_last(), t)
    } else {
        without(confs.drop_last(), t).push(confs.last())
    }
}

pub open spec fn all_marks(diffs: Seq<(ProductType, ProductDiffsV)>) -> Seq<(ProductType, u64)> {
    diffs.map_values(|e: (ProductType, ProductDiffsV)| (e.0, e.1.id))
}

/// The viewer after one key.
pub open spec fn key_step(st: ViewerV, k: KeyInput) -> ViewerV {
    if !k.press {
        st
    } else {
        match k.code {
            KeyCode::Char(c) => if c == 'q' || c == 'Q' {
                if !k.shift && st.view is Some {
                    ViewerV { view: None, scroll: 0, ..st }
                } else {
                    ViewerV { should_quit: true, ..st }
                }
            } else if c == 'C' {
                if st.confs.len() == st.diffs.len() {
                    ViewerV { confs: Seq::empty(), ..st }
                } else {
                    ViewerV { confs: all_marks(st.diffs), ..st }
                }
            } else if c == 'c' {
                if st.selected < st.diffs.len() {
                    let t = (st.diffs[st.selected as int].0, st.diffs[st.selected as int].1.id);
                    if st.confs.contains(t) {
                        ViewerV { confs: without(st.confs, t), view: None, ..st }
                    } else {
                        ViewerV { confs: st.confs.push(t), view: None, ..st }
                    }
                } else {
                    st
                }
            } else {
                st
            },
            KeyCode::Up => if st.selected > 0 {
                ViewerV { selected: (st.selected - 1) as nat, ..st }
            } else {
                ViewerV { selected: (st.diffs.len() - 1) as nat, ..st }
            },
            KeyCode::Down => if st.selected + 1 < st.diffs.len() {
                ViewerV { selected: st.selected + 1, ..st }
            } else if st.selected + 1 == st.diffs.len() {
                ViewerV { selected: 0, ..st }
            } else {
                st
            },
            KeyCode::Enter => if st.selected < st.diffs.len() {
                ViewerV { view: Some(st.diffs[st.selected as int]), ..st }
            } else {
                st
            },
            KeyCode::Other => st,
        }
    }
}

/// The keys the viewer takes: `Up` needs a diff to wrap to when the
/// first one is selected.
pub open spec fn key_allowed(st: ViewerV, k: KeyInput) -> bool {
    !(k.press && k.code == KeyCode::Up && st.selected == 0 && st.diffs.len() == 0)
}

/// A key press of a character.
pub open spec fn char_press(c: char) -> KeyInput {
    KeyInput { code: KeyCode::Char(c), shift: false, press: true }
}

/// A key press of another key.
pub open spec fn key_press(code: KeyCode) -> KeyInput {
    KeyInput { code, shift: false, press: true }
}

proof fn lemma_without_absent(confs: Seq<(ProductType, u64)>, t: (ProductType, u64))
    requires
        !confs.contains(t),
    ensures
        without(confs, t) == confs,
    decreases confs.len(),
{
    if confs.len() > 0 {
        let d = confs.drop_last();
        assert(!d.contains(t)) by {
            if d.contains(t) {
                let j = choose|j: int| 0 <= j < d.len() && d[j] == t;
                assert(confs[j] == t);
            }
        }
        lemma_without_absent(d, t);
        assert(confs.last() != t) by {
            assert(confs[confs.len() - 1] == confs.last());
        }
        assert(d.push(confs.last()) =~= confs);
    }
}

/// Every mark names a listed diff, and none is there twice.
pub open spec fn marks_valid(st: ViewerV) -> bool {
    &&& forall|i: int| 0 <= i < st.confs.len() ==> all_marks(st.diffs).contains(#[trigger] st.confs[i])
    &&& st.confs.no_duplicates()
}

proof fn lemma_without_within(confs: Seq<(ProductType, u64)>, t: (ProductType, u64))
    ensures
        forall|i: int| 0 <= i < without(confs, t).len() ==> confs.contains(#[trigger] without(confs, t)[i]) && without(confs, t)[i] != t,
        confs.no_duplicates() ==> without(confs, t).no_duplicates(),
    decreases confs.len(),
{
    if confs.len() > 0 {
        let d = confs.drop_last();
        lemma_without_within(d, t);
        let w = without(d, t);
        assert forall|i: int| 0 <= i < w.len() implies confs.contains(#[trigger] w[i]) by {
            let j = choose|j: int| 0 <= j < d.len() && d[j] == w[i];
            assert(confs[j] == d[j]);
        }
        if confs.last() != t {
            let r = w.push(confs.last());
            assert forall|i: int| 0 <= i < r.len() implies confs.contains(#[trigger] r[i]) && r[i] != t by {
                if i < w.len() {
                    assert(r[i] == w[i]);
                } else {
                    assert(confs[confs.len() - 1] == confs.last());
                }
            }
            if confs.no_duplicates() {
                assert(d.no_duplicates()) by {
                    assert forall|i: int, j: int| 0 <= i < d.len() && 0 <= j < d.len() && i != j implies d[i] != d[j] by {
                        assert(d[i] == confs[i] && d[j] == confs[j]);
                    }
                }
                assert forall|i: int, j: int| 0 <= i < r.len() && 0 <= j < r.len() && i != j implies r[i] != r[j] by {
                    if i < w.len() && j < w.len() {
                        assert(r[i] == w[i] && r[j] == w[j]);
                    } else if i < w.len() {
                        assert(r[i] == w[i]);
                        let k = choose|k: int| 0 <= k < d.len() && d[k] == w[i];
                        assert(confs[k] == d[k]);
                        assert(confs[confs.len() - 1] == confs.last());
                    } else if j < w.len() {
                        assert(r[j] == w[j]);
                        let k = choose|k: int| 0 <= k < d.len() && d[k] == w[j];
                        assert(confs[k] == d[k]);
                        assert(confs[confs.len() - 1] == confs.last());
                    }
                }
            }
        } else {
            if confs.no_duplicates() {
                assert(d.no_duplicates()) by {
                    assert forall|i: int, j: int| 0 <= i < d.len() && 0 <= j < d.len() && i != j implies d[i] != d[j] by {
                        assert(d[i] == confs[i] && d[j] == confs[j]);
                    }
                }
            }
        }
    }
}

/// Every key keeps the marks among the listed diffs, each at most once
/// (when the listed diffs are themselves distinct).
pub proof fn lemma_marks_stay_valid(st: ViewerV, k: KeyInput)
    requires
        marks_valid(st),
        all_marks(st.diffs).no_duplicates(),
    ensures
        marks_valid(key_step(st, k)),
        key_step(st, k).diffs == st.diffs,
{
    let r = key_step(st, k);
    assert(r.diffs == st.diffs);
    if k.press {
        match k.code {
            KeyCode::Char(c) => {
                if c == 'C' && st.confs.len() != st.diffs.len() {
                    let m = all_marks(st.diffs);
                    assert forall|i: int| 0 <= i < r.confs.len() implies m.contains(#[trigger] r.confs[i]) by {
                        assert(r.confs[i] == m[i]);
                    }
                } else if c == 'C' {
                    assert(r.confs.len() == 0);
                } else if c == 'c' && c != 'q' && c != 'Q' && st.selected < st.diffs.len() {
                    let t = (st.diffs[st.selected as int].0, st.diffs[st.selected as int].1.id);
                    let m = all_marks(st.diffs);
                    assert(m[st.selected as int] == t);
                    if st.confs.contains(t) {
                        lemma_without_within(st.confs, t);
                    } else {
                        let p = st.confs.push(t);
                        assert forall|i: int| 0 <= i < p.len() implies m.contains(#[trigger] p[i]) by {
                            if i < st.confs.len() {
                                assert(p[i] == st.confs[i]);
                            }
                        }
                        assert forall|i: int, j: int| 0 <= i < p.len() && 0 <= j < p.len() && i != j implies p[i] != p[j] by {
                            if i < st.confs.len() && j < st.confs.len() {
                                assert(p[i] == st.confs[i] && p[j] == st.confs[j]);
                            } else if i < st.confs.len() {
                                assert(p[i] == st.confs[i]);
                            } else {
                                assert(p[j] == st.confs[j]);
                            }
                        }
                    }
                }
            },
            _ => {},
        }
    }
}

/// The viewer after the keys, in order.
pub open spec fn run_keys(st: ViewerV, ks: Seq<KeyInput>) -> ViewerV
    decreases ks.len(),
{
    if ks.len() == 0 {
        st
    } else {
        key_step(run_keys(st, ks.drop_last()), ks.last())
    }
}

proof fn lemma_run_keys_valid(st: ViewerV, ks: Seq<KeyInput>)
    requires
        marks_valid(st),
        all_marks(st.diffs).no_duplicates(),
    ensures
        marks_valid(run_keys(st, ks)),
        run_keys(st, ks).diffs == st.diffs,
    decreases ks.len(),
{
    if ks.len() > 0 {
        lemma_run_keys_valid(st, ks.drop_last());
        lemma_marks_stay_valid(run_keys(st, ks.drop_last()), ks.last());
    }
}

/// Only listed diffs can be marked for sync: a viewer that starts with no
/// marks over diffs whose (kind, id) pairs are distinct, after any
/// sequence of keys, has every mark among those pairs, none twice.
pub proof fn lemma_marks_valid_after_keys(st: ViewerV, ks: Seq<KeyInput>)
    requires
        st.confs.len() == 0,
        all_marks(st.diffs).no_duplicates(),
    ensures
        run_keys(st, ks).confs.no_duplicates(),
        forall|i: int|
            0 <= i < run_keys(st, ks).confs.len() ==> all_marks(st.diffs).contains(
                #[trigger] run_keys(st, ks).confs[i],
            ),
{
    lemma_run_keys_valid(st, ks);
}

/// `c` twice on an unmarked item marks it, then leaves the marks as they
/// were.
pub proof fn lemma_mark_twice_restores(st: ViewerV)
    requires
        st.selected < st.diffs.len(),
        !st.confs.contains((st.diffs[st.selected as int].0, st.diffs[st.selected as int].1.id)),
    ensures
        key_step(st, char_press('c')).confs == st.confs.push(
            (st.diffs[st.selected as int].0, st.diffs[st.selected as int].1.id),
        ),
        key_step(key_step(st, char_press('c')), char_press('c')).confs == st.confs,
{
    let t = (st.diffs[st.selected as int].0, st.diffs[st.selected as int].1.id);
    let once = key_step(st, char_press('c'));
    assert(once.confs == st.confs.push(t));
    assert(once.confs.contains(t)) by {
        assert(once.confs[once.confs.len() - 1] == t);
    }
    assert(st.confs.push(t).drop_last() =~= st.confs);
    lemma_without_absent(st.confs, t);
}

/// `C` marks every item when not all are marked, and a second `C`
/// clears the marks.
pub proof fn lemma_mark_all_toggles(st: ViewerV)
    requires
        st.confs.len() != st.diffs.len(),
    ensures
        key_step(st, char_press('C')).confs == all_marks(st.diffs),
        key_step(key_step(st, char_press('C')), char_press('C')).confs == Seq::<(ProductType, u64)>::empty(),
{
    let once = key_step(st, char_press('C'));
    assert(once.confs.len() == once.diffs.len());
}

/// `Down` then `Up` comes back to the selected item, the wrap from the
/// last item to the first included.
pub proof fn lemma_down_up_returns(st: ViewerV)
    requires
        st.selected < st.diffs.len(),
    ensures
        key_step(key_step(st, key_press(KeyCode::Down)), key_press(KeyCode::Up)).selected == st.selected,
{
}

/// `Up` then `Down` comes back to the selected item, the wrap from the
/// first item to the last included.
pub proof fn lemma_up_down_returns(st: ViewerV)
    requires
        st.selected < st.diffs.len(),
    ensures
        key_step(key_step(st, key_press(KeyCode::Up)), key_press(KeyCode::Down)).selected == st.selected,
{
}

fn copy_typed(d: &(ProductType, ProductDiffs)) -> (r: (ProductType, ProductDiffs))
    ensures
        (r.0, r.1@) == (d.0, d.1@),
{
    (d.0, d.1.duplicate())
}

fn contains_mark(confs: &Vec<(ProductType, u64)>, t: (ProductType, u64)) -> (r: bool)
    ensures
        r == confs@.contains(t),
{
    let mut i: usize = 0;
    while i < confs.len()
        invariant
            0 <= i <= confs@.len(),
            forall|j: int| 0 <= j < i ==> confs@[j] != t,
        decreases confs@.len() - i,
    {
        if confs[i].0 == t.0 && confs[i].1 == t.1 {
            assert(confs@[i as int] == t);
            return true;
        }
        i += 1;
    }
    false
}

fn remove_mark(confs: &Vec<(ProductType, u64)>, t: (ProductType, u64)) -> (r: Vec<(ProductType, u64)>)
    ensures
        r@ == without(confs@, t),
{
    let mut r: Vec<(ProductType, u64)> = Vec::new();
    let mut i: usize = 0;
    while i < confs.len()
        invariant
            0 <= i <= confs@.len(),
            r@ == without(confs@.take(i as int), t),
        decreases confs@.len() - i,
    {
        let ghost pre = confs@.take(i + 1);
        assert(pre.drop_last() =~= confs@.take(i as int));
        if !(confs[i].0 == t.0 && confs[i].1 == t.1) {
            r.push(confs[i]);
        }
        i += 1;
    }
    assert(confs@.take(confs@.len() as int) =~= confs@);
    r
}

impl DiffViewer {
    pub fn new() -> (r: DiffViewer)
        ensures
            r@.view is None,
            r@.diffs.len() == 0,
            r@.confs.len() == 0,
            r@.selected == 0,
            r@.scroll == 0,
            !r@.should_quit,
    {
        DiffViewer { view: None, diffs: Vec::new(), confs: Vec::new(), selected: 0, scroll: 0, should_quit: false }
    }

    /// The viewer showing these diffs, the detail view closed.
    pub fn with_diffs(self, diffs: Vec<(ProductType, ProductDiffs)>) -> (r: DiffViewer)
        ensures
            r@ == (ViewerV { view: None, diffs: typed_v(diffs@), ..self@ }),
    {
        DiffViewer { view: None, diffs, confs: self.confs, selected: self.selected, scroll: self.scroll, should_quit: self.should_quit }
    }

    /// The (kind, id) of the diffs marked for sync.
    pub fn get_confs(&self) -> (r: &Vec<(ProductType, u64)>)
        ensures
            r@ == self@.confs,
    {
        &self.confs
    }

    pub fn should_quit(&self) -> (r: bool)
        ensures
            r == self@.should_quit,
    {
        self.should_quit
    }

    pub fn selected(&self) -> (r: usize)
        ensures
            r as nat == self@.selected,
    {
        self.selected
    }

    pub fn scroll(&self) -> (r: u16)
        ensures
            r == self@.scroll,
    {
        self.scroll
    }

    /// The diff open in the detail view.
    pub fn open_diff(&self) -> (r: Option<&(ProductType, ProductDiffs)>)
        ensures
            match r {
                Some(d) => self@.view == Some((d.0, d.1@)),
                None => self@.view is None,
            },
    {
        match &self.view {
            Some(v) => Some(v),
            None => None,
        }
    }

    /// The lines of the list view, each with whether it is marked.
    pub fn list_lines(&self) -> (r: Vec<(String, bool)>)
        ensures
            r@.len() == self@.diffs.len(),
            forall|i: int| 0 <= i < r@.len() ==> {
                &&& (#[trigger] r@[i]).1 == self@.confs.contains((self@.diffs[i].0, self@.diffs[i].1.id))
                &&& r@[i].0@ == list_line(self@.diffs[i].0, self@.diffs[i].1, r@[i].1)
            },
    {
        let mut r: Vec<(String, bool)> = Vec::new();
        let mut i: usize = 0;
        while i < self.diffs.len()
            invariant
                0 <= i <= self.diffs@.len(),
                r@.len() == i,
                forall|j: int| 0 <= j < i ==> {
                    &&& (#[trigger] r@[j]).1 == self@.confs.contains((self@.diffs[j].0, self@.diffs[j].1.id))
                    &&& r@[j].0@ == list_line(self@.diffs[j].0, self@.diffs[j].1, r@[j].1)
                },
            decreases self.diffs@.len() - i,
        {
            let t = self.diffs[i].0;
            let d = &self.diffs[i].1;
            assert(self@.diffs[i as int] == (t, d@));
            let confirmed = contains_mark(&self.confs, (t, d.id));
            let mut text: Vec<char> = Vec::new();
            if !confirmed {
                push_str(&mut text, "*");
            }
            push_str(&mut text, " ");
            let label = match t {
                ProductType::Pass => "Pass",
                ProductType::DevProduct => "DevProduct",
                ProductType::Badge => "Badge",
            };
            push_str(&mut text, label);
            push_str(&mut text, ": ");
            push_str(&mut text, d.name.as_str());
            push_str(&mut text, " (ID: ");
            push_u64(&mut text, d.id);
            push_str(&mut text, ")");
            proof {
                reveal_strlit("");
                assert(text@ =~= list_line(t, d@, confirmed));
            }
            r.push((string_from_chars(&text), confirmed));
            i += 1;
        }
        r
    }

    /// Applies one key (see `key_step`).
    pub fn handle_key(&mut self, key: KeyInput)
        requires
            key_allowed(old(self)@, key),
        ensures
            final(self)@ == key_step(old(self)@, key),
    {
        if !key.press {
            return ;
        }
        let ghost st = self@;
        match key.code {
            KeyCode::Char(c) => {
                if c == 'q' || c == 'Q' {
                    if !key.shift && self.view.is_some() {
                        self.view = None;
                        self.scroll = 0;
                        return ;
                    }
                    self.should_quit = true;
                } else if c == 'C' {
                    if self.confs.len() == self.diffs.len() {
                        self.confs = Vec::new();
                        assert(self@ =~= key_step(st, key));
                    } else {
                        let mut all: Vec<(ProductType, u64)> = Vec::new();
                        let mut i: usize = 0;
                        while i < self.diffs.len()
                            invariant
                                0 <= i <= self.diffs@.len(),
                                st.diffs == typed_v(self.diffs@),
                                all@ == all_marks(st.diffs).take(i as int),
                            decreases self.diffs@.len() - i,
                        {
                            all.push((self.diffs[i].0, self.diffs[i].1.id));
                            i += 1;
                            assert(all@ =~= all_marks(st.diffs).take(i as int));
                        }
                        assert(all_marks(st.diffs).take(self.diffs@.len() as int) =~= all_marks(st.diffs));
                        self.confs = all;
                        assert(self@ =~= key_step(st, key));
                    }
                } else if c == 'c' {
                    if self.selected < self.diffs.len() {
                        let t = (self.diffs[self.selected].0, self.diffs[self.selected].1.id);
                        assert(st.diffs[st.selected as int] == (self.diffs@[self.selected as int].0, self.diffs@[self.selected as int].1@));
                        if contains_mark(&self.confs, t) {
                            self.confs = remove_mark(&self.confs, t);
                        } else {
                            self.confs.push(t);
                        }
                        self.view = None;
                        assert(self@ =~= key_step(st, key));
                    }
                }
            },
            KeyCode::Up => {
                if self.selected > 0 {
                    self.selected = self.selected - 1;
                } else {
                    self.selected = self.diffs.len() - 1;
                }
            },
            KeyCode::Down => {
                let n: usize = self.diffs.len();
                if self.selected < n && self.selected + 1 < n {
                    self.selected = self.selected + 1;
                } else if self.selected < n && self.selected + 1 == n {
                    self.selected = 0;
                }
            },
            KeyCode::Enter => {
                if self.selected < self.diffs.len() {
                    let d = copy_typed(&self.diffs[self.selected]);
                    assert(st.diffs[st.selected as int] == (d.0, d.1@));
                    self.view = Some(d);
                }
            },
            KeyCode::Other => {},
        }
    }
}

} // verus!
