//! Reading and writing the products file: the checks on a file laid out
//! the old way, and the edits that bring the file in line with the
//! products while keeping the rest of the document (comments, order,
//! unknown keys) as it was.
use vstd::prelude::*;
use crate::names::{filters_view, strings_view};
use crate::products::{
    Metadata, ProductMap, ProductView, VCSProducts, key_pos, lemma_key_pos, normalize_slug_keys, normalized, ov,
    pm_get, unique_keys,
};
use crate::text::{ascii_lower, chars_of, to_owned_string, trim, trim_chars};

verus! {

// ---------------------------------------------------------------------------
// Values written into the file
// ---------------------------------------------------------------------------
/// A value written under a key of the products file.
#[derive(Debug)]
pub enum FieldValue {
    Int(i64),
    Str(String),
    Bool(bool),
}

pub enum FieldValueV {
    Int(i64),
    Str(Seq<char>),
    Bool(bool),
}

impl View for FieldValue {
    type V = FieldValueV;

    open spec fn view(&self) -> FieldValueV {
        match self {
            FieldValue::Int(i) => FieldValueV::Int(*i),
            FieldValue::Str(s) => FieldValueV::Str(s@),
            FieldValue::Bool(b) => FieldValueV::Bool(*b),
        }
    }
}

pub open spec fn fields_v(s: Seq<(String, FieldValue)>) -> Seq<(Seq<char>, FieldValueV)> {
    s.map_values(|e: (String, FieldValue)| (e.0@, e.1@))
}

/// `x as i64`: the bits of `x` read as a signed number.
pub open spec fn wrap_i64(x: u64) -> i64 {
    if x <= 0x7fff_ffff_ffff_ffff {
        x as i64
    } else {
        (x - 0x1_0000_0000_0000_0000) as i64
    }
}

pub fn to_i64_bits(x: u64) -> (r: i64)
    ensures
        r == wrap_i64(x),
{
    if x <= 0x7fff_ffff_ffff_ffff {
        x as i64
    } else {
        let low = (x - 0x8000_0000_0000_0000) as i64;
        low - 0x7fff_ffff_ffff_ffff - 1
    }
}

pub open spec fn opt_field(k: Seq<char>, v: Option<FieldValueV>) -> Seq<(Seq<char>, FieldValueV)> {
    match v {
        Some(x) => seq![(k, x)],
        None => Seq::empty(),
    }
}

pub open spec fn str_field(o: Option<Seq<char>>) -> Option<FieldValueV> {
    match o {
        Some(s) => Some(FieldValueV::Str(s)),
        None => None,
    }
}

/// The table written for a product: `id`, `prefix`, `name`,
/// `description`, `active`, `discount`, `price`, `regional_pricing`,
/// `icon`, `path`, each optional one only when set. A badge (`priced`
/// false) carries no `discount`, `price` or `regional_pricing`.
pub open spec fn product_fields_of(p: ProductView, priced: bool) -> Seq<(Seq<char>, FieldValueV)> {
    opt_field(
        "id"@,
        match p.id {
            Some(i) => Some(FieldValueV::Int(wrap_i64(i))),
            None => None,
        },
    ) + opt_field("prefix"@, str_field(p.prefix)) + seq![("name"@, FieldValueV::Str(p.name))]
        + opt_field("description"@, str_field(p.description)) + seq![
        ("active"@, FieldValueV::Bool(p.active)),
    ] + price_fields_of(p, priced) + opt_field("icon"@, str_field(p.icon)) + opt_field(
        "path"@,
        str_field(p.path),
    )
}

/// `discount` (when set), `price` and `regional_pricing` (when set); none
/// of them for a badge.
pub open spec fn price_fields_of(p: ProductView, priced: bool) -> Seq<(Seq<char>, FieldValueV)> {
    if priced {
        opt_field(
            "discount"@,
            match p.discount {
                Some(d) => Some(FieldValueV::Int(d as i64)),
                None => None,
            },
        ) + seq![("price"@, FieldValueV::Int(p.price))] + opt_field(
            "regional_pricing"@,
            match p.regional_pricing {
                Some(b) => Some(FieldValueV::Bool(b)),
                None => None,
            },
        )
    } else {
        Seq::empty()
    }
}

fn push_opt_str(out: &mut Vec<(String, FieldValue)>, key: &str, v: &Option<String>)
    ensures
        fields_v(final(out)@) == fields_v(old(out)@) + opt_field(key@, str_field(ov(*v))),
{
    let ghost before = fields_v(out@);
    match v {
        Some(s) => {
            out.push((to_owned_string(key), FieldValue::Str(s.clone())));
        },
        None => {},
    }
    assert(fields_v(out@) =~= before + opt_field(key@, str_field(ov(*v))));
}

fn push_field(out: &mut Vec<(String, FieldValue)>, key: &str, v: FieldValue)
    ensures
        fields_v(final(out)@) == fields_v(old(out)@) + seq![(key@, v@)],
{
    let ghost before = fields_v(out@);
    out.push((to_owned_string(key), v));
    assert(fields_v(out@) =~= before + seq![(key@, v@)]);
}

/// The fields of the table written for a product (see
/// `product_fields_of`).
pub fn product_fields(p: &crate::products::Product, priced: bool) -> (r: Vec<(String, FieldValue)>)
    ensures
        fields_v(r@) == product_fields_of(p@, priced),
{
    let mut out: Vec<(String, FieldValue)> = Vec::new();
    let ghost p_v = p@;
    match p.id {
        Some(i) => push_field(&mut out, "id", FieldValue::Int(to_i64_bits(i))),
        None => {},
    }
    assert(fields_v(out@) =~= opt_field(
        "id"@,
        match p_v.id {
            Some(i) => Some(FieldValueV::Int(wrap_i64(i))),
            None => None,
        },
    ));
    push_opt_str(&mut out, "prefix", &p.prefix);
    push_field(&mut out, "name", FieldValue::Str(p.name.clone()));
    push_opt_str(&mut out, "description", &p.description);
    push_field(&mut out, "active", FieldValue::Bool(p.active));
    let ghost before = fields_v(out@);
    if priced {
        match p.discount {
            Some(d) => push_field(&mut out, "discount", FieldValue::Int(d as i64)),
            None => {},
        }
        assert(fields_v(out@) =~= before + opt_field(
            "discount"@,
            match p_v.discount {
                Some(d) => Some(FieldValueV::Int(d as i64)),
                None => None,
            },
        ));
        push_field(&mut out, "price", FieldValue::Int(p.price));
        let ghost before2 = fields_v(out@);
        match p.regional_pricing {
            Some(b) => push_field(&mut out, "regional_pricing", FieldValue::Bool(b)),
            None => {},
        }
        assert(fields_v(out@) =~= before2 + opt_field(
            "regional_pricing"@,
            match p_v.regional_pricing {
                Some(b) => Some(FieldValueV::Bool(b)),
                None => None,
            },
        ));
    }
    assert(fields_v(out@) =~= before + price_fields_of(p_v, priced));
    push_opt_str(&mut out, "icon", &p.icon);
    push_opt_str(&mut out, "path", &p.path);
    out
}

// ---------------------------------------------------------------------------
// The edits of a save
// ---------------------------------------------------------------------------
/// An edit of the `[metadata]` table.
#[derive(Debug)]
pub enum MetaEdit {
    Put(String, FieldValue),
    SetList(String, Vec<String>),
    Remove(String),
}

pub enum MetaEditV {
    Put(Seq<char>, FieldValueV),
    SetList(Seq<char>, Seq<Seq<char>>),
    Remove(Seq<char>),
}

impl View for MetaEdit {
    type V = MetaEditV;

    open spec fn view(&self) -> MetaEditV {
        match self {
            MetaEdit::Put(k, v) => MetaEditV::Put(k@, v@),
            MetaEdit::SetList(k, l) => MetaEditV::SetList(k@, strings_view(l@)),
            MetaEdit::Remove(k) => MetaEditV::Remove(k@),
        }
    }
}

pub open spec fn edits_v(s: Seq<MetaEdit>) -> Seq<MetaEditV> {
    s.map_values(|e: MetaEdit| e@)
}

/// The edits of `[metadata]`, in order: the discount prefix set (or
/// removed when unset), the universe id, the name filters (empty when
/// unset); the kebab-case and retired keys removed.
pub open spec fn metadata_edits_of(m: Metadata) -> Seq<MetaEditV> {
    seq![
        match ov(m.discount_prefix) {
            Some(d) => MetaEditV::Put("discount_prefix"@, FieldValueV::Str(d)),
            None => MetaEditV::Remove("discount_prefix"@),
        },
        MetaEditV::Remove("discount-prefix"@),
        MetaEditV::Put("universe_id"@, FieldValueV::Int(wrap_i64(m.universe_id))),
        MetaEditV::Remove("universe-id"@),
        MetaEditV::Remove("luau-file"@),
        MetaEditV::SetList(
            "name_filters"@,
            match filters_view(m.name_filters) {
                Some(f) => f,
                None => Seq::empty(),
            },
        ),
        MetaEditV::Remove("name-filters"@),
    ]
}

fn copy_strings(v: &Vec<String>) -> (r: Vec<String>)
    ensures
        strings_view(r@) == strings_view(v@),
{
    let mut r: Vec<String> = Vec::new();
    let mut i: usize = 0;
    while i < v.len()
        invariant
            0 <= i <= v@.len(),
            strings_view(r@) == strings_view(v@).take(i as int),
        decreases v@.len() - i,
    {
        let ghost before = strings_view(r@);
        r.push(v[i].clone());
        assert(strings_view(r@) =~= before.push(v@[i as int]@));
        i += 1;
        assert(strings_view(v@).take(i as int) =~= strings_view(v@).take(i - 1).push(v@[i - 1]@));
    }
    assert(strings_view(v@).take(v@.len() as int) =~= strings_view(v@));
    r
}

fn metadata_edits(m: &Metadata) -> (r: Vec<MetaEdit>)
    ensures
        edits_v(r@) == metadata_edits_of(*m),
{
    let mut r: Vec<MetaEdit> = Vec::new();
    match &m.discount_prefix {
        Some(d) => r.push(MetaEdit::Put(to_owned_string("discount_prefix"), FieldValue::Str(d.clone()))),
        None => r.push(MetaEdit::Remove(to_owned_string("discount_prefix"))),
    }
    r.push(MetaEdit::Remove(to_owned_string("discount-prefix")));
    r.push(MetaEdit::Put(to_owned_string("universe_id"), FieldValue::Int(to_i64_bits(m.universe_id))));
    r.push(MetaEdit::Remove(to_owned_string("universe-id")));
    r.push(MetaEdit::Remove(to_owned_string("luau-file")));
    let filters: Vec<String> = match &m.name_filters {
        Some(f) => copy_strings(f.patterns()),
        None => Vec::new(),
    };
    assert(strings_view(filters@) =~= match filters_view(m.name_filters) {
        Some(f) => f,
        None => Seq::empty(),
    });
    r.push(MetaEdit::SetList(to_owned_string("name_filters"), filters));
    r.push(MetaEdit::Remove(to_owned_string("name-filters")));
    assert(edits_v(r@) =~= metadata_edits_of(*m));
    r
}

/// The keys among the first `n` of the file's table that the section no
/// longer holds, in the file's order.
pub open spec fn stale_keys(existing: Seq<Seq<char>>, s: Seq<(Seq<char>, ProductView)>, n: nat) -> Seq<Seq<char>>
    decreases n,
{
    if n == 0 || n > existing.len() {
        Seq::empty()
    } else if key_pos(s, existing[n - 1]) < 0 {
        stale_keys(existing, s, (n - 1) as nat).push(existing[n - 1])
    } else {
        stale_keys(existing, s, (n - 1) as nat)
    }
}

proof fn lemma_stale_upto(existing: Seq<Seq<char>>, s: Seq<(Seq<char>, ProductView)>, n: nat, k: Seq<char>)
    requires
        n <= existing.len(),
    ensures
        stale_keys(existing, s, n).contains(k) <==> (existing.take(n as int).contains(k) && key_pos(s, k) < 0),
    decreases n,
{
    if n > 0 {
        lemma_stale_upto(existing, s, (n - 1) as nat, k);
        let prev = stale_keys(existing, s, (n - 1) as nat);
        let e = existing[n - 1];
        assert(existing.take(n as int) =~= existing.take(n - 1).push(e));
        if key_pos(s, e) < 0 {
            assert(stale_keys(existing, s, n) == prev.push(e));
            if prev.push(e).contains(k) && k != e {
                let j = choose|j: int| 0 <= j < prev.push(e).len() && #[trigger] prev.push(e)[j] == k;
                assert(prev[j] == k);
            }
            if prev.contains(k) {
                let j = choose|j: int| 0 <= j < prev.len() && #[trigger] prev[j] == k;
                assert(prev.push(e)[j] == k);
            }
            if k == e {
                assert(prev.push(e)[prev.len() as int] == k);
            }
        }
        if existing.take(n as int).contains(k) && k != e {
            let j = choose|j: int| 0 <= j < n && #[trigger] existing.take(n as int)[j] == k;
            assert(existing.take(n - 1)[j] == k);
        }
        if existing.take(n - 1).contains(k) {
            let j = choose|j: int| 0 <= j < n - 1 && #[trigger] existing.take(n - 1)[j] == k;
            assert(existing.take(n as int)[j] == k);
        }
        if k == e {
            assert(existing.take(n as int)[n - 1] == k);
        }
    }
}

/// A save removes from a section table exactly the keys the section no
/// longer holds: a stale key is one of the table's keys without an entry.
pub proof fn lemma_stale_keys_exact(existing: Seq<Seq<char>>, s: Seq<(Seq<char>, ProductView)>, k: Seq<char>)
    ensures
        section_write_of(existing, s, true).stale.contains(k) <==> (existing.contains(k) && pm_get(s, k) is None),
{
    lemma_stale_upto(existing, s, existing.len(), k);
    assert(existing.take(existing.len() as int) =~= existing);
}

pub open spec fn section_tables_of(s: Seq<(Seq<char>, ProductView)>, priced: bool) -> Seq<
    (Seq<char>, Seq<(Seq<char>, FieldValueV)>),
> {
    s.map_values(|e: (Seq<char>, ProductView)| (e.0, product_fields_of(e.1, priced)))
}

/// What a save does to one section table: the stale keys removed, then
/// every entry written.
#[derive(Debug)]
pub struct SectionWrite {
    pub stale: Vec<String>,
    pub entries: Vec<(String, Vec<(String, FieldValue)>)>,
}

pub struct SectionWriteV {
    pub stale: Seq<Seq<char>>,
    pub entries: Seq<(Seq<char>, Seq<(Seq<char>, FieldValueV)>)>,
}

impl View for SectionWrite {
    type V = SectionWriteV;

    open spec fn view(&self) -> SectionWriteV {
        SectionWriteV {
            stale: strings_view(self.stale@),
            entries: self.entries@.map_values(
                |e: (String, Vec<(String, FieldValue)>)| (e.0@, fields_v(e.1@)),
            ),
        }
    }
}

pub open spec fn section_write_of(existing: Seq<Seq<char>>, s: Seq<(Seq<char>, ProductView)>, priced: bool) -> SectionWriteV {
    SectionWriteV { stale: stale_keys(existing, s, existing.len()), entries: section_tables_of(s, priced) }
}

/// The edits of one section, given the keys its table has in the file;
/// `priced` is false for the badges.
pub fn section_write(existing: &Vec<String>, section: &ProductMap, priced: bool) -> (r: SectionWrite)
    ensures
        r@ == section_write_of(strings_view(existing@), section@, priced),
{
    let ghost ex = strings_view(existing@);
    let mut stale: Vec<String> = Vec::new();
    let mut i: usize = 0;
    while i < existing.len()
        invariant
            0 <= i <= existing@.len(),
            ex == strings_view(existing@),
            strings_view(stale@) == stale_keys(ex, section@, i as nat),
        decreases existing@.len() - i,
    {
        assert(ex[i as int] == existing@[i as int]@);
        if !section.contains_key(existing[i].as_str()) {
            let ghost before = strings_view(stale@);
            stale.push(existing[i].clone());
            assert(strings_view(stale@) =~= before.push(ex[i as int]));
        }
        i += 1;
    }
    let mut entries: Vec<(String, Vec<(String, FieldValue)>)> = Vec::new();
    let mut j: usize = 0;
    while j < section.len()
        invariant
            0 <= j <= section@.len(),
            entries@.map_values(|e: (String, Vec<(String, FieldValue)>)| (e.0@, fields_v(e.1@)))
                == section_tables_of(section@, priced).take(j as int),
        decreases section@.len() - j,
    {
        let ghost before = entries@.map_values(
            |e: (String, Vec<(String, FieldValue)>)| (e.0@, fields_v(e.1@)),
        );
        let k = section.key_at(j).clone();
        let f = product_fields(section.value_at(j), priced);
        entries.push((k, f));
        assert(entries@.map_values(|e: (String, Vec<(String, FieldValue)>)| (e.0@, fields_v(e.1@)))
            =~= before.push((section@[j as int].0, product_fields_of(section@[j as int].1, priced))));
        j += 1;
        assert(section_tables_of(section@, priced).take(j as int) =~= section_tables_of(section@, priced).take(
            j - 1,
        ).push((section@[j - 1].0, product_fields_of(section@[j - 1].1, priced))));
    }
    assert(section_tables_of(section@, priced).take(section@.len() as int) =~= section_tables_of(section@, priced));
    SectionWrite { stale, entries }
}

/// Everything a save changes in the document: the `[metadata]` edits,
/// the three section tables, and the retired top-level tables dropped.
#[derive(Debug)]
pub struct SavePlan {
    pub metadata: Vec<MetaEdit>,
    pub passes: SectionWrite,
    pub products: SectionWrite,
    pub badges: SectionWrite,
    pub dropped_tables: Vec<String>,
}

/// The retired top-level tables a save removes.
pub open spec fn retired_tables() -> Seq<Seq<char>> {
    seq!["subscriptions"@, "gamepasses"@]
}

/// The plan of a save of `v` into a document whose section tables hold
/// the keys `passes`, `products` and `badges`.
pub fn save_plan(v: &VCSProducts, passes: &Vec<String>, products: &Vec<String>, badges: &Vec<String>) -> (r: SavePlan)
    ensures
        edits_v(r.metadata@) == metadata_edits_of(v.metadata),
        r.passes@ == section_write_of(strings_view(passes@), v.passes@, true),
        r.products@ == section_write_of(strings_view(products@), v.products@, true),
        r.badges@ == section_write_of(strings_view(badges@), v.badges@, false),
        strings_view(r.dropped_tables@) == retired_tables(),
{
    let mut dropped: Vec<String> = Vec::new();
    dropped.push(to_owned_string("subscriptions"));
    dropped.push(to_owned_string("gamepasses"));
    assert(strings_view(dropped@) =~= retired_tables());
    SavePlan {
        metadata: metadata_edits(&v.metadata),
        passes: section_write(passes, &v.passes, true),
        products: section_write(products, &v.products, true),
        badges: section_write(badges, &v.badges, false),
        dropped_tables: dropped,
    }
}

// ---------------------------------------------------------------------------
// The document
// ---------------------------------------------------------------------------
#[verifier::external_type_specification]
#[verifier::external_body]
pub struct ExDocumentMut(toml_edit::DocumentMut);

#[verifier::external_type_specification]
#[verifier::external_body]
pub struct ExTable(toml_edit::Table);

/// What an item of a TOML table holds, as far as the products file is
/// read: an integer, a string, a boolean, an array of strings, a table
/// (`Item::Table`); everything else (floats, dates, other arrays, inline
/// tables, arrays of tables) is `Other`.
pub enum TomlV {
    Int(i64),
    Str(Seq<char>),
    Bool(bool),
    StrArray(Seq<Seq<char>>),
    Table(Map<Seq<char>, TomlV>),
    Other,
}

/// The item a written field holds.
pub open spec fn field_item(v: FieldValueV) -> TomlV {
    match v {
        FieldValueV::Int(i) => TomlV::Int(i),
        FieldValueV::Str(s) => TomlV::Str(s),
        FieldValueV::Bool(b) => TomlV::Bool(b),
    }
}

/// The items of a table whose fields are written one after the other (a
/// later write of a key replaces an earlier one).
pub open spec fn fields_map(fs: Seq<(Seq<char>, FieldValueV)>) -> Map<Seq<char>, TomlV>
    decreases fs.len(),
{
    if fs.len() == 0 {
        Map::empty()
    } else {
        fields_map(fs.drop_last()).insert(fs.last().0, field_item(fs.last().1))
    }
}

/// Whether `DocumentMut::from_str` accepts the text.
pub uninterp spec fn toml_parses(text: Seq<char>) -> bool;

/// The items of the root table of the document that `DocumentMut::from_str`
/// reads from the text.
pub uninterp spec fn parsed_items(text: Seq<char>) -> Map<Seq<char>, TomlV>;

/// The items of a table, by key: the keys that `Table::iter` visits and
/// `Table::get` finds, with what each holds.
pub uninterp spec fn table_items(t: toml_edit::Table) -> Map<Seq<char>, TomlV>;

/// The items of the document's root table, by key.
pub uninterp spec fn doc_items(d: toml_edit::DocumentMut) -> Map<Seq<char>, TomlV>;

/// The text `Display for DocumentMut` writes.
pub uninterp spec fn document_display(d: toml_edit::DocumentMut) -> Seq<char>;

/// `text.parse::<toml_edit::DocumentMut>()`, the parse error as text; it
/// succeeds exactly when the text parses, and the document holds what the
/// text says.
#[verifier::external_body]
fn parse_document(text: &str) -> (r: Result<toml_edit::DocumentMut, String>)
    ensures
        r is Ok <==> toml_parses(text@),
        r matches Ok(d) ==> doc_items(d) == parsed_items(text@),
{
    text.parse::<toml_edit::DocumentMut>().map_err(|e| e.to_string())
}

/// `DocumentMut::new()`: an empty document.
#[verifier::external_body]
fn empty_document() -> (r: toml_edit::DocumentMut)
    ensures
        doc_items(r).dom() == Set::<Seq<char>>::empty(),
{
    toml_edit::DocumentMut::new()
}

/// The keys of the document's root table (`DocumentMut::iter`): each key
/// that holds an item.
#[verifier::external_body]
fn root_keys(doc: &toml_edit::DocumentMut) -> (r: Vec<String>)
    ensures
        strings_view(r@).to_set() == doc_items(*doc).dom(),
{
    doc.iter().map(|(k, _)| k.to_string()).collect()
}

/// A copy of the root entry `name` when it is a table (`Table::get`,
/// then `Item::as_table`).
#[verifier::external_body]
fn root_table(doc: &toml_edit::DocumentMut, name: &str) -> (r: Option<toml_edit::Table>)
    ensures
        match r {
            Some(t) => doc_items(*doc).contains_key(name@) && doc_items(*doc)[name@] == TomlV::Table(
                table_items(t),
            ),
            None => !(doc_items(*doc).contains_key(name@) && doc_items(*doc)[name@] is Table),
        },
{
    doc.get(name).and_then(|i| i.as_table()).cloned()
}

/// The keys of a table (`Table::iter`): each key that holds an item,
/// once.
#[verifier::external_body]
fn table_keys(t: &toml_edit::Table) -> (r: Vec<String>)
    ensures
        strings_view(r@).to_set() == table_items(*t).dom(),
{
    t.iter().map(|(k, _)| k.to_string()).collect()
}

/// `Table::new()`: a table without keys.
#[verifier::external_body]
fn new_table() -> (r: toml_edit::Table)
    ensures
        table_items(r).dom() == Set::<Seq<char>>::empty(),
{
    toml_edit::Table::new()
}

/// `Table::remove(key)`: the key no longer holds an item, the others are
/// kept.
#[verifier::external_body]
fn table_remove(t: &mut toml_edit::Table, key: &str)
    ensures
        table_items(*final(t)) == table_items(*old(t)).remove(key@),
{
    t.remove(key);
}

/// `t[key] = toml_edit::value(v)`: the key holds the value, the other keys
/// are kept.
#[verifier::external_body]
fn table_put_value(t: &mut toml_edit::Table, key: &str, v: &FieldValue)
    ensures
        table_items(*final(t)) == table_items(*old(t)).insert(key@, field_item(v@)),
{
    t[key] = match v {
        FieldValue::Int(i) => toml_edit::value(*i),
        FieldValue::Str(s) => toml_edit::value(s.as_str()),
        FieldValue::Bool(b) => toml_edit::value(*b),
    };
}

/// `t[key] = toml_edit::value(Array::from_iter(list))`: the key holds the
/// array of strings, the other keys are kept.
#[verifier::external_body]
fn table_put_strings(t: &mut toml_edit::Table, key: &str, list: &Vec<String>)
    ensures
        table_items(*final(t)) == table_items(*old(t)).insert(key@, TomlV::StrArray(strings_view(list@))),
{
    t[key] = toml_edit::value(toml_edit::Array::from_iter(list.iter()));
}

/// `t[key] = Item::Table(sub)`: the key holds the table, the other keys
/// are kept.
#[verifier::external_body]
fn table_put_table(t: &mut toml_edit::Table, key: &str, sub: toml_edit::Table)
    ensures
        table_items(*final(t)) == table_items(*old(t)).insert(key@, TomlV::Table(table_items(sub))),
{
    t[key] = toml_edit::Item::Table(sub);
}

/// Removes a root entry (`Table::remove` on the root): the others are
/// kept.
#[verifier::external_body]
fn document_remove(doc: &mut toml_edit::DocumentMut, name: &str)
    ensures
        doc_items(*final(doc)) == doc_items(*old(doc)).remove(name@),
{
    doc.remove(name);
}

/// `doc[name] = Item::Table(t)`: the root entry holds the table, the
/// others are kept.
#[verifier::external_body]
fn document_put_table(doc: &mut toml_edit::DocumentMut, name: &str, t: toml_edit::Table)
    ensures
        doc_items(*final(doc)) == doc_items(*old(doc)).insert(name@, TomlV::Table(table_items(t))),
{
    doc[name] = toml_edit::Item::Table(t);
}

/// The document's text (`Display for DocumentMut`).
#[verifier::external_body]
fn document_text(doc: &toml_edit::DocumentMut) -> (r: String)
    ensures
        r@ == document_display(*doc),
{
    doc.to_string()
}

/// The items of a table after the written entries: each entry's key
/// holds the table of its fields, a later entry replacing an earlier one.
pub open spec fn entries_items(
    base: Map<Seq<char>, TomlV>,
    es: Seq<(Seq<char>, Seq<(Seq<char>, FieldValueV)>)>,
) -> Map<Seq<char>, TomlV>
    decreases es.len(),
{
    if es.len() == 0 {
        base
    } else {
        entries_items(base, es.drop_last()).insert(es.last().0, TomlV::Table(fields_map(es.last().1)))
    }
}

/// What a section table holds after a write: the stale keys removed, then
/// every entry written.
pub open spec fn written_section(before: Map<Seq<char>, TomlV>, w: SectionWriteV) -> Map<Seq<char>, TomlV> {
    entries_items(before.remove_keys(w.stale.to_set()), w.entries)
}

/// Applies the edits of one section to its table: the stale keys removed,
/// then every entry written as a table of its fields.
pub fn apply_section_write(table: &mut toml_edit::Table, w: &SectionWrite)
    ensures
        table_items(*final(table)) == written_section(table_items(*old(table)), w@),
{
    let ghost m0 = table_items(*table);
    let ghost stale = w@.stale;
    let mut i: usize = 0;
    while i < w.stale.len()
        invariant
            0 <= i <= w.stale@.len(),
            stale == strings_view(w.stale@),
            table_items(*table) == m0.remove_keys(stale.take(i as int).to_set()),
        decreases w.stale@.len() - i,
    {
        table_remove(table, w.stale[i].as_str());
        proof {
            assert(stale[i as int] == w.stale@[i as int]@);
            assert(stale.take(i + 1) =~= stale.take(i as int).push(stale[i as int]));
            stale.take(i as int).lemma_push_to_set_commute(stale[i as int]);
            assert(table_items(*table) =~= m0.remove_keys(stale.take(i + 1).to_set()));
        }
        i += 1;
    }
    assert(stale.take(stale.len() as int) =~= stale);
    let ghost m1 = table_items(*table);
    let ghost es = w@.entries;
    let mut j: usize = 0;
    while j < w.entries.len()
        invariant
            0 <= j <= w.entries@.len(),
            es == w@.entries,
            es.len() == w.entries@.len(),
            table_items(*table) == entries_items(m1, es.take(j as int)),
        decreases w.entries@.len() - j,
    {
        let mut sub = new_table();
        let fields = &w.entries[j].1;
        let ghost fv = fields_v(fields@);
        assert(es[j as int] == (w.entries@[j as int].0@, fv));
        let mut f: usize = 0;
        assert(fv.take(0) =~= Seq::<(Seq<char>, FieldValueV)>::empty());
        while f < fields.len()
            invariant
                0 <= f <= fields@.len(),
                fv == fields_v(fields@),
                table_items(sub) == fields_map(fv.take(f as int)),
            decreases fields@.len() - f,
        {
            table_put_value(&mut sub, fields[f].0.as_str(), &fields[f].1);
            proof {
                assert(fv.take(f + 1).drop_last() =~= fv.take(f as int));
                assert(fv.take(f + 1).last() == fv[f as int]);
            }
            f += 1;
        }
        assert(fv.take(fv.len() as int) =~= fv);
        table_put_table(table, w.entries[j].0.as_str(), sub);
        proof {
            assert(es.take(j + 1).drop_last() =~= es.take(j as int));
            assert(es.take(j + 1).last() == es[j as int]);
        }
        j += 1;
    }
    assert(es.take(es.len() as int) =~= es);
}

pub open spec fn read_str(m: Map<Seq<char>, TomlV>, k: Seq<char>) -> Option<Seq<char>> {
    if m.contains_key(k) {
        match m[k] {
            TomlV::Str(s) => Some(s),
            _ => None,
        }
    } else {
        None
    }
}

pub open spec fn read_int(m: Map<Seq<char>, TomlV>, k: Seq<char>) -> Option<i64> {
    if m.contains_key(k) {
        match m[k] {
            TomlV::Int(i) => Some(i),
            _ => None,
        }
    } else {
        None
    }
}

pub open spec fn read_bool(m: Map<Seq<char>, TomlV>, k: Seq<char>) -> Option<bool> {
    if m.contains_key(k) {
        match m[k] {
            TomlV::Bool(b) => Some(b),
            _ => None,
        }
    } else {
        None
    }
}

/// A product as read back from its table: each field from its key, an
/// absent `price` as 0, an absent `active` as false; icon ids and hashes
/// are not kept in this file.
pub open spec fn read_product(m: Map<Seq<char>, TomlV>) -> ProductView {
    ProductView {
        id: match read_int(m, "id"@) {
            Some(i) => if i >= 0 {
                Some(i as u64)
            } else {
                None
            },
            None => None,
        },
        name: match read_str(m, "name"@) {
            Some(n) => n,
            None => Seq::empty(),
        },
        prefix: read_str(m, "prefix"@),
        description: read_str(m, "description"@),
        active: match read_bool(m, "active"@) {
            Some(b) => b,
            None => false,
        },
        discount: match read_int(m, "discount"@) {
            Some(d) => if 0 <= d <= 255 {
                Some(d as u8)
            } else {
                None
            },
            None => None,
        },
        price: match read_int(m, "price"@) {
            Some(x) => x,
            None => 0,
        },
        regional_pricing: read_bool(m, "regional_pricing"@),
        icon: read_str(m, "icon"@),
        icon_id: None,
        icon_hash: None,
        path: read_str(m, "path"@),
    }
}

/// What of a product the products file keeps: all but the icon ids and
/// hashes, and for a badge no price, discount or regional pricing.
pub open spec fn kept_in_file(p: ProductView, priced: bool) -> ProductView {
    if priced {
        ProductView { icon_id: None, icon_hash: None, ..p }
    } else {
        ProductView { icon_id: None, icon_hash: None, discount: None, price: 0, regional_pricing: None, ..p }
    }
}

pub open spec fn insert_opt(m: Map<Seq<char>, TomlV>, k: Seq<char>, o: Option<FieldValueV>) -> Map<Seq<char>, TomlV> {
    match o {
        Some(v) => m.insert(k, field_item(v)),
        None => m,
    }
}

proof fn lemma_fields_map_push_opt(a: Seq<(Seq<char>, FieldValueV)>, k: Seq<char>, o: Option<FieldValueV>)
    ensures
        fields_map(a + opt_field(k, o)) == insert_opt(fields_map(a), k, o),
{
    match o {
        Some(v) => {
            assert(a + opt_field(k, o) =~= a.push((k, v)));
            assert((a.push((k, v))).drop_last() =~= a);
        },
        None => {
            assert(a + opt_field(k, o) =~= a);
        },
    }
}

pub open spec fn id_field(p: ProductView) -> Option<FieldValueV> {
    match p.id {
        Some(i) => Some(FieldValueV::Int(wrap_i64(i))),
        None => None,
    }
}

pub open spec fn discount_field(p: ProductView) -> Option<FieldValueV> {
    match p.discount {
        Some(d) => Some(FieldValueV::Int(d as i64)),
        None => None,
    }
}

pub open spec fn regional_field(p: ProductView) -> Option<FieldValueV> {
    match p.regional_pricing {
        Some(b) => Some(FieldValueV::Bool(b)),
        None => None,
    }
}

/// The items of a product's table, key by key.
proof fn lemma_product_items(p: ProductView, priced: bool) -> (m: Map<Seq<char>, TomlV>)
    ensures
        m == fields_map(product_fields_of(p, priced)),
        m == {
            let m5 = insert_opt(
                insert_opt(
                    insert_opt(
                        insert_opt(insert_opt(Map::empty(), "id"@, id_field(p)), "prefix"@, str_field(p.prefix)),
                        "name"@,
                        Some(FieldValueV::Str(p.name)),
                    ),
                    "description"@,
                    str_field(p.description),
                ),
                "active"@,
                Some(FieldValueV::Bool(p.active)),
            );
            let m8 = if priced {
                insert_opt(
                    insert_opt(insert_opt(m5, "discount"@, discount_field(p)), "price"@, Some(FieldValueV::Int(p.price))),
                    "regional_pricing"@,
                    regional_field(p),
                )
            } else {
                m5
            };
            insert_opt(insert_opt(m8, "icon"@, str_field(p.icon)), "path"@, str_field(p.path))
        },
{
    let e = Seq::<(Seq<char>, FieldValueV)>::empty();
    let s1 = e + opt_field("id"@, id_field(p));
    let s2 = s1 + opt_field("prefix"@, str_field(p.prefix));
    let s3 = s2 + opt_field("name"@, Some(FieldValueV::Str(p.name)));
    let s4 = s3 + opt_field("description"@, str_field(p.description));
    let s5 = s4 + opt_field("active"@, Some(FieldValueV::Bool(p.active)));
    lemma_fields_map_push_opt(e, "id"@, id_field(p));
    lemma_fields_map_push_opt(s1, "prefix"@, str_field(p.prefix));
    lemma_fields_map_push_opt(s2, "name"@, Some(FieldValueV::Str(p.name)));
    lemma_fields_map_push_opt(s3, "description"@, str_field(p.description));
    lemma_fields_map_push_opt(s4, "active"@, Some(FieldValueV::Bool(p.active)));
    let s8 = if priced {
        let s6 = s5 + opt_field("discount"@, discount_field(p));
        let s7 = s6 + opt_field("price"@, Some(FieldValueV::Int(p.price)));
        lemma_fields_map_push_opt(s5, "discount"@, discount_field(p));
        lemma_fields_map_push_opt(s6, "price"@, Some(FieldValueV::Int(p.price)));
        lemma_fields_map_push_opt(s7, "regional_pricing"@, regional_field(p));
        s7 + opt_field("regional_pricing"@, regional_field(p))
    } else {
        s5
    };
    let s9 = s8 + opt_field("icon"@, str_field(p.icon));
    lemma_fields_map_push_opt(s8, "icon"@, str_field(p.icon));
    lemma_fields_map_push_opt(s9, "path"@, str_field(p.path));
    let all = s9 + opt_field("path"@, str_field(p.path));
    assert(all =~= product_fields_of(p, priced));
    fields_map(all)
}

/// A saved product reads back as itself, as far as the file keeps it (its
/// id at most `i64::MAX`, as the file's integers are).
pub proof fn lemma_saved_product_reads_back(p: ProductView, priced: bool)
    requires
        p.id matches Some(i) ==> i <= 0x7fff_ffff_ffff_ffff,
    ensures
        read_product(fields_map(product_fields_of(p, priced))) == kept_in_file(p, priced),
{
    let m = lemma_product_items(p, priced);
    reveal_strlit("id");
    reveal_strlit("prefix");
    reveal_strlit("name");
    reveal_strlit("description");
    reveal_strlit("active");
    reveal_strlit("discount");
    reveal_strlit("price");
    reveal_strlit("regional_pricing");
    reveal_strlit("icon");
    reveal_strlit("path");
    assert("id"@.len() == 2 && "name"@.len() == 4 && "icon"@.len() == 4 && "path"@.len() == 4);
    assert("prefix"@.len() == 6 && "active"@.len() == 6 && "price"@.len() == 5);
    assert("description"@.len() == 11 && "discount"@.len() == 8 && "regional_pricing"@.len() == 16);
    assert("name"@[0] != "icon"@[0] && "name"@[0] != "path"@[0] && "icon"@[0] != "path"@[0]);
    assert("prefix"@[0] != "active"@[0]);
    let r = read_product(m);
    let k = kept_in_file(p, priced);
    assert(r =~= k);
}

/// What a section table holds after a save: each slug of the section
/// holds the table of its product's fields, and nothing else is there.
pub open spec fn section_items(s: Seq<(Seq<char>, ProductView)>, priced: bool) -> Map<Seq<char>, TomlV> {
    Map::new(
        |k: Seq<char>| pm_get(s, k) is Some,
        |k: Seq<char>| TomlV::Table(fields_map(product_fields_of(pm_get(s, k)->0, priced))),
    )
}

proof fn lemma_entries_items_at(
    base: Map<Seq<char>, TomlV>,
    s: Seq<(Seq<char>, ProductView)>,
    priced: bool,
    n: int,
    k: Seq<char>,
)
    requires
        0 <= n <= s.len(),
        unique_keys(s),
    ensures
        ({
            let m = entries_items(base, section_tables_of(s, priced).take(n));
            let i = key_pos(s, k);
            &&& 0 <= i < n ==> m.contains_key(k) && m[k] == TomlV::Table(fields_map(product_fields_of(s[i].1, priced)))
            &&& !(0 <= i < n) ==> (m.contains_key(k) == base.contains_key(k) && (base.contains_key(k) ==> m[k] == base[k]))
        }),
    decreases n,
{
    lemma_key_pos(s, k);
    let t = section_tables_of(s, priced);
    if n > 0 {
        lemma_entries_items_at(base, s, priced, n - 1, k);
        assert(t.take(n).drop_last() =~= t.take(n - 1));
        assert(t.take(n).last() == (s[n - 1].0, product_fields_of(s[n - 1].1, priced)));
        if s[n - 1].0 == k {
            assert forall|j: int| 0 <= j < n - 1 implies #[trigger] s[j].0 != k by {
                assert(s[j].0 != s[n - 1].0);
            }
            assert(key_pos(s, k) == n - 1);
        }
    } else {
        assert(t.take(0) =~= Seq::<(Seq<char>, Seq<(Seq<char>, FieldValueV)>)>::empty());
    }
}

/// A save leaves in a section table exactly the section's slugs, each
/// holding the fields of its product, whatever the table held before.
pub proof fn lemma_written_section(
    before: Map<Seq<char>, TomlV>,
    existing: Seq<Seq<char>>,
    s: Seq<(Seq<char>, ProductView)>,
    priced: bool,
)
    requires
        before.dom() == existing.to_set(),
        unique_keys(s),
    ensures
        written_section(before, section_write_of(existing, s, priced)) == section_items(s, priced),
{
    let w = section_write_of(existing, s, priced);
    let base = before.remove_keys(w.stale.to_set());
    let m = written_section(before, w);
    assert(section_tables_of(s, priced).take(s.len() as int) =~= section_tables_of(s, priced));
    assert forall|k: Seq<char>| #[trigger] m.contains_key(k) <==> section_items(s, priced).contains_key(k) by {
        lemma_entries_items_at(base, s, priced, s.len() as int, k);
        lemma_key_pos(s, k);
        lemma_stale_keys_exact(existing, s, k);
    }
    assert forall|k: Seq<char>| #[trigger] section_items(s, priced).contains_key(k) implies m[k] == section_items(
        s,
        priced,
    )[k] by {
        lemma_entries_items_at(base, s, priced, s.len() as int, k);
        lemma_key_pos(s, k);
    }
    assert(m =~= section_items(s, priced));
}

/// One `[metadata]` edit applied to the table's items.
pub open spec fn edit_applied(m: Map<Seq<char>, TomlV>, e: MetaEditV) -> Map<Seq<char>, TomlV> {
    match e {
        MetaEditV::Put(k, v) => m.insert(k, field_item(v)),
        MetaEditV::SetList(k, l) => m.insert(k, TomlV::StrArray(l)),
        MetaEditV::Remove(k) => m.remove(k),
    }
}

/// The edits applied in order.
pub open spec fn edits_applied(m: Map<Seq<char>, TomlV>, es: Seq<MetaEditV>) -> Map<Seq<char>, TomlV>
    decreases es.len(),
{
    if es.len() == 0 {
        m
    } else {
        edit_applied(edits_applied(m, es.drop_last()), es.last())
    }
}

/// The items of the root entry `name` when it is a table, else none.
pub open spec fn table_or_empty(items: Map<Seq<char>, TomlV>, name: Seq<char>) -> Map<Seq<char>, TomlV> {
    if items.contains_key(name) {
        match items[name] {
            TomlV::Table(m) => m,
            _ => Map::empty(),
        }
    } else {
        Map::empty()
    }
}

/// The root items of the document after saving `v` into a document that
/// held `before`: the retired tables dropped, `[metadata]` edited, and the
/// three section tables holding exactly the sections; every other root
/// entry kept as it was.
pub open spec fn saved_items(before: Map<Seq<char>, TomlV>, v: VCSProducts) -> Map<Seq<char>, TomlV> {
    before.remove_keys(retired_tables().to_set()).insert(
        "metadata"@,
        TomlV::Table(edits_applied(table_or_empty(before, "metadata"@), metadata_edits_of(v.metadata))),
    ).insert("passes"@, TomlV::Table(section_items(v.passes@, true))).insert(
        "products"@,
        TomlV::Table(section_items(v.products@, true)),
    ).insert("badges"@, TomlV::Table(section_items(v.badges@, false)))
}

/// The product read back from the entry `k` of the root table `name`.
pub open spec fn read_entry(items: Map<Seq<char>, TomlV>, name: Seq<char>, k: Seq<char>) -> Option<ProductView> {
    let t = table_or_empty(items, name);
    if t.contains_key(k) {
        match t[k] {
            TomlV::Table(m) => Some(read_product(m)),
            _ => None,
        }
    } else {
        None
    }
}

pub open spec fn kept_entry(s: Seq<(Seq<char>, ProductView)>, k: Seq<char>, priced: bool) -> Option<ProductView> {
    match pm_get(s, k) {
        Some(p) => Some(kept_in_file(p, priced)),
        None => None,
    }
}

pub open spec fn ids_fit(s: Seq<(Seq<char>, ProductView)>) -> bool {
    forall|i: int| 0 <= i < s.len() ==> ((#[trigger] s[i]).1.id matches Some(x) ==> x <= 0x7fff_ffff_ffff_ffff)
}

proof fn lemma_read_saved_section(s: Seq<(Seq<char>, ProductView)>, priced: bool, items: Map<Seq<char>, TomlV>, name: Seq<char>, k: Seq<char>)
    requires
        ids_fit(s),
        items.contains_key(name),
        items[name] == TomlV::Table(section_items(s, priced)),
    ensures
        read_entry(items, name, k) == kept_entry(s, k, priced),
{
    lemma_key_pos(s, k);
    if pm_get(s, k) is Some {
        let p = pm_get(s, k)->0;
        assert(s[key_pos(s, k)].1 == p);
        lemma_saved_product_reads_back(p, priced);
    }
}

/// A save followed by a read gives back the sections: each slug of each
/// section reads back as its product, as far as the file keeps it (see
/// `kept_in_file`), and no other slug is there; the products' ids at most
/// `i64::MAX`, as the file's integers are.
pub proof fn lemma_save_then_read(before: Map<Seq<char>, TomlV>, v: VCSProducts, k: Seq<char>)
    requires
        ids_fit(v.passes@),
        ids_fit(v.products@),
        ids_fit(v.badges@),
    ensures
        read_entry(saved_items(before, v), "passes"@, k) == kept_entry(v.passes@, k, true),
        read_entry(saved_items(before, v), "products"@, k) == kept_entry(v.products@, k, true),
        read_entry(saved_items(before, v), "badges"@, k) == kept_entry(v.badges@, k, false),
{
    let items = saved_items(before, v);
    reveal_strlit("passes");
    reveal_strlit("products");
    reveal_strlit("badges");
    assert("passes"@.len() == 6 && "products"@.len() == 8 && "badges"@.len() == 6);
    assert("passes"@[0] != "badges"@[0]);
    lemma_read_saved_section(v.passes@, true, items, "passes"@, k);
    lemma_read_saved_section(v.products@, true, items, "products"@, k);
    lemma_read_saved_section(v.badges@, false, items, "badges"@, k);
}

/// What the document held before a save: what the existing text says, or
/// nothing when there is no file.
pub open spec fn existing_items(existing: Option<&str>) -> Map<Seq<char>, TomlV> {
    match existing {
        Some(t) => parsed_items(t@),
        None => Map::empty(),
    }
}

fn section_table(doc: &toml_edit::DocumentMut, name: &str) -> (r: toml_edit::Table)
    ensures
        table_items(r) == table_or_empty(doc_items(*doc), name@),
{
    match root_table(doc, name) {
        Some(t) => t,
        None => new_table(),
    }
}

/// The text of `rbxmonet.toml` after saving `v` into `existing` (a new
/// document when there is none): the display of a document holding
/// `saved_items` of what was there. An error when the existing text does
/// not parse.
pub fn save_document(existing: Option<&str>, v: &VCSProducts) -> (r: Result<String, String>)
    ensures
        r is Err <==> (existing matches Some(t) && !toml_parses(t@)),
        r matches Ok(text) ==> exists|d: toml_edit::DocumentMut|
            text@ == #[trigger] document_display(d) && doc_items(d) == saved_items(existing_items(existing), *v),
{
    let mut doc = match existing {
        Some(text) => match parse_document(text) {
            Ok(d) => d,
            Err(e) => {
                return Err(e);
            },
        },
        None => empty_document(),
    };
    let ghost before = doc_items(doc);
    assert(before == existing_items(existing));
    let mut metadata = section_table(&doc, "metadata");
    let mut passes = section_table(&doc, "passes");
    let mut products = section_table(&doc, "products");
    let mut badges = section_table(&doc, "badges");
    let pk = table_keys(&passes);
    let dk = table_keys(&products);
    let bk = table_keys(&badges);
    let plan = save_plan(v, &pk, &dk, &bk);
    let ghost meta0 = table_items(metadata);
    let ghost edits = edits_v(plan.metadata@);
    let mut i: usize = 0;
    while i < plan.metadata.len()
        invariant
            0 <= i <= plan.metadata@.len(),
            edits == edits_v(plan.metadata@),
            table_items(metadata) == edits_applied(meta0, edits.take(i as int)),
        decreases plan.metadata@.len() - i,
    {
        match &plan.metadata[i] {
            MetaEdit::Put(k, value) => table_put_value(&mut metadata, k.as_str(), value),
            MetaEdit::SetList(k, list) => table_put_strings(&mut metadata, k.as_str(), list),
            MetaEdit::Remove(k) => table_remove(&mut metadata, k.as_str()),
        }
        proof {
            assert(edits.take(i + 1).drop_last() =~= edits.take(i as int));
            assert(edits.take(i + 1).last() == plan.metadata@[i as int]@);
        }
        i += 1;
    }
    assert(edits.take(edits.len() as int) =~= edits);
    let ghost p0 = table_items(passes);
    let ghost d0 = table_items(products);
    let ghost b0 = table_items(badges);
    apply_section_write(&mut passes, &plan.passes);
    apply_section_write(&mut products, &plan.products);
    apply_section_write(&mut badges, &plan.badges);
    v.passes.unique();
    v.products.unique();
    v.badges.unique();
    proof {
        lemma_written_section(p0, strings_view(pk@), v.passes@, true);
        lemma_written_section(d0, strings_view(dk@), v.products@, true);
        lemma_written_section(b0, strings_view(bk@), v.badges@, false);
    }
    let ghost names = strings_view(plan.dropped_tables@);
    let mut d: usize = 0;
    while d < plan.dropped_tables.len()
        invariant
            0 <= d <= plan.dropped_tables@.len(),
            names == strings_view(plan.dropped_tables@),
            doc_items(doc) == before.remove_keys(names.take(d as int).to_set()),
        decreases plan.dropped_tables@.len() - d,
    {
        document_remove(&mut doc, plan.dropped_tables[d].as_str());
        proof {
            assert(names[d as int] == plan.dropped_tables@[d as int]@);
            assert(names.take(d + 1) =~= names.take(d as int).push(names[d as int]));
            names.take(d as int).lemma_push_to_set_commute(names[d as int]);
            assert(doc_items(doc) =~= before.remove_keys(names.take(d + 1).to_set()));
        }
        d += 1;
    }
    assert(names.take(names.len() as int) =~= names);
    document_put_table(&mut doc, "metadata", metadata);
    document_put_table(&mut doc, "passes", passes);
    document_put_table(&mut doc, "products", products);
    document_put_table(&mut doc, "badges", badges);
    let text = document_text(&doc);
    assert(doc_items(doc) =~= saved_items(existing_items(existing), *v));
    Ok(text)
}

// ---------------------------------------------------------------------------
// Loading
// ---------------------------------------------------------------------------
pub open spec fn legacy_luau_file_text() -> Seq<char> {
    "[metadata] luau-file is no longer supported \u{2014} move to [codegen] output (rbxmonet >= 0.1.21)"@
}

pub open spec fn legacy_gamepasses_text() -> Seq<char> {
    "[gamepasses.*] is no longer supported \u{2014} rename to [passes.*] (rbxmonet >= 0.1.24)"@
}

/// The error for a file laid out the old way: a `luau-file` key in the
/// `[metadata]` table, or a top-level `gamepasses` key.
pub open spec fn legacy_layout_of(top_keys: Seq<Seq<char>>, metadata_keys: Seq<Seq<char>>) -> Option<Seq<char>> {
    if metadata_keys.contains("luau-file"@) {
        Some(legacy_luau_file_text())
    } else if top_keys.contains("gamepasses"@) {
        Some(legacy_gamepasses_text())
    } else {
        None
    }
}

fn contains_str(keys: &Vec<String>, k: &str) -> (r: bool)
    ensures
        r == strings_view(keys@).contains(k@),
{
    let ghost sv = strings_view(keys@);
    let mut i: usize = 0;
    while i < keys.len()
        invariant
            0 <= i <= keys@.len(),
            sv == strings_view(keys@),
            forall|j: int| 0 <= j < i ==> sv[j] != k@,
        decreases keys@.len() - i,
    {
        if crate::text::str_eq(keys[i].as_str(), k) {
            assert(sv[i as int] == k@);
            return true;
        }
        i += 1;
    }
    false
}

/// Checks the keys of the document (and of its `[metadata]` table, when
/// that is a table) for the retired layouts (see `legacy_layout_of`).
pub fn legacy_layout_error(top_keys: &Vec<String>, metadata_keys: &Vec<String>) -> (r: Option<String>)
    ensures
        ov(r) == legacy_layout_of(strings_view(top_keys@), strings_view(metadata_keys@)),
{
    if contains_str(metadata_keys, "luau-file") {
        return Some(to_owned_string("[metadata] luau-file is no longer supported \u{2014} move to [codegen] output (rbxmonet >= 0.1.21)"));
    }
    if contains_str(top_keys, "gamepasses") {
        return Some(to_owned_string("[gamepasses.*] is no longer supported \u{2014} rename to [passes.*] (rbxmonet >= 0.1.24)"));
    }
    None
}

/// The error for a document laid out the old way, from its root items: a
/// `luau-file` key in the `[metadata]` table, or a top-level `gamepasses`
/// key.
pub open spec fn legacy_layout_of_items(items: Map<Seq<char>, TomlV>) -> Option<Seq<char>> {
    if table_or_empty(items, "metadata"@).contains_key("luau-file"@) {
        Some(legacy_luau_file_text())
    } else if items.contains_key("gamepasses"@) {
        Some(legacy_gamepasses_text())
    } else {
        None
    }
}

/// The checks `rbxmonet.toml` passes before it is read: it parses, and it
/// is not laid out the old way (see `legacy_layout_of_items`); the error
/// is the parse error or the legacy layout's text.
pub fn check_products_text(text: &str) -> (r: Result<(), String>)
    ensures
        !toml_parses(text@) ==> r is Err,
        toml_parses(text@) ==> match legacy_layout_of_items(parsed_items(text@)) {
            Some(msg) => r matches Err(e) && e@ == msg,
            None => r is Ok,
        },
{
    let doc = match parse_document(text) {
        Ok(d) => d,
        Err(e) => {
            return Err(e);
        },
    };
    let top = root_keys(&doc);
    let metadata_keys = table_keys(&section_table(&doc, "metadata"));
    proof {
        reveal_strlit("luau-file");
        reveal_strlit("gamepasses");
        reveal_strlit("metadata");
        assert(strings_view(top@).contains("gamepasses"@) == strings_view(top@).to_set().contains(
            "gamepasses"@,
        ));
        assert(strings_view(metadata_keys@).contains("luau-file"@) == strings_view(
            metadata_keys@,
        ).to_set().contains("luau-file"@));
    }
    match legacy_layout_error(&top, &metadata_keys) {
        Some(msg) => Err(msg),
        None => Ok(()),
    }
}

/// The sections as loaded: every slug written with `-` moved to its
/// snake_case form (see `normalized`).
pub fn normalize_sections(v: &mut VCSProducts)
    ensures
        final(v).passes@ == normalized(old(v).passes@),
        final(v).products@ == normalized(old(v).products@),
        final(v).badges@ == normalized(old(v).badges@),
        final(v).metadata == old(v).metadata,
        final(v).codegen == old(v).codegen,
{
    normalize_slug_keys(&mut v.passes);
    normalize_slug_keys(&mut v.products);
    normalize_slug_keys(&mut v.badges);
}

// ---------------------------------------------------------------------------
// Settings from the environment
// ---------------------------------------------------------------------------
/// A setting that reads as "on": after trimming and ASCII lowercasing,
/// `1`, `true` or `yes`.
pub open spec fn truthy_text(v: Seq<char>) -> bool {
    let t = trim(v).map_values(|c: char| ascii_lower(c));
    t == "1"@ || t == "true"@ || t == "yes"@
}

fn same_lower(c: char, lower: char) -> (r: bool)
    requires
        'a' <= lower <= 'z' || '0' <= lower <= '9',
    ensures
        r == (ascii_lower(c) == lower),
{
    if c == lower {
        return true;
    }
    let n = c as u32;
    'A' <= c && c <= 'Z' && n + 32 == lower as u32
}

fn matches_lower(t: &Vec<char>, word: &str) -> (r: bool)
    requires
        forall|i: int| 0 <= i < word@.len() ==> ('a' <= #[trigger] word@[i] <= 'z' || '0' <= word@[i] <= '9'),
    ensures
        r == (t@.map_values(|c: char| ascii_lower(c)) == word@),
{
    let w = chars_of(word);
    if t.len() != w.len() {
        proof {
            assert(t@.map_values(|c: char| ascii_lower(c)).len() != word@.len());
        }
        return false;
    }
    let mut i: usize = 0;
    while i < t.len()
        invariant
            0 <= i <= t@.len(),
            t@.len() == w@.len(),
            w@ == word@,
            forall|j: int| 0 <= j < word@.len() ==> ('a' <= #[trigger] word@[j] <= 'z' || '0' <= word@[j] <= '9'),
            forall|j: int| 0 <= j < i ==> ascii_lower(#[trigger] t@[j]) == w@[j],
        decreases t@.len() - i,
    {
        if !same_lower(t[i], w[i]) {
            proof {
                assert(t@.map_values(|c: char| ascii_lower(c))[i as int] != word@[i as int]);
            }
            return false;
        }
        i += 1;
    }
    assert(t@.map_values(|c: char| ascii_lower(c)) =~= word@);
    true
}

/// Whether a setting's text reads as "on" (see `truthy_text`).
pub fn is_truthy(v: &str) -> (r: bool)
    ensures
        r == truthy_text(v@),
{
    let t = trim_chars(&chars_of(v));
    proof {
        reveal_strlit("1");
        reveal_strlit("true");
        reveal_strlit("yes");
    }
    matches_lower(&t, "1") || matches_lower(&t, "true") || matches_lower(&t, "yes")
}

/// `sync` skips the diff viewer when `--auto-confirm` is given, or else
/// when `RBXMONET_AUTO_CONFIRM` (its value, when set) reads as "on".
pub fn auto_confirm(flag: bool, env: Option<&str>) -> (r: bool)
    ensures
        r == (flag || (env matches Some(v) && truthy_text(v@))),
{
    if flag {
        return true;
    }
    match env {
        Some(v) => is_truthy(v),
        None => false,
    }
}

} // verus!
