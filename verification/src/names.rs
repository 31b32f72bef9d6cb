//! Slugs and display names: the canonical form of a remote name, the slug
//! derived from it, and the test for censored text.
use vstd::prelude::*;
use crate::text::{
    chars_of, is_alnum, is_ws, is_whitespace, char_is_alnum, lowercased, string_from_chars,
    to_lowercase, to_owned_string, trim, trim_chars, lemma_trim_keeps,
};

verus! {

// ---------------------------------------------------------------------------
// Slugs
// ---------------------------------------------------------------------------
pub open spec fn slug_keeps(c: char) -> bool {
    is_alnum(c) || is_ws(c)
}

/// `s` without the characters that are neither ASCII alphanumeric nor
/// whitespace.
pub open spec fn strip_symbols(s: Seq<char>) -> Seq<char>
    decreases s.len(),
{
    if s.len() == 0 {
        s
    } else if slug_keeps(s.last()) {
        strip_symbols(s.drop_last()).push(s.last())
    } else {
        strip_symbols(s.drop_last())
    }
}

pub open spec fn underscore_ws(c: char) -> char {
    if is_ws(c) {
        '_'
    } else {
        c
    }
}

/// A character a bare TOML key may hold, as derived slugs use them.
pub open spec fn bare_key_char(c: char) -> bool {
    is_alnum(c) || c == '_'
}

proof fn lemma_strip_symbols_keeps(s: Seq<char>)
    ensures
        forall|i: int| 0 <= i < strip_symbols(s).len() ==> slug_keeps(#[trigger] strip_symbols(s)[i]),
    decreases s.len(),
{
    if s.len() > 0 {
        let t = s.drop_last();
        lemma_strip_symbols_keeps(t);
        if slug_keeps(s.last()) {
            assert(strip_symbols(s) == strip_symbols(t).push(s.last()));
        } else {
            assert(strip_symbols(s) == strip_symbols(t));
        }
    }
}

/// A derived slug is a bare TOML key: nothing but ASCII letters, digits
/// and `_`, with no whitespace left in it.
pub proof fn lemma_slug_is_bare_key(lower: Seq<char>)
    ensures
        forall|i: int| 0 <= i < slug_of_lowercase(lower).len() ==> bare_key_char(
            #[trigger] slug_of_lowercase(lower)[i],
        ),
{
    let kept = strip_symbols(lower);
    lemma_strip_symbols_keeps(lower);
    let p = |c: char| slug_keeps(c);
    assert forall|i: int| 0 <= i < kept.len() implies p(#[trigger] kept[i]) by {}
    lemma_trim_keeps(kept, p);
    let t = trim(kept);
    assert forall|i: int| 0 <= i < t.len() implies bare_key_char(underscore_ws(#[trigger] t[i])) by {
        assert(p(t[i]));
    }
}

/// The slug of an already lowercased name: symbols dropped, surrounding
/// whitespace trimmed, inner whitespace turned into `_`.
pub open spec fn slug_of_lowercase(lower: Seq<char>) -> Seq<char> {
    trim(strip_symbols(lower)).map_values(|c: char| underscore_ws(c))
}

/// The slug `format_name` derives from a name.
pub open spec fn slug_of(name: Seq<char>) -> Seq<char> {
    slug_of_lowercase(lowercased(name))
}

/// The slug of a name that has already been lowercased.
pub fn slug_from_lowercase(lower: &str) -> (r: String)
    ensures
        r@ == slug_of_lowercase(lower@),
{
    let c = chars_of(lower);
    let mut kept: Vec<char> = Vec::new();
    let mut i: usize = 0;
    while i < c.len()
        invariant
            0 <= i <= c@.len(),
            kept@ == strip_symbols(c@.take(i as int)),
        decreases c@.len() - i,
    {
        let ch = c[i];
        proof {
            assert(c@.take(i + 1).drop_last() =~= c@.take(i as int));
            assert(c@.take(i + 1).last() == ch);
        }
        if char_is_alnum(ch) || is_whitespace(ch) {
            kept.push(ch);
        }
        i += 1;
    }
    assert(c@.take(c@.len() as int) =~= c@);
    let t = trim_chars(&kept);
    let mut out: Vec<char> = Vec::new();
    let mut j: usize = 0;
    while j < t.len()
        invariant
            0 <= j <= t@.len(),
            out@ == t@.take(j as int).map_values(|c: char| underscore_ws(c)),
        decreases t@.len() - j,
    {
        if is_whitespace(t[j]) {
            out.push('_');
        } else {
            out.push(t[j]);
        }
        j += 1;
        assert(out@ =~= t@.take(j as int).map_values(|c: char| underscore_ws(c)));
    }
    assert(t@.take(t@.len() as int) =~= t@);
    string_from_chars(&out)
}

/// A character of a derived slug: a lowercase ASCII letter, a digit, or
/// `_`.
pub open spec fn slug_char(c: char) -> bool {
    ('a' <= c && c <= 'z') || ('0' <= c && c <= '9') || c == '_'
}

proof fn lemma_strip_symbols_within(s: Seq<char>, q: spec_fn(char) -> bool)
    requires
        forall|i: int| 0 <= i < s.len() ==> q(#[trigger] s[i]),
    ensures
        forall|i: int| 0 <= i < strip_symbols(s).len() ==> q(#[trigger] strip_symbols(s)[i]),
    decreases s.len(),
{
    if s.len() > 0 {
        let t = s.drop_last();
        assert forall|i: int| 0 <= i < t.len() implies q(#[trigger] t[i]) by {
            assert(t[i] == s[i]);
        }
        lemma_strip_symbols_within(t, q);
        if slug_keeps(s.last()) {
            assert(strip_symbols(s) == strip_symbols(t).push(s.last()));
            assert(q(s[s.len() - 1]));
        } else {
            assert(strip_symbols(s) == strip_symbols(t));
        }
    }
}

/// The slug of a text without ASCII capitals holds nothing but lowercase
/// ASCII letters, digits and `_`.
pub proof fn lemma_slug_chars(lower: Seq<char>)
    requires
        forall|i: int| 0 <= i < lower.len() ==> !('A' <= #[trigger] lower[i] && lower[i] <= 'Z'),
    ensures
        forall|i: int| 0 <= i < slug_of_lowercase(lower).len() ==> slug_char(#[trigger] slug_of_lowercase(lower)[i]),
{
    let q = |c: char| !('A' <= c && c <= 'Z');
    assert forall|i: int| 0 <= i < lower.len() implies q(#[trigger] lower[i]) by {}
    lemma_strip_symbols_within(lower, q);
    lemma_strip_symbols_keeps(lower);
    let kept = strip_symbols(lower);
    let p = |c: char| slug_keeps(c) && !('A' <= c && c <= 'Z');
    assert forall|i: int| 0 <= i < kept.len() implies p(#[trigger] kept[i]) by {
        assert(q(kept[i]));
    }
    lemma_trim_keeps(kept, p);
    let t = trim(kept);
    assert forall|i: int| 0 <= i < t.len() implies slug_char(underscore_ws(#[trigger] t[i])) by {
        assert(p(t[i]));
    }
}

/// The slug of a remote name: lowercased, then `slug_from_lowercase`; it
/// holds nothing but lowercase ASCII letters, digits and `_`.
pub fn format_name(name: &str) -> (r: String)
    ensures
        r@ == slug_of(name@),
        forall|i: int| 0 <= i < r@.len() ==> slug_char(#[trigger] r@[i]),
{
    let lower = to_lowercase(name);
    proof {
        lemma_slug_chars(lower@);
    }
    slug_from_lowercase(lower.as_str())
}

/// Text that Roblox has censored: nothing but `#` and whitespace.
pub open spec fn censored(s: Seq<char>) -> bool {
    forall|i: int| 0 <= i < s.len() ==> #[trigger] s[i] == '#' || is_ws(s[i])
}

pub fn is_censored(s: &str) -> (r: bool)
    ensures
        r == censored(s@),
{
    let c = chars_of(s);
    let mut i: usize = 0;
    while i < c.len()
        invariant
            0 <= i <= c@.len(),
            c@ == s@,
            forall|j: int| 0 <= j < i ==> #[trigger] c@[j] == '#' || is_ws(c@[j]),
        decreases c@.len() - i,
    {
        if !(c[i] == '#' || is_whitespace(c[i])) {
            return false;
        }
        i += 1;
    }
    true
}

// ---------------------------------------------------------------------------
// Regular expressions
// ---------------------------------------------------------------------------
/// Whether `regex::Regex::new` accepts the pattern.
pub uninterp spec fn regex_valid(pattern: Seq<char>) -> bool;

/// What `Regex::replace_all(text, rep)` returns for a valid pattern.
pub uninterp spec fn regex_replaced(pattern: Seq<char>, text: Seq<char>, rep: Seq<char>) -> Seq<
    char,
>;

/// `regex::Regex::new(pattern)`: `None` when the pattern compiles, else
/// the error's message. The message itself is not specified.
#[verifier::external_body]
fn regex_error(pattern: &str) -> (r: Option<String>)
    ensures
        r is None <==> regex_valid(pattern@),
{
    regex::Regex::new(pattern).err().map(|e| e.to_string())
}

/// `regex::Regex::replace_all(text, rep)` for the pattern, compiled here;
/// `None` when the pattern does not compile.
#[verifier::external_body]
fn regex_replace_all(pattern: &str, text: &str, rep: &str) -> (r: Option<String>)
    ensures
        r is Some <==> regex_valid(pattern@),
        r matches Some(s) ==> s@ == regex_replaced(pattern@, text@, rep@),
{
    regex::Regex::new(pattern).ok().map(|re| re.replace_all(text, rep).into_owned())
}

/// One pass of a name filter: every match replaced by a space (a pattern
/// that does not compile leaves the text as it is).
pub open spec fn apply_filter(pattern: Seq<char>, text: Seq<char>) -> Seq<char> {
    if regex_valid(pattern) {
        regex_replaced(pattern, text, " "@)
    } else {
        text
    }
}

/// The filters of `metadata.name_filters`, in order; every pattern has
/// been checked to compile.
#[derive(Debug)]
pub struct NameFilters {
    patterns: Vec<String>,
}

pub open spec fn strings_view(s: Seq<String>) -> Seq<Seq<char>> {
    s.map_values(|x: String| x@)
}

impl View for NameFilters {
    type V = Seq<Seq<char>>;

    closed spec fn view(&self) -> Seq<Seq<char>> {
        strings_view(self.patterns@)
    }
}

impl NameFilters {
    /// Compiles the patterns; the first one that does not compile is
    /// reported as "Invalid regex `<pattern>`: <reason>".
    pub fn compile(patterns: Vec<String>) -> (r: Result<NameFilters, String>)
        ensures
            r matches Ok(f) ==> f@ == strings_view(patterns@) && forall|i: int|
                0 <= i < patterns@.len() ==> regex_valid(#[trigger] patterns@[i]@),
            r matches Err(msg) ==> exists|i: int|
                0 <= i < patterns@.len() && !regex_valid(#[trigger] patterns@[i]@) && (forall|j: int|
                    0 <= j < i ==> regex_valid(#[trigger] patterns@[j]@)) && ("Invalid regex `"@
                    + patterns@[i]@ + "`: "@).is_prefix_of(msg@),
    {
        let mut i: usize = 0;
        while i < patterns.len()
            invariant
                0 <= i <= patterns@.len(),
                forall|j: int| 0 <= j < i ==> regex_valid(#[trigger] patterns@[j]@),
            decreases patterns@.len() - i,
        {
            match regex_error(patterns[i].as_str()) {
                Some(e) => {
                    let mut msg = to_owned_string("Invalid regex `");
                    msg.append(patterns[i].as_str());
                    msg.append("`: ");
                    let ghost head = msg@;
                    msg.append(e.as_str());
                    proof {
                        assert(msg@.take(head.len() as int) =~= head);
                    }
                    return Err(msg);
                },
                None => {},
            }
            i += 1;
        }
        Ok(NameFilters { patterns })
    }

    pub fn len(&self) -> (r: usize)
        ensures
            r == self@.len(),
    {
        self.patterns.len()
    }

    /// The patterns, as `Regex::as_str` gives them back.
    pub fn patterns(&self) -> (r: &Vec<String>)
        ensures
            strings_view(r@) == self@,
    {
        &self.patterns
    }
}

/// The built-in filters, used when `name_filters` is absent or empty:
/// the discount prefix, bracketed text, and everything but letters,
/// digits, `!?,.-` and whitespace.
pub open spec fn default_filters() -> Seq<Seq<char>> {
    seq!["💲.*?% OFF💲"@, "\\[.*?\\]"@, "[^a-zA-Z0-9!?,.\\-\\s]"@]
}

fn default_filter_list() -> (r: Vec<String>)
    ensures
        strings_view(r@) == default_filters(),
{
    let mut v: Vec<String> = Vec::new();
    v.push(to_owned_string("💲.*?% OFF💲"));
    v.push(to_owned_string("\\[.*?\\]"));
    v.push(to_owned_string("[^a-zA-Z0-9!?,.\\-\\s]"));
    assert(strings_view(v@) =~= default_filters());
    v
}

/// The filters that apply: the configured ones, or the defaults when
/// none are configured.
pub open spec fn effective_filters(filters: Option<Seq<Seq<char>>>) -> Seq<Seq<char>> {
    match filters {
        Some(f) => if f.len() == 0 {
            default_filters()
        } else {
            f
        },
        None => default_filters(),
    }
}

/// The first `k` filters applied in order.
pub open spec fn apply_filters(filters: Seq<Seq<char>>, text: Seq<char>, k: nat) -> Seq<char>
    decreases k,
{
    if k == 0 || k > filters.len() {
        text
    } else {
        apply_filter(filters[k - 1], apply_filters(filters, text, (k - 1) as nat))
    }
}

/// The canonical form of a remote name: every filter applied, runs of
/// whitespace collapsed to one space, the ends trimmed.
pub open spec fn canonical(s: Seq<char>, filters: Option<Seq<Seq<char>>>) -> Seq<char> {
    let f = effective_filters(filters);
    trim(apply_filter("\\s+"@, apply_filters(f, s, f.len())))
}

pub open spec fn filters_view(filters: Option<NameFilters>) -> Option<Seq<Seq<char>>> {
    match filters {
        Some(f) => Some(f@),
        None => None,
    }
}

fn filter_text(pattern: &str, text: String) -> (r: String)
    ensures
        r@ == apply_filter(pattern@, text@),
{
    match regex_replace_all(pattern, text.as_str(), " ") {
        Some(s) => s,
        None => text,
    }
}

pub fn canonical_name(s: &str, filters: &Option<NameFilters>) -> (r: String)
    ensures
        r@ == canonical(s@, filters_view(*filters)),
{
    let defaults = default_filter_list();
    let list: &Vec<String> = match filters {
        Some(f) => if f.len() == 0 {
            &defaults
        } else {
            f.patterns()
        },
        None => &defaults,
    };
    let ghost fv = effective_filters(filters_view(*filters));
    assert(strings_view(list@) == fv);
    let mut out = to_owned_string(s);
    let mut i: usize = 0;
    while i < list.len()
        invariant
            0 <= i <= list@.len(),
            strings_view(list@) == fv,
            out@ == apply_filters(fv, s@, i as nat),
        decreases list@.len() - i,
    {
        out = filter_text(list[i].as_str(), out);
        i += 1;
    }
    let collapsed = filter_text("\\s+", out);
    let c = chars_of(collapsed.as_str());
    let t = trim_chars(&c);
    string_from_chars(&t)
}

} // verus!
