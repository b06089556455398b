//! The filter-mode enumeration and the filter tag codec.
//!
//! A query filter is encoded as one record per non-empty dimension, in a
//! fixed order, followed by exactly one `mode` record and exactly one fixed
//! `noscript` marker record. Multi-valued dimensions flatten into one
//! record's value fields, never into several records.

use crate::numfmt::dec_str_of;
use crate::numfmt::dec_string_of_i64;
use crate::numfmt::dec_string_of_u64;
use crate::payload::opt_dec_view;
use crate::payload::opt_rec;
use crate::tags::push_list_rec;
use crate::tags::push_rec2;
use crate::tags::rec_view;
use crate::tags::recs_view;
use vstd::prelude::*;

verus! {

/// The execution context / trust scope a filter script is meant to run under.
/// Encoded on the wire as its ordinal, a decimal string `"0"` through `"5"`.
#[allow(non_camel_case_types)]
#[derive(Clone, Copy, Debug, PartialEq, Eq, Structural)]
pub enum FilterOptMode {
    global,
    follow,
    trust_network,
    sign_in_user,
    visiting_user,
    custom,
}

/// The wire ordinal of a filter mode, as a character sequence.
pub open spec fn mode_str_of(m: FilterOptMode) -> Seq<char> {
    match m {
        FilterOptMode::global => "0"@,
        FilterOptMode::follow => "1"@,
        FilterOptMode::trust_network => "2"@,
        FilterOptMode::sign_in_user => "3"@,
        FilterOptMode::visiting_user => "4"@,
        FilterOptMode::custom => "5"@,
    }
}

impl FilterOptMode {
    /// The decimal wire form of this mode's ordinal.
    pub fn to_string(&self) -> (r: String)
        ensures
            r@ == mode_str_of(*self),
    {
        let s: &str = match *self {
            FilterOptMode::global => "0",
            FilterOptMode::follow => "1",
            FilterOptMode::trust_network => "2",
            FilterOptMode::sign_in_user => "3",
            FilterOptMode::visiting_user => "4",
            FilterOptMode::custom => "5",
        };
        s.to_owned()
    }
}

/// Law: the mapping from mode to wire ordinal is injective, so the decimal
/// string identifies the mode.
pub proof fn lemma_mode_ordinal_injective(m1: FilterOptMode, m2: FilterOptMode)
    requires
        mode_str_of(m1) == mode_str_of(m2),
    ensures
        m1 == m2,
{
    reveal_strlit("0");
    reveal_strlit("1");
    reveal_strlit("2");
    reveal_strlit("3");
    reveal_strlit("4");
    reveal_strlit("5");
    assert(mode_str_of(m1)[0] == mode_str_of(m2)[0]);
    match m1 {
        FilterOptMode::global => assert(mode_str_of(m1)[0] == '0'),
        FilterOptMode::follow => assert(mode_str_of(m1)[0] == '1'),
        FilterOptMode::trust_network => assert(mode_str_of(m1)[0] == '2'),
        FilterOptMode::sign_in_user => assert(mode_str_of(m1)[0] == '3'),
        FilterOptMode::visiting_user => assert(mode_str_of(m1)[0] == '4'),
        FilterOptMode::custom => assert(mode_str_of(m1)[0] == '5'),
    }
    match m2 {
        FilterOptMode::global => assert(mode_str_of(m2)[0] == '0'),
        FilterOptMode::follow => assert(mode_str_of(m2)[0] == '1'),
        FilterOptMode::trust_network => assert(mode_str_of(m2)[0] == '2'),
        FilterOptMode::sign_in_user => assert(mode_str_of(m2)[0] == '3'),
        FilterOptMode::visiting_user => assert(mode_str_of(m2)[0] == '4'),
        FilterOptMode::custom => assert(mode_str_of(m2)[0] == '5'),
    }
}

/// A subscription-style query over network events. A dimension with zero
/// elements or no value is omitted from the encoding.
pub struct QueryFilter {
    pub ids: Vec<String>,
    pub authors: Vec<String>,
    pub kinds: Vec<i64>,
    pub limit: Option<u64>,
    pub since: Option<i64>,
    pub until: Option<i64>,
    /// Generic keyed tag filters: an ordered mapping from a single tag
    /// letter to its value list, kept ordered so the encoding is
    /// deterministic.
    pub generic_tags: Vec<(char, Vec<String>)>,
}

impl Default for QueryFilter {
    /// The filter with every dimension empty.
    fn default() -> (r: Self)
        ensures
            r.ids@.len() == 0,
            r.authors@.len() == 0,
            r.kinds@.len() == 0,
            r.limit is None,
            r.since is None,
            r.until is None,
            r.generic_tags@.len() == 0,
    {
        QueryFilter {
            ids: Vec::new(),
            authors: Vec::new(),
            kinds: Vec::new(),
            limit: None,
            since: None,
            until: None,
            generic_tags: Vec::new(),
        }
    }
}

/// Zero or one records for one list-valued dimension: nothing when the list
/// is empty, otherwise the single record `[key, vals...]`.
pub open spec fn str_list_rec(key: Seq<char>, vals: Seq<Seq<char>>) -> Seq<Seq<Seq<char>>> {
    if vals.len() == 0 {
        Seq::empty()
    } else {
        seq![seq![key] + vals]
    }
}

/// An ASCII upper-case letter folded to lower case; any other character is
/// kept as it is.
pub open spec fn lower_char(c: char) -> char {
    if 65 <= c as u32 && c as u32 <= 90 {
        (((c as u32) + 32) as u8) as char
    } else {
        c
    }
}

/// The wire key of a generic tag filter: `#` followed by the lowercased
/// letter.
pub open spec fn generic_key_of(c: char) -> Seq<char> {
    seq!['#', lower_char(c)]
}

/// The decimal renderings of a kind list.
pub open spec fn dec_list_view(ks: Seq<i64>) -> Seq<Seq<char>> {
    ks.map_values(|k: i64| dec_str_of(k as int))
}

/// The view of an optional count as its decimal rendering.
pub open spec fn opt_u64_dec_view(o: Option<u64>) -> Option<Seq<char>> {
    match o {
        Some(n) => Some(dec_str_of(n as int)),
        None => None,
    }
}

/// The records of the generic tag filters, one per entry with a non-empty
/// value list, in entry order.
pub open spec fn generic_tag_recs(entries: Seq<(char, Vec<String>)>) -> Seq<Seq<Seq<char>>>
    decreases entries.len(),
{
    if entries.len() == 0 {
        Seq::empty()
    } else {
        str_list_rec(generic_key_of(entries[0].0), rec_view(entries[0].1)) + generic_tag_recs(
            entries.drop_first(),
        )
    }
}

/// The records of the six fixed filter dimensions, in their fixed order,
/// one record per non-empty dimension.
pub open spec fn dims_tags_of(f: QueryFilter) -> Seq<Seq<Seq<char>>> {
    str_list_rec("ids"@, rec_view(f.ids)) + str_list_rec("authors"@, rec_view(f.authors))
        + str_list_rec("kinds"@, dec_list_view(f.kinds@)) + opt_rec(
        "limit"@,
        opt_u64_dec_view(f.limit),
    ) + opt_rec("since"@, opt_dec_view(f.since)) + opt_rec("until"@, opt_dec_view(f.until))
}

/// The exact record sequence the filter codec emits: the non-empty
/// dimensions in fixed order, the generic tag records in entry order, then
/// the mode record, then the unconditional noscript marker record.
pub open spec fn filter_tags_of(f: QueryFilter, m: FilterOptMode) -> Seq<Seq<Seq<char>>> {
    dims_tags_of(f) + generic_tag_recs(f.generic_tags@) + seq![seq!["mode"@, mode_str_of(m)]]
        + seq![seq!["noscript"@, "wasm:msg:filter"@]]
}

/// The generic-tag records distribute over concatenation of entry lists.
pub proof fn lemma_generic_add(a: Seq<(char, Vec<String>)>, b: Seq<(char, Vec<String>)>)
    ensures
        generic_tag_recs(a + b) == generic_tag_recs(a) + generic_tag_recs(b),
    decreases a.len(),
{
    if a.len() == 0 {
        assert(a + b =~= b);
        assert(generic_tag_recs(a) + generic_tag_recs(b) =~= generic_tag_recs(b));
    } else {
        assert((a + b).drop_first() =~= a.drop_first() + b);
        lemma_generic_add(a.drop_first(), b);
        assert((a + b)[0] == a[0]);
        assert(str_list_rec(generic_key_of(a[0].0), rec_view(a[0].1)) + (generic_tag_recs(
            a.drop_first(),
        ) + generic_tag_recs(b)) =~= generic_tag_recs(a) + generic_tag_recs(b));
    }
}

/// One scanning step over the generic tag entries.
pub proof fn lemma_generic_take_step(entries: Seq<(char, Vec<String>)>, i: int)
    requires
        0 <= i < entries.len(),
    ensures
        generic_tag_recs(entries.take(i + 1)) == generic_tag_recs(entries.take(i)) + str_list_rec(
            generic_key_of(entries[i].0),
            rec_view(entries[i].1),
        ),
{
    let single = seq![entries[i]];
    assert(entries.take(i + 1) =~= entries.take(i) + single);
    lemma_generic_add(entries.take(i), single);
    assert(single.drop_first() =~= Seq::<(char, Vec<String>)>::empty());
    assert(single[0] == entries[i]);
    assert(generic_tag_recs(single) == str_list_rec(generic_key_of(single[0].0), rec_view(single[0].1))
        + generic_tag_recs(single.drop_first()));
    assert(generic_tag_recs(Seq::<(char, Vec<String>)>::empty()) == Seq::<Seq<Seq<char>>>::empty());
    assert(generic_tag_recs(single) =~= str_list_rec(
        generic_key_of(entries[i].0),
        rec_view(entries[i].1),
    ));
}

/// The number of records in a tag list whose key equals `key` exactly.
pub open spec fn count_key(tags: Seq<Seq<Seq<char>>>, key: Seq<char>) -> int
    decreases tags.len(),
{
    if tags.len() == 0 {
        0
    } else {
        (if tags[0].len() > 0 && tags[0][0] == key {
            1int
        } else {
            0int
        }) + count_key(tags.drop_first(), key)
    }
}

/// Key counting distributes over concatenation of tag lists.
pub proof fn lemma_count_key_add(a: Seq<Seq<Seq<char>>>, b: Seq<Seq<Seq<char>>>, key: Seq<char>)
    ensures
        count_key(a + b, key) == count_key(a, key) + count_key(b, key),
    decreases a.len(),
{
    if a.len() == 0 {
        assert(a + b =~= b);
    } else {
        assert((a + b).drop_first() =~= a.drop_first() + b);
        lemma_count_key_add(a.drop_first(), b, key);
        assert((a + b)[0] == a[0]);
    }
}

/// The key count of a one-record list.
proof fn lemma_count_key_single(rec: Seq<Seq<char>>, key: Seq<char>)
    ensures
        count_key(seq![rec], key) == (if rec.len() > 0 && rec[0] == key {
            1int
        } else {
            0int
        }),
{
    assert(seq![rec].drop_first() =~= Seq::<Seq<Seq<char>>>::empty());
    assert(seq![rec][0] == rec);
    assert(count_key(Seq::<Seq<Seq<char>>>::empty(), key) == 0);
    assert(count_key(seq![rec], key) == (if rec.len() > 0 && rec[0] == key {
        1int
    } else {
        0int
    }) + count_key(seq![rec].drop_first(), key));
}

/// A list-dimension record under a different key contributes no match.
proof fn lemma_count_key_str_list(key2: Seq<char>, vals: Seq<Seq<char>>, key: Seq<char>)
    requires
        key2 != key,
    ensures
        count_key(str_list_rec(key2, vals), key) == 0,
{
    if vals.len() > 0 {
        lemma_count_key_single(seq![key2] + vals, key);
        assert((seq![key2] + vals)[0] == key2);
    }
}

/// An optional-dimension record under a different key contributes no match.
proof fn lemma_count_key_opt(key2: Seq<char>, v: Option<Seq<char>>, key: Seq<char>)
    requires
        key2 != key,
    ensures
        count_key(opt_rec(key2, v), key) == 0,
{
    match v {
        Some(s) => {
            lemma_count_key_single(seq![key2, s], key);
        },
        None => {},
    }
}

/// Generic tag records never match a key whose length is not two: their
/// keys are always a `#` and one letter.
proof fn lemma_count_key_generic(entries: Seq<(char, Vec<String>)>, key: Seq<char>)
    requires
        key.len() != 2,
    ensures
        count_key(generic_tag_recs(entries), key) == 0,
    decreases entries.len(),
{
    if entries.len() > 0 {
        let head = str_list_rec(generic_key_of(entries[0].0), rec_view(entries[0].1));
        lemma_count_key_add(head, generic_tag_recs(entries.drop_first()), key);
        lemma_count_key_generic(entries.drop_first(), key);
        assert(generic_key_of(entries[0].0).len() == 2);
        lemma_count_key_str_list(generic_key_of(entries[0].0), rec_view(entries[0].1), key);
    }
}

/// No fixed-dimension record matches a key other than the six dimension
/// keys.
proof fn lemma_count_key_dims(f: QueryFilter, key: Seq<char>)
    requires
        key != "ids"@,
        key != "authors"@,
        key != "kinds"@,
        key != "limit"@,
        key != "since"@,
        key != "until"@,
    ensures
        count_key(dims_tags_of(f), key) == 0,
{
    let p1 = str_list_rec("ids"@, rec_view(f.ids));
    let p2 = str_list_rec("authors"@, rec_view(f.authors));
    let p3 = str_list_rec("kinds"@, dec_list_view(f.kinds@));
    let p4 = opt_rec("limit"@, opt_u64_dec_view(f.limit));
    let p5 = opt_rec("since"@, opt_dec_view(f.since));
    let p6 = opt_rec("until"@, opt_dec_view(f.until));
    lemma_count_key_str_list("ids"@, rec_view(f.ids), key);
    lemma_count_key_str_list("authors"@, rec_view(f.authors), key);
    lemma_count_key_str_list("kinds"@, dec_list_view(f.kinds@), key);
    lemma_count_key_opt("limit"@, opt_u64_dec_view(f.limit), key);
    lemma_count_key_opt("since"@, opt_dec_view(f.since), key);
    lemma_count_key_opt("until"@, opt_dec_view(f.until), key);
    lemma_count_key_add(p1, p2, key);
    lemma_count_key_add(p1 + p2, p3, key);
    lemma_count_key_add(p1 + p2 + p3, p4, key);
    lemma_count_key_add(p1 + p2 + p3 + p4, p5, key);
    lemma_count_key_add(p1 + p2 + p3 + p4 + p5, p6, key);
}

/// Law: every filter encoding carries exactly one `mode` record and exactly
/// one `noscript` marker record, whatever the filter holds — even when
/// every dimension is empty.
pub proof fn lemma_filter_mode_and_marker(f: QueryFilter, m: FilterOptMode)
    ensures
        count_key(filter_tags_of(f, m), "mode"@) == 1,
        count_key(filter_tags_of(f, m), "noscript"@) == 1,
{
    reveal_strlit("ids");
    reveal_strlit("authors");
    reveal_strlit("kinds");
    reveal_strlit("limit");
    reveal_strlit("since");
    reveal_strlit("until");
    reveal_strlit("mode");
    reveal_strlit("noscript");
    let dims = dims_tags_of(f);
    let gen = generic_tag_recs(f.generic_tags@);
    let mode_rec: Seq<Seq<char>> = seq!["mode"@, mode_str_of(m)];
    let marker_rec: Seq<Seq<char>> = seq!["noscript"@, "wasm:msg:filter"@];
    assert("ids"@.len() == 3);
    assert("authors"@.len() == 7);
    assert("kinds"@.len() == 5);
    assert("limit"@.len() == 5);
    assert("since"@.len() == 5);
    assert("until"@.len() == 5);
    assert("mode"@.len() == 4);
    assert("noscript"@.len() == 8);
    lemma_count_key_dims(f, "mode"@);
    lemma_count_key_dims(f, "noscript"@);
    lemma_count_key_generic(f.generic_tags@, "mode"@);
    lemma_count_key_generic(f.generic_tags@, "noscript"@);
    lemma_count_key_single(mode_rec, "mode"@);
    lemma_count_key_single(mode_rec, "noscript"@);
    lemma_count_key_single(marker_rec, "mode"@);
    lemma_count_key_single(marker_rec, "noscript"@);
    lemma_count_key_add(dims, gen, "mode"@);
    lemma_count_key_add(dims + gen, seq![mode_rec], "mode"@);
    lemma_count_key_add(dims + gen + seq![mode_rec], seq![marker_rec], "mode"@);
    lemma_count_key_add(dims, gen, "noscript"@);
    lemma_count_key_add(dims + gen, seq![mode_rec], "noscript"@);
    lemma_count_key_add(dims + gen + seq![mode_rec], seq![marker_rec], "noscript"@);
}

/// Relies on String::push: appends the one character to the end of the
/// string.
#[verifier::external_body]
fn string_push_char(s: &mut String, c: char)
    ensures
        final(s)@ == old(s)@ + seq![c],
{
    s.push(c);
}

/// Folds one ASCII upper-case letter to lower case.
fn lower_char_exec(c: char) -> (r: char)
    ensures
        r == lower_char(c),
{
    let u: u32 = c as u32;
    if 65 <= u && u <= 90 {
        ((u + 32) as u8) as char
    } else {
        c
    }
}

/// Renders each kind as its decimal string.
fn dec_strings_of_kinds(ks: &Vec<i64>) -> (r: Vec<String>)
    ensures
        rec_view(r) == dec_list_view(ks@),
{
    let mut vals: Vec<String> = Vec::new();
    let mut j: usize = 0;
    while j < ks.len()
        invariant
            j <= ks@.len(),
            vals@.len() == j,
            forall|k: int| 0 <= k < j ==> vals@[k]@ == dec_str_of(ks@[k] as int),
        decreases ks@.len() - j,
    {
        let rendered = dec_string_of_i64(ks[j]);
        vals.push(rendered);
        j += 1;
    }
    proof {
        assert forall|k: int| 0 <= k < vals@.len() implies rec_view(vals)[k] == dec_list_view(
            ks@,
        )[k] by {
            assert(rec_view(vals)[k] == vals@[k]@);
        }
        assert(rec_view(vals) =~= dec_list_view(ks@));
    }
    vals
}

/// Encodes the six fixed filter dimensions: one record per non-empty
/// dimension, in the fixed order `ids`, `authors`, `kinds`, `limit`,
/// `since`, `until`.
#[verifier::rlimit(50)]
fn encode_filter_dims(f: &QueryFilter) -> (r: Vec<Vec<String>>)
    ensures
        recs_view(r@) == dims_tags_of(*f),
{
    let mut tags: Vec<Vec<String>> = Vec::new();
    if f.ids.len() > 0 {
        push_list_rec(&mut tags, "ids", &f.ids);
    }
    proof {
        assert(recs_view(tags@) =~= str_list_rec("ids"@, rec_view(f.ids)));
    }
    let ghost acc1 = recs_view(tags@);
    if f.authors.len() > 0 {
        push_list_rec(&mut tags, "authors", &f.authors);
    }
    proof {
        assert(recs_view(tags@) =~= acc1 + str_list_rec("authors"@, rec_view(f.authors)));
    }
    let ghost acc2 = recs_view(tags@);
    if f.kinds.len() > 0 {
        let vals = dec_strings_of_kinds(&f.kinds);
        push_list_rec(&mut tags, "kinds", &vals);
    }
    proof {
        assert(recs_view(tags@) =~= acc2 + str_list_rec("kinds"@, dec_list_view(f.kinds@)));
    }
    let ghost acc3 = recs_view(tags@);
    if let Some(n) = f.limit {
        let rendered = dec_string_of_u64(n);
        push_rec2(&mut tags, "limit", rendered);
    }
    proof {
        assert(recs_view(tags@) =~= acc3 + opt_rec("limit"@, opt_u64_dec_view(f.limit)));
    }
    let ghost acc4 = recs_view(tags@);
    if let Some(n) = f.since {
        let rendered = dec_string_of_i64(n);
        push_rec2(&mut tags, "since", rendered);
    }
    proof {
        assert(recs_view(tags@) =~= acc4 + opt_rec("since"@, opt_dec_view(f.since)));
    }
    let ghost acc5 = recs_view(tags@);
    if let Some(n) = f.until {
        let rendered = dec_string_of_i64(n);
        push_rec2(&mut tags, "until", rendered);
    }
    proof {
        assert(recs_view(tags@) =~= acc5 + opt_rec("until"@, opt_dec_view(f.until)));
        assert(recs_view(tags@) =~= dims_tags_of(*f));
    }
    tags
}

/// Encodes a filter and its mode into tag records, in this fixed order: one
/// record per non-empty dimension (`ids`, `authors`, `kinds`, `limit`,
/// `since`, `until`), one record per generic tag entry with a non-empty
/// value list, exactly one `mode` record holding the mode's decimal
/// ordinal, and exactly one fixed `["noscript", "wasm:msg:filter"]` marker
/// record. Multi-valued dimensions flatten into one record's value fields.
#[verifier::rlimit(50)]
pub fn encode_filter(f: &QueryFilter, mode: FilterOptMode) -> (r: Vec<Vec<String>>)
    ensures
        recs_view(r@) == filter_tags_of(*f, mode),
{
    let mut tags = encode_filter_dims(f);
    let ghost acc6 = recs_view(tags@);
    let ghost entries = f.generic_tags@;
    let mut gi: usize = 0;
    while gi < f.generic_tags.len()
        invariant
            gi <= entries.len(),
            entries == f.generic_tags@,
            acc6 + generic_tag_recs(entries.take(gi as int)) == recs_view(tags@),
        decreases entries.len() - gi,
    {
        let entry = &f.generic_tags[gi];
        if entry.1.len() > 0 {
            let mut key = String::new();
            string_push_char(&mut key, '#');
            let lc = lower_char_exec(entry.0);
            string_push_char(&mut key, lc);
            proof {
                assert(key@ =~= generic_key_of(entries[gi as int].0));
            }
            push_list_rec(&mut tags, key.as_str(), &entry.1);
        }
        proof {
            lemma_generic_take_step(entries, gi as int);
            assert(acc6 + generic_tag_recs(entries.take(gi + 1)) =~= recs_view(tags@));
        }
        gi += 1;
    }
    proof {
        assert(entries.take(entries.len() as int) =~= entries);
    }
    let ghost acc7 = recs_view(tags@);
    let rendered_mode = mode.to_string();
    push_rec2(&mut tags, "mode", rendered_mode);
    proof {
        assert(recs_view(tags@) =~= acc7 + seq![seq!["mode"@, mode_str_of(mode)]]);
    }
    let ghost acc8 = recs_view(tags@);
    let marker = "wasm:msg:filter".to_owned();
    push_rec2(&mut tags, "noscript", marker);
    proof {
        assert(recs_view(tags@) =~= acc8 + seq![seq!["noscript"@, "wasm:msg:filter"@]]);
        assert(recs_view(tags@) =~= filter_tags_of(*f, mode));
    }
    tags
}

} // verus!
