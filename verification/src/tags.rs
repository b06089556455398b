//! The tag-record model and the generic prefix-based tag lookups.
//!
//! A tag record is an ordered, non-empty list of string fields: field 0 is the
//! key, the remaining fields are the value parts. An event carries an ordered
//! sequence of such records; consumers probe it by key prefix.

use vstd::prelude::*;
use vstd::seq_lib::*;

verus! {

/// The mathematical view of one tag record: each string field as its
/// character sequence.
pub open spec fn rec_view(r: Vec<String>) -> Seq<Seq<char>> {
    r@.map_values(|s: String| s@)
}

/// The mathematical view of a whole tag list.
pub open spec fn recs_view(ts: Seq<Vec<String>>) -> Seq<Seq<Seq<char>>> {
    ts.map_values(|r: Vec<String>| rec_view(r))
}

/// The view of an optional string.
pub open spec fn opt_view(o: Option<String>) -> Option<Seq<char>> {
    match o {
        Some(s) => Some(s@),
        None => None,
    }
}

/// A record matches a prefix when it is non-empty and its key (field 0)
/// starts with that prefix.
pub open spec fn rec_matches(rec: Seq<Seq<char>>, prefix: Seq<char>) -> bool {
    rec.len() > 0 && prefix.is_prefix_of(rec[0])
}

/// The subsequence of records whose key starts with `prefix`, in order.
pub open spec fn matching(tags: Seq<Seq<Seq<char>>>, prefix: Seq<char>) -> Seq<Seq<Seq<char>>>
    decreases tags.len(),
{
    if tags.len() == 0 {
        Seq::empty()
    } else {
        (if rec_matches(tags[0], prefix) {
            seq![tags[0]]
        } else {
            Seq::empty()
        }) + matching(tags.drop_first(), prefix)
    }
}

/// The second field of the `n`-th record (0-based among the matches) whose
/// key starts with `prefix`; absent when there are not that many matches or
/// when that record has no second field.
pub open spec fn nth_value_by_prefix(tags: Seq<Seq<Seq<char>>>, prefix: Seq<char>, n: int) -> Option<
    Seq<char>,
> {
    let m = matching(tags, prefix);
    if n < m.len() {
        if m[n].len() >= 2 {
            Some(m[n][1])
        } else {
            None
        }
    } else {
        None
    }
}

/// All fields after the key of the first record whose key starts with
/// `prefix`; absent when no record matches.
pub open spec fn first_fields_by_prefix(tags: Seq<Seq<Seq<char>>>, prefix: Seq<char>) -> Option<
    Seq<Seq<char>>,
> {
    let m = matching(tags, prefix);
    if m.len() > 0 {
        Some(m[0].drop_first())
    } else {
        None
    }
}

/// Matching distributes over concatenation of tag lists.
pub proof fn lemma_matching_add(a: Seq<Seq<Seq<char>>>, b: Seq<Seq<Seq<char>>>, prefix: Seq<char>)
    ensures
        matching(a + b, prefix) == matching(a, prefix) + matching(b, prefix),
    decreases a.len(),
{
    if a.len() == 0 {
        assert(a + b =~= b);
        assert(matching(a, prefix) + matching(b, prefix) =~= matching(b, prefix));
    } else {
        assert((a + b).drop_first() =~= a.drop_first() + b);
        lemma_matching_add(a.drop_first(), b, prefix);
        assert((a + b)[0] == a[0]);
        assert((if rec_matches(a[0], prefix) {
            seq![a[0]]
        } else {
            Seq::<Seq<Seq<char>>>::empty()
        }) + (matching(a.drop_first(), prefix) + matching(b, prefix)) =~= matching(a, prefix)
            + matching(b, prefix));
    }
}

/// One scanning step: extending the scanned region by one record either keeps
/// the matches or appends that record.
pub proof fn lemma_matching_take_step(tags: Seq<Seq<Seq<char>>>, prefix: Seq<char>, i: int)
    requires
        0 <= i < tags.len(),
    ensures
        matching(tags.take(i + 1), prefix) == matching(tags.take(i), prefix) + (if rec_matches(
            tags[i],
            prefix,
        ) {
            seq![tags[i]]
        } else {
            Seq::<Seq<Seq<char>>>::empty()
        }),
{
    let single = seq![tags[i]];
    assert(tags.take(i + 1) =~= tags.take(i) + single);
    lemma_matching_add(tags.take(i), single, prefix);
    assert(single.drop_first() =~= Seq::<Seq<Seq<char>>>::empty());
    assert(matching(single, prefix) == (if rec_matches(tags[i], prefix) {
        seq![tags[i]]
    } else {
        Seq::<Seq<Seq<char>>>::empty()
    }) + matching(Seq::empty(), prefix));
    assert(matching(single, prefix) =~= (if rec_matches(tags[i], prefix) {
        seq![tags[i]]
    } else {
        Seq::<Seq<Seq<char>>>::empty()
    }));
}

/// The matches of the whole list split at any scanned prefix of it.
pub proof fn lemma_matching_split(tags: Seq<Seq<Seq<char>>>, prefix: Seq<char>, i: int)
    requires
        0 <= i <= tags.len(),
    ensures
        matching(tags, prefix) == matching(tags.take(i), prefix) + matching(tags.skip(i), prefix),
{
    assert(tags =~= tags.take(i) + tags.skip(i));
    lemma_matching_add(tags.take(i), tags.skip(i), prefix);
}

/// Appending one record to a tag list appends its view to the list's view.
pub proof fn lemma_recs_view_push(prev: Seq<Vec<String>>, rec: Vec<String>)
    ensures
        recs_view(prev.push(rec)) == recs_view(prev).push(rec_view(rec)),
{
    assert forall|k: int| 0 <= k < prev.len() + 1 implies recs_view(prev.push(rec))[k]
        == recs_view(prev).push(rec_view(rec))[k] by {
        if k < prev.len() {
            assert(prev.push(rec)[k] == prev[k]);
        } else {
            assert(prev.push(rec)[k] == rec);
        }
    }
    assert(recs_view(prev.push(rec)) =~= recs_view(prev).push(rec_view(rec)));
}

/// Appends the two-field record `[key, value]` to the tag list.
pub fn push_rec2(tags: &mut Vec<Vec<String>>, key: &str, value: String)
    ensures
        recs_view(final(tags)@) == recs_view(old(tags)@).push(seq![key@, value@]),
{
    let mut rec: Vec<String> = Vec::new();
    rec.push(key.to_owned());
    rec.push(value);
    proof {
        assert(rec_view(rec) =~= seq![key@, value@]);
    }
    let ghost rv = rec_view(rec);
    let ghost prev = tags@;
    tags.push(rec);
    proof {
        lemma_recs_view_push(prev, tags@[prev.len() as int]);
        assert(recs_view(tags@) == recs_view(prev).push(rv));
    }
}

/// Appends the record `[key, vals...]` (one record, many value fields) to
/// the tag list.
pub fn push_list_rec(tags: &mut Vec<Vec<String>>, key: &str, vals: &Vec<String>)
    ensures
        recs_view(final(tags)@) == recs_view(old(tags)@).push(seq![key@] + rec_view(*vals)),
{
    let mut rec: Vec<String> = Vec::new();
    rec.push(key.to_owned());
    let mut j: usize = 0;
    while j < vals.len()
        invariant
            j <= vals@.len(),
            rec@.len() == j + 1,
            rec@[0]@ == key@,
            forall|k: int| 1 <= k < rec@.len() ==> rec@[k] == vals@[k - 1],
        decreases vals@.len() - j,
    {
        rec.push(vals[j].clone());
        j += 1;
    }
    proof {
        assert forall|k: int| 0 <= k < rec@.len() implies rec_view(rec)[k] == (seq![key@]
            + rec_view(*vals))[k] by {
            assert(rec_view(rec)[k] == rec@[k]@);
            if k >= 1 {
                assert(rec_view(*vals)[k - 1] == vals@[k - 1]@);
            }
        }
        assert(rec_view(rec) =~= seq![key@] + rec_view(*vals));
    }
    let ghost rv = rec_view(rec);
    let ghost prev = tags@;
    tags.push(rec);
    proof {
        lemma_recs_view_push(prev, tags@[prev.len() as int]);
        assert(recs_view(tags@) == recs_view(prev).push(rv));
    }
}

/// Relies on str::starts_with: true exactly when the string slice begins
/// with the given prefix's characters.
#[verifier::external_body]
fn str_starts_with(s: &str, prefix: &str) -> (r: bool)
    ensures
        r == prefix@.is_prefix_of(s@),
{
    s.starts_with(prefix)
}

/// Scans the records in order and returns the second field of the first
/// record whose key starts with `prefix`; absent when no record matches or
/// when the first matching record has no second field.
pub fn find_first_by_prefix<'a>(tags: &'a Vec<Vec<String>>, prefix: &str) -> (r: Option<&'a String>)
    ensures
        match r {
            Some(s) => nth_value_by_prefix(recs_view(tags@), prefix@, 0) == Some(s@),
            None => nth_value_by_prefix(recs_view(tags@), prefix@, 0) is None,
        },
{
    let ghost tv = recs_view(tags@);
    let n = tags.len();
    let mut i: usize = 0;
    while i < n
        invariant
            n == tags@.len(),
            tv == recs_view(tags@),
            i <= n,
            matching(tv.take(i as int), prefix@) == Seq::<Seq<Seq<char>>>::empty(),
        decreases n - i,
    {
        let rec: &Vec<String> = &tags[i];
        if rec.len() > 0 && str_starts_with(rec[0].as_str(), prefix) {
            proof {
                lemma_matching_take_step(tv, prefix@, i as int);
                lemma_matching_split(tv, prefix@, i + 1);
                assert(matching(tv, prefix@)[0] == tv[i as int]);
            }
            if rec.len() > 1 {
                return Some(&rec[1]);
            } else {
                return None;
            }
        }
        proof {
            lemma_matching_take_step(tv, prefix@, i as int);
            assert(matching(tv.take(i + 1), prefix@) =~= Seq::<Seq<Seq<char>>>::empty());
        }
        i += 1;
    }
    proof {
        assert(tv.take(n as int) =~= tv);
    }
    None
}

/// Scans the records in order and returns the second field of the second
/// record whose key starts with `prefix`; absent when fewer than two records
/// match or when the second matching record has no second field.
pub fn find_second_by_prefix<'a>(tags: &'a Vec<Vec<String>>, prefix: &str) -> (r: Option<
    &'a String,
>)
    ensures
        match r {
            Some(s) => nth_value_by_prefix(recs_view(tags@), prefix@, 1) == Some(s@),
            None => nth_value_by_prefix(recs_view(tags@), prefix@, 1) is None,
        },
{
    let ghost tv = recs_view(tags@);
    let n = tags.len();
    let mut count: usize = 0;
    let mut i: usize = 0;
    while i < n
        invariant
            n == tags@.len(),
            tv == recs_view(tags@),
            i <= n,
            count <= i,
            matching(tv.take(i as int), prefix@).len() == count as int,
            count < 2,
        decreases n - i,
    {
        let rec: &Vec<String> = &tags[i];
        if rec.len() > 0 && str_starts_with(rec[0].as_str(), prefix) {
            proof {
                lemma_matching_take_step(tv, prefix@, i as int);
            }
            count += 1;
            if count == 2 {
                proof {
                    lemma_matching_split(tv, prefix@, i + 1);
                    assert(matching(tv.take(i + 1), prefix@)[1] == tv[i as int]);
                    assert(matching(tv, prefix@)[1] == tv[i as int]);
                }
                if rec.len() > 1 {
                    return Some(&rec[1]);
                } else {
                    return None;
                }
            }
        } else {
            proof {
                lemma_matching_take_step(tv, prefix@, i as int);
                assert(matching(tv.take(i + 1), prefix@) =~= matching(
                    tv.take(i as int),
                    prefix@,
                ));
            }
        }
        i += 1;
    }
    proof {
        assert(tv.take(n as int) =~= tv);
    }
    None
}

/// Scans the records in order and returns all fields after the key of the
/// first record whose key starts with `prefix`; absent when no record
/// matches.
pub fn find_first_tag_fields(tags: &Vec<Vec<String>>, prefix: &str) -> (r: Option<Vec<String>>)
    ensures
        match r {
            Some(v) => first_fields_by_prefix(recs_view(tags@), prefix@) == Some(rec_view(v)),
            None => first_fields_by_prefix(recs_view(tags@), prefix@) is None,
        },
{
    let ghost tv = recs_view(tags@);
    let n = tags.len();
    let mut i: usize = 0;
    while i < n
        invariant
            n == tags@.len(),
            tv == recs_view(tags@),
            i <= n,
            matching(tv.take(i as int), prefix@) == Seq::<Seq<Seq<char>>>::empty(),
        decreases n - i,
    {
        let rec: &Vec<String> = &tags[i];
        if rec.len() > 0 && str_starts_with(rec[0].as_str(), prefix) {
            proof {
                lemma_matching_take_step(tv, prefix@, i as int);
                lemma_matching_split(tv, prefix@, i + 1);
                assert(matching(tv, prefix@)[0] == tv[i as int]);
            }
            let mut out: Vec<String> = Vec::new();
            let mut j: usize = 1;
            while j < rec.len()
                invariant
                    1 <= j <= rec@.len(),
                    out@.len() == j - 1,
                    forall|k: int| 0 <= k < out@.len() ==> out@[k] == rec@[k + 1],
                decreases rec@.len() - j,
            {
                out.push(rec[j].clone());
                j += 1;
            }
            proof {
                assert forall|k: int| 0 <= k < out@.len() implies rec_view(out)[k] == rec_view(
                    *rec,
                ).drop_first()[k] by {
                    assert(rec_view(out)[k] == out@[k]@);
                    assert(rec_view(*rec)[k + 1] == rec@[k + 1]@);
                }
                assert(rec_view(out) =~= rec_view(*rec).drop_first());
                assert(rec_view(*rec) == tv[i as int]);
            }
            return Some(out);
        }
        proof {
            lemma_matching_take_step(tv, prefix@, i as int);
            assert(matching(tv.take(i + 1), prefix@) =~= Seq::<Seq<Seq<char>>>::empty());
        }
        i += 1;
    }
    proof {
        assert(tv.take(n as int) =~= tv);
    }
    None
}

/// A received event: identifier, author key, creation time, numeric kind,
/// tag records, content string and signature, consumed read-only here.
#[derive(Debug)]
pub struct Event {
    pub id: String,
    pub pubkey: String,
    pub created_at: i64,
    pub kind: i32,
    pub tags: Vec<Vec<String>>,
    pub content: String,
    pub sig: String,
}

impl Event {
    /// The second field of the first record whose key starts with `"e"`.
    pub fn find_first_e_tag(&self) -> (r: Option<&String>)
        ensures
            match r {
                Some(s) => nth_value_by_prefix(recs_view(self.tags@), "e"@, 0) == Some(s@),
                None => nth_value_by_prefix(recs_view(self.tags@), "e"@, 0) is None,
            },
    {
        find_first_by_prefix(&self.tags, "e")
    }

    /// The second field of the second record whose key starts with `"e"`.
    pub fn find_second_e_tag(&self) -> (r: Option<&String>)
        ensures
            match r {
                Some(s) => nth_value_by_prefix(recs_view(self.tags@), "e"@, 1) == Some(s@),
                None => nth_value_by_prefix(recs_view(self.tags@), "e"@, 1) is None,
            },
    {
        find_second_by_prefix(&self.tags, "e")
    }

    /// All fields after the key of the first record whose key starts with
    /// `input`.
    pub fn find_first_tag(&self, input: &str) -> (r: Option<Vec<String>>)
        ensures
            match r {
                Some(v) => first_fields_by_prefix(recs_view(self.tags@), input@) == Some(
                    rec_view(v),
                ),
                None => first_fields_by_prefix(recs_view(self.tags@), input@) is None,
            },
    {
        find_first_tag_fields(&self.tags, input)
    }
}

} // verus!
