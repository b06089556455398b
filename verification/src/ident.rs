//! The identifier tag codec: the reserved `"d"` record that makes a
//! published event addressable and replaceable under (author, kind,
//! identifier).

use crate::tags::first_fields_by_prefix;
use crate::tags::opt_view;
use crate::tags::push_rec2;
use crate::tags::rec_matches;
use crate::tags::recs_view;
use vstd::prelude::*;

verus! {

/// The exact record sequence the identifier codec emits: one `["d", id]`
/// record when the identifier is present, nothing when it is absent. At
/// most one `d` record is ever emitted.
pub open spec fn d_tags_of(id: Option<Seq<char>>) -> Seq<Seq<Seq<char>>> {
    match id {
        Some(x) => seq![seq!["d"@, x]],
        None => Seq::empty(),
    }
}

/// Encodes an optional stable identifier: exactly one `["d", id]` record
/// when present, an empty sequence when absent.
pub fn create_d_tag(id: Option<String>) -> (r: Vec<Vec<String>>)
    ensures
        recs_view(r@) == d_tags_of(opt_view(id)),
{
    let mut tags: Vec<Vec<String>> = Vec::new();
    if let Some(d) = id {
        push_rec2(&mut tags, "d", d);
    }
    proof {
        assert(recs_view(tags@) =~= d_tags_of(opt_view(id)));
    }
    tags
}

/// Law: looking up the key prefix `"d"` in the encoding of a present
/// identifier yields exactly that identifier as the single remaining field;
/// the encoding of an absent identifier is empty, and the lookup over it
/// misses.
pub proof fn lemma_identifier_round_trip(x: Seq<char>)
    ensures
        first_fields_by_prefix(d_tags_of(Some(x)), "d"@) == Some(seq![x]),
        d_tags_of(Some(x)).len() == 1,
        d_tags_of(None) == Seq::<Seq<Seq<char>>>::empty(),
        first_fields_by_prefix(Seq::<Seq<Seq<char>>>::empty(), "d"@) is None,
{
    let rec: Seq<Seq<char>> = seq!["d"@, x];
    let tags = d_tags_of(Some(x));
    assert("d"@.is_prefix_of("d"@));
    assert(rec_matches(rec, "d"@));
    assert(tags.drop_first() =~= Seq::<Seq<Seq<char>>>::empty());
    assert(crate::tags::matching(tags, "d"@) =~= seq![rec]);
    assert(rec.drop_first() =~= seq![x]);
}

} // verus!
