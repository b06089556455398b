//! The metadata payload and its tag codec.
//!
//! Every payload field is independently optional; a populated field becomes
//! exactly one `[key, value]` record, an absent field emits nothing, and the
//! records come out in the fixed field order below regardless of how the
//! payload was built.

use crate::numfmt::dec_str_of;
use crate::numfmt::dec_string_of_i64;
use crate::tags::opt_view;
use crate::tags::push_rec2;
use crate::tags::recs_view;
use vstd::prelude::*;

verus! {

/// Human-facing metadata for a published noscript. Absence of a field means
/// "omit its tag record", never "emit an empty one".
#[derive(Debug)]
pub struct NoscriptPayload {
    pub title: Option<String>,
    pub description: Option<String>,
    pub picture: Option<String>,
    pub version: Option<String>,
    /// Source code URL.
    pub source_code: Option<String>,
    /// Publish timestamp, seconds since the epoch.
    pub published_at: Option<i64>,
    pub runtime_version: Option<String>,
}

impl Default for NoscriptPayload {
    /// The payload with every field absent.
    fn default() -> (r: Self)
        ensures
            r.title is None,
            r.description is None,
            r.picture is None,
            r.version is None,
            r.source_code is None,
            r.published_at is None,
            r.runtime_version is None,
    {
        NoscriptPayload {
            title: None,
            description: None,
            picture: None,
            version: None,
            source_code: None,
            published_at: None,
            runtime_version: None,
        }
    }
}

/// Zero or one records for one optional field: `[key, value]` when the value
/// is present, nothing when it is absent.
pub open spec fn opt_rec(key: Seq<char>, v: Option<Seq<char>>) -> Seq<Seq<Seq<char>>> {
    match v {
        Some(s) => seq![seq![key, s]],
        None => Seq::empty(),
    }
}

/// The view of an optional timestamp as its decimal rendering.
pub open spec fn opt_dec_view(o: Option<i64>) -> Option<Seq<char>> {
    match o {
        Some(n) => Some(dec_str_of(n as int)),
        None => None,
    }
}

/// The exact record sequence the payload codec emits: one record per
/// populated field, in the fixed field order.
pub open spec fn payload_tags_of(p: NoscriptPayload) -> Seq<Seq<Seq<char>>> {
    opt_rec("title"@, opt_view(p.title)) + opt_rec("description"@, opt_view(p.description))
        + opt_rec("picture"@, opt_view(p.picture)) + opt_rec("version"@, opt_view(p.version))
        + opt_rec("source_code"@, opt_view(p.source_code)) + opt_rec(
        "published_at"@,
        opt_dec_view(p.published_at),
    ) + opt_rec("runtime_version"@, opt_view(p.runtime_version))
}

/// The number of populated fields of a payload.
pub open spec fn populated_count(p: NoscriptPayload) -> int {
    (if p.title is Some {
        1int
    } else {
        0int
    }) + (if p.description is Some {
        1int
    } else {
        0int
    }) + (if p.picture is Some {
        1int
    } else {
        0int
    }) + (if p.version is Some {
        1int
    } else {
        0int
    }) + (if p.source_code is Some {
        1int
    } else {
        0int
    }) + (if p.published_at is Some {
        1int
    } else {
        0int
    }) + (if p.runtime_version is Some {
        1int
    } else {
        0int
    })
}

/// Law: the payload encoding holds exactly one record per populated field;
/// their order is the fixed field order by construction of
/// `payload_tags_of`.
pub proof fn lemma_payload_record_count(p: NoscriptPayload)
    ensures
        payload_tags_of(p).len() == populated_count(p),
{
}

/// Encodes a payload into tag records: one `[key, value]` record per
/// populated field, in the fixed field order (title, description, picture,
/// version, source_code, published_at, runtime_version). The timestamp is
/// rendered as decimal, base 10, no leading zeros.
#[verifier::rlimit(50)]
pub fn create_noscript_payload_tag(payload: NoscriptPayload) -> (r: Vec<Vec<String>>)
    ensures
        recs_view(r@) == payload_tags_of(payload),
{
    let mut tags: Vec<Vec<String>> = Vec::new();
    let NoscriptPayload {
        title,
        description,
        picture,
        version,
        source_code,
        published_at,
        runtime_version,
    } = payload;
    if let Some(v) = title {
        push_rec2(&mut tags, "title", v);
    }
    proof {
        assert(recs_view(tags@) =~= opt_rec("title"@, opt_view(payload.title)));
    }
    let ghost acc1 = recs_view(tags@);
    if let Some(v) = description {
        push_rec2(&mut tags, "description", v);
    }
    proof {
        assert(recs_view(tags@) =~= acc1 + opt_rec("description"@, opt_view(payload.description)));
    }
    let ghost acc2 = recs_view(tags@);
    if let Some(v) = picture {
        push_rec2(&mut tags, "picture", v);
    }
    proof {
        assert(recs_view(tags@) =~= acc2 + opt_rec("picture"@, opt_view(payload.picture)));
    }
    let ghost acc3 = recs_view(tags@);
    if let Some(v) = version {
        push_rec2(&mut tags, "version", v);
    }
    proof {
        assert(recs_view(tags@) =~= acc3 + opt_rec("version"@, opt_view(payload.version)));
    }
    let ghost acc4 = recs_view(tags@);
    if let Some(v) = source_code {
        push_rec2(&mut tags, "source_code", v);
    }
    proof {
        assert(recs_view(tags@) =~= acc4 + opt_rec("source_code"@, opt_view(payload.source_code)));
    }
    let ghost acc5 = recs_view(tags@);
    if let Some(n) = published_at {
        let rendered = dec_string_of_i64(n);
        push_rec2(&mut tags, "published_at", rendered);
    }
    proof {
        assert(recs_view(tags@) =~= acc5 + opt_rec(
            "published_at"@,
            opt_dec_view(payload.published_at),
        ));
    }
    let ghost acc6 = recs_view(tags@);
    if let Some(v) = runtime_version {
        push_rec2(&mut tags, "runtime_version", v);
    }
    proof {
        assert(recs_view(tags@) =~= acc6 + opt_rec(
            "runtime_version"@,
            opt_view(payload.runtime_version),
        ));
        assert(recs_view(tags@) =~= payload_tags_of(payload));
    }
    tags
}

} // verus!
