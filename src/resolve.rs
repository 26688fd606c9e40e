use vstd::prelude::*;
use crate::error::MembraneError;
use crate::project::{lookup, Fields, Project};
use crate::seqs::lemma_filter_push;
use crate::store::id_key;
use crate::text::{copy_str, eq_str, first_chars, is_prefix, starts_with, take_chars};
use crate::value::Value;

verus! {

/// The document's identifier, when `_id` holds a string.
pub open spec fn id_of(f: Fields) -> Option<Seq<char>> {
    match lookup(f, id_key()) {
        Some(Value::String(s)) => Some(s@),
        _ => None,
    }
}

/// The document's identifier starts with `token`.
pub open spec fn id_matches(f: Fields, token: Seq<char>) -> bool {
    id_of(f) matches Some(id) && is_prefix(token, id)
}

/// The test that a named document's identifier starts with `token`.
pub open spec fn id_pred(token: Seq<char>) -> spec_fn((String, Project)) -> bool {
    |d: (String, Project)| id_matches(d.1@, token)
}

/// The named documents whose identifier starts with `token`, in their order.
pub open spec fn id_matching(docs: Seq<(String, Project)>, token: Seq<char>) -> Seq<(String, Project)> {
    docs.filter(id_pred(token))
}

/// Some document is called `token`.
pub open spec fn has_name(docs: Seq<(String, Project)>, token: Seq<char>) -> bool {
    exists|i: int| 0 <= i < docs.len() && docs[i].0@ == token
}

/// The first eight characters of each identifier, in order.
pub open spec fn short_ids(ds: Seq<(String, Project)>, shorts: Seq<String>) -> bool {
    &&& shorts.len() == ds.len()
    &&& forall|j: int|
        0 <= j < ds.len() ==> (#[trigger] shorts[j])@ == first_chars(id_of(ds[j].1@).unwrap(), 8)
}

/// Finds the one document that `input` names: a document called `input` wins
/// outright (the first such); otherwise `input` must be a prefix of exactly one
/// document's `_id`. No prefix match is a not-found error; several give an
/// ambiguity error that lists the first eight characters of each id.
pub fn resolve_project(docs: Vec<(String, Project)>, input: &str) -> (r: Result<
    (String, Project),
    MembraneError,
>)
    ensures
        has_name(docs@, input@) ==> (r matches Ok(hit) && exists|i: int|
            0 <= i < docs@.len() && docs@[i].0@ == input@ && hit == docs@[i] && forall|j: int|
                0 <= j < i ==> docs@[j].0@ != input@),
        !has_name(docs@, input@) && id_matching(docs@, input@).len() == 0 ==> (r matches Err(
            MembraneError::ProjectNotFound { token },
        ) && token@ == input@),
        !has_name(docs@, input@) && id_matching(docs@, input@).len() == 1 ==> (r matches Ok(hit)
            && hit == id_matching(docs@, input@)[0]),
        !has_name(docs@, input@) && id_matching(docs@, input@).len() > 1 ==> (r matches Err(
            MembraneError::Ambiguous { token, candidates },
        ) && token@ == input@ && short_ids(id_matching(docs@, input@), candidates@)),
{
    let ghost all = docs@;
    let mut list = docs;
    let n = list.len();
    let mut i: usize = 0;
    while i < n
        invariant
            i <= n,
            n == all.len(),
            list@ == all,
            docs@ == all,
            forall|j: int| 0 <= j < i ==> all[j].0@ != input@,
        decreases n - i,
    {
        if eq_str(&list[i].0, input) {
            let hit = list.remove(i);
            return Ok(hit);
        }
        i += 1;
    }
    let ghost pred = id_pred(input@);
    let mut picks: Vec<usize> = Vec::new();
    let mut shorts: Vec<String> = Vec::new();
    let mut i: usize = 0;
    while i < n
        invariant
            i <= n,
            n == all.len(),
            list@ == all,
            docs@ == all,
            pred == id_pred(input@),
            picks@.len() == all.subrange(0, i as int).filter(pred).len(),
            forall|k: int|
                0 <= k < picks@.len() ==> (#[trigger] picks@[k]) < i && all[picks@[k] as int]
                    == all.subrange(0, i as int).filter(pred)[k],
            short_ids(all.subrange(0, i as int).filter(pred), shorts@),
        decreases n - i,
    {
        let ghost d = all[i as int];
        proof {
            assert(all.subrange(0, i + 1) =~= all.subrange(0, i as int).push(d));
            lemma_filter_push(all.subrange(0, i as int), d, pred);
        }
        let hit = match list[i].1.get("_id") {
            Some(Value::String(id)) => if starts_with(id.as_str(), input) {
                shorts.push(take_chars(id.as_str(), 8));
                true
            } else {
                false
            },
            _ => false,
        };
        proof {
            reveal_strlit("_id");
            assert("_id"@ =~= id_key());
        }
        if hit {
            picks.push(i);
        }
        i += 1;
    }
    assert(all.subrange(0, n as int) =~= all);
    if picks.len() == 0 {
        Err(MembraneError::ProjectNotFound { token: copy_str(input) })
    } else if picks.len() == 1 {
        let hit = list.remove(picks[0]);
        Ok(hit)
    } else {
        Err(MembraneError::Ambiguous { token: copy_str(input), candidates: shorts })
    }
}

} // verus!
