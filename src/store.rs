use vstd::prelude::*;
use crate::error::MembraneError;
use crate::ident::new_uuid;
use crate::project::{
    has_key, inserted, key_index, keys_distinct, lookup, removed, Fields, Project,
};
use crate::project::yaml_text_of;
use crate::text::{copy_str, eq_str, is_reserved, is_reserved_key};
use crate::value::{is_text, same_value, Value};
use crate::yaml::{decode_yaml, yaml_value_of};

verus! {

/// The key of the document's identifier.
pub open spec fn id_key() -> Seq<char> {
    seq!['_', 'i', 'd']
}

/// The key of the document's name.
pub open spec fn name_key() -> Seq<char> {
    seq!['n', 'a', 'm', 'e']
}

/// The key of the creation time.
pub open spec fn created_key() -> Seq<char> {
    seq!['_', 'c', 'r', 'e', 'a', 't', 'e', 'd']
}

/// The key of the time of the last change.
pub open spec fn updated_key() -> Seq<char> {
    seq!['_', 'u', 'p', 'd', 'a', 't', 'e', 'd']
}

/// A field that the user owns: neither metadata nor the name.
pub open spec fn is_user_field(e: (Seq<char>, Value)) -> bool {
    !is_reserved(e.0) && e.0 != name_key()
}

/// The user's fields, in their order.
pub open spec fn user_fields(f: Fields) -> Fields {
    f.filter(|e: (Seq<char>, Value)| is_user_field(e))
}

/// `out` is the canonical form of the fields `f` of a document called `name`,
/// stamped at `now`: `_id` (kept, else `fresh_id`), `name`, `_created` (kept,
/// else `now`), `_updated` (`now`), then the user's fields in their order.
/// Every other underscore key is dropped.
pub open spec fn is_canonical(
    out: Fields,
    f: Fields,
    name: Seq<char>,
    fresh_id: Seq<char>,
    now: Seq<char>,
) -> bool {
    &&& out.len() == user_fields(f).len() + 4
    &&& out[0].0 == id_key()
    &&& match lookup(f, id_key()) {
        Some(v) => out[0].1 == v,
        None => is_text(out[0].1, fresh_id),
    }
    &&& out[1].0 == name_key()
    &&& is_text(out[1].1, name)
    &&& out[2].0 == created_key()
    &&& match lookup(f, created_key()) {
        Some(v) => out[2].1 == v,
        None => is_text(out[2].1, now),
    }
    &&& out[3].0 == updated_key()
    &&& is_text(out[3].1, now)
    &&& out.subrange(4, out.len() as int) == user_fields(f)
}

proof fn lemma_keys_revealed()
    ensures
        "_id"@ == id_key(),
        "name"@ == name_key(),
        "_created"@ == created_key(),
        "_updated"@ == updated_key(),
{
    reveal_strlit("_id");
    reveal_strlit("name");
    reveal_strlit("_created");
    reveal_strlit("_updated");
    assert("_id"@ =~= id_key());
    assert("name"@ =~= name_key());
    assert("_created"@ =~= created_key());
    assert("_updated"@ =~= updated_key());
}

proof fn lemma_filter_push(s: Fields, e: (Seq<char>, Value))
    ensures
        user_fields(s.push(e)) == if is_user_field(e) {
            user_fields(s).push(e)
        } else {
            user_fields(s)
        },
{
    reveal(Seq::filter);
    assert(s.push(e).drop_last() =~= s);
}

proof fn lemma_filter_skip(f: Fields, i: int)
    requires
        0 <= i < f.len(),
        !is_user_field(f[i]),
    ensures
        user_fields(f.remove(i)) == user_fields(f),
{
    let pred = |e: (Seq<char>, Value)| is_user_field(e);
    let a = f.subrange(0, i);
    let b = f.subrange(i + 1, f.len() as int);
    assert(f.remove(i) =~= a + b);
    assert(f =~= a.push(f[i]) + b);
    Seq::filter_distributes_over_add(a, b, pred);
    Seq::filter_distributes_over_add(a.push(f[i]), b, pred);
    lemma_filter_push(a, f[i]);
}

proof fn lemma_lookup_removed(f: Fields, gone: Seq<char>, k: Seq<char>)
    requires
        keys_distinct(f),
        gone != k,
    ensures
        lookup(removed(f, gone), k) == lookup(f, k),
{
    if has_key(f, gone) {
        let i = key_index(f, gone);
        let g = removed(f, gone);
        if has_key(f, k) {
            let j = key_index(f, k);
            let jj = if j < i { j } else { j - 1 };
            assert(g[jj] == f[j]);
            assert forall|a: int, b: int| 0 <= a < g.len() && 0 <= b < g.len() && a != b implies g[a].0 != g[b].0 by {
                let fa = if a < i { a } else { a + 1 };
                let fb = if b < i { b } else { b + 1 };
                assert(g[a] == f[fa] && g[b] == f[fb]);
            }
            crate::project::lemma_key_index(g, k, jj);
        } else {
            assert forall|a: int| 0 <= a < g.len() implies g[a].0 != k by {
                let fa = if a < i { a } else { a + 1 };
                assert(g[a] == f[fa]);
            }
        }
    }
}

proof fn lemma_remove_metadata(f: Fields, k: Seq<char>)
    requires
        is_reserved(k),
    ensures
        user_fields(removed(f, k)) == user_fields(f),
{
    if has_key(f, k) {
        let i = key_index(f, k);
        lemma_filter_skip(f, i);
    }
}

/// Puts the fields of a document in canonical form, using `fresh_id` when the
/// document has no `_id` yet.
pub fn canonicalize_with_id(data: Project, project_name: &str, fresh_id: String, now: &str) -> (r:
    Project)
    ensures
        is_canonical(r@, data@, project_name@, fresh_id@, now@),
{
    proof {
        lemma_keys_revealed();
    }
    let ghost f = data@;
    let mut data = data;
    let id = match data.shift_remove("_id") {
        Some(v) => v,
        None => Value::String(fresh_id),
    };
    let created = match data.shift_remove("_created") {
        Some(v) => v,
        None => Value::String(copy_str(now)),
    };
    proof {
        lemma_remove_metadata(f, id_key());
        lemma_remove_metadata(removed(f, id_key()), created_key());
        assert(id_key()[1] != created_key()[1]);
        lemma_lookup_removed(f, id_key(), created_key());
    }
    let mut ordered = Project::new();
    ordered.insert(copy_str("_id"), id);
    ordered.insert(copy_str("name"), Value::String(copy_str(project_name)));
    ordered.insert(copy_str("_created"), created);
    ordered.insert(copy_str("_updated"), Value::String(copy_str(now)));
    let ghost pinned = ordered@;
    assert(pinned.len() == 4);
    // Underscore keys other than the two kept above are dropped here.
    let n = data.len();
    let ghost g = data@;
    let mut rest = data.into_entries();
    let mut i: usize = 0;
    while i < n
        invariant
            i <= n,
            n == g.len(),
            keys_distinct(g),
            rest@.len() == n - i,
            forall|j: int|
                0 <= j < rest@.len() ==> (#[trigger] rest@[j]).0@ == g[i + j].0 && rest@[j].1
                    == g[i + j].1,
            pinned.len() == 4,
            forall|j: int| 0 <= j < 4 ==> !is_user_field(#[trigger] pinned[j]),
            ordered@ == pinned + user_fields(g.subrange(0, i as int)),
        decreases n - i,
    {
        let (k, v) = rest.remove(0);
        proof {
            lemma_keys_revealed();
        }
        let ghost e = g[i as int];
        assert(k@ == e.0 && v == e.1);
        proof {
            assert(g.subrange(0, i + 1) =~= g.subrange(0, i as int).push(e));
            lemma_filter_push(g.subrange(0, i as int), e);
        }
        if !is_reserved_key(k.as_str()) && !eq_str(&k, "name") {
            proof {
                let done = user_fields(g.subrange(0, i as int));
                assert forall|j: int| 0 <= j < ordered@.len() implies ordered@[j].0 != k@ by {
                    if j >= 4 {
                        let m = j - 4;
                        assert(ordered@[j] == done[m]);
                        // done[m] is an earlier field of g, whose key differs from g[i]'s
                        let before = g.subrange(0, i as int);
                        assert(before.filter(|e: (Seq<char>, Value)| is_user_field(e)).contains(
                            done[m],
                        ));
                        before.lemma_filter_contains_rev(
                            |e: (Seq<char>, Value)| is_user_field(e),
                            done[m],
                        );
                        let idx = choose|idx: int| 0 <= idx < before.len() && before[idx] == done[m];
                        assert(g[idx] == done[m]);
                        assert(g[idx].0 != g[i as int].0);
                    } else {
                        assert(ordered@[j] == pinned[j]);
                        assert(!is_user_field(pinned[j]));
                        assert(is_user_field((k@, v)));
                    }
                }
            }
            ordered.insert(k, v);
            assert(ordered@ =~= pinned + user_fields(g.subrange(0, i + 1)));
        } else {
            assert(ordered@ =~= pinned + user_fields(g.subrange(0, i + 1)));
        }
        i += 1;
    }
    assert(g.subrange(0, n as int) =~= g);
    proof {
        let out = ordered@;
        assert(out.subrange(4, out.len() as int) =~= user_fields(g));
    }
    ordered
}

/// Puts the fields of a document in canonical form: pins `_id` (minting one
/// if absent), `name`, `_created` and a fresh `_updated`, then the user's
/// fields in their order; every other underscore key is dropped.
pub fn canonicalize_project(data: Project, project_name: &str, now: &str) -> (r: Project)
    ensures
        exists|fresh: Seq<char>|
            fresh.len() == 36 && is_canonical(r@, data@, project_name@, fresh, now@),
{
    let fresh = new_uuid();
    let ghost fresh_view = fresh@;
    let r = canonicalize_with_id(data, project_name, fresh, now);
    assert(is_canonical(r@, data@, project_name@, fresh_view, now@));
    r
}

proof fn lemma_user_fields_of_user(s: Fields)
    requires
        forall|i: int| 0 <= i < s.len() ==> is_user_field(#[trigger] s[i]),
    ensures
        user_fields(s) == s,
    decreases s.len(),
{
    if s.len() > 0 {
        let init = s.drop_last();
        lemma_user_fields_of_user(init);
        lemma_filter_push(init, s.last());
        assert(init.push(s.last()) =~= s);
    }
}

proof fn lemma_metadata_unique(c: Fields, f: Fields, name: Seq<char>, id: Seq<char>, now: Seq<char>, j: int)
    requires
        is_canonical(c, f, name, id, now),
        4 <= j < c.len(),
    ensures
        is_user_field(c[j]),
        c[j].0 != id_key(),
        c[j].0 != created_key(),
{
    assert(c[j] == c.subrange(4, c.len() as int)[j - 4]);
    f.lemma_filter_pred(|e: (Seq<char>, Value)| is_user_field(e), j - 4);
}

/// Canonicalizing a canonical document again, under the same name, gives the
/// same fields in the same order; only `_updated` takes the new time.
pub proof fn lemma_canonicalize_idempotent(
    f: Fields,
    name: Seq<char>,
    id1: Seq<char>,
    id2: Seq<char>,
    now1: Seq<char>,
    now2: Seq<char>,
    c1: Fields,
    c2: Fields,
)
    requires
        is_canonical(c1, f, name, id1, now1),
        is_canonical(c2, c1, name, id2, now2),
    ensures
        c2.len() == c1.len(),
        forall|i: int| 0 <= i < c1.len() ==> (#[trigger] c2[i]).0 == c1[i].0,
        forall|i: int| 0 <= i < c1.len() && i != 1 && i != 3 ==> #[trigger] c2[i] == c1[i],
        same_value(c2[1].1, c1[1].1),
        is_text(c2[3].1, now2),
{
    assert(id_key()[1] != created_key()[1]);
    assert(id_key()[1] != updated_key()[1]);
    assert(created_key()[1] != updated_key()[1]);
    assert(id_key() != name_key());
    assert(created_key() != name_key());
    // the metadata keys each stand once in c1
    assert forall|j: int| 0 <= j < c1.len() && c1[j].0 == id_key() implies j == 0 by {
        if j >= 4 {
            lemma_metadata_unique(c1, f, name, id1, now1, j);
        }
    }
    assert forall|j: int| 0 <= j < c1.len() && c1[j].0 == created_key() implies j == 2 by {
        if j >= 4 {
            lemma_metadata_unique(c1, f, name, id1, now1, j);
        }
    }
    assert(lookup(c1, id_key()) == Some(c1[0].1));
    assert(lookup(c1, created_key()) == Some(c1[2].1));
    // the user's fields of c1 are those of f
    let head = c1.subrange(0, 4);
    let tail = c1.subrange(4, c1.len() as int);
    assert(c1 =~= head + tail);
    Seq::filter_distributes_over_add(head, tail, |e: (Seq<char>, Value)| is_user_field(e));
    assert forall|i: int| 0 <= i < tail.len() implies is_user_field(#[trigger] tail[i]) by {
        lemma_metadata_unique(c1, f, name, id1, now1, i + 4);
    }
    lemma_user_fields_of_user(tail);
    assert(head =~= seq![head[0]].push(head[1]).push(head[2]).push(head[3]));
    assert(seq![head[0]] =~= Seq::<(Seq<char>, Value)>::empty().push(head[0]));
    lemma_filter_push(Seq::<(Seq<char>, Value)>::empty(), head[0]);
    lemma_filter_push(seq![head[0]], head[1]);
    lemma_filter_push(seq![head[0]].push(head[1]), head[2]);
    lemma_filter_push(seq![head[0]].push(head[1]).push(head[2]), head[3]);
    reveal(Seq::filter);
    assert(user_fields(head) =~= Seq::<(Seq<char>, Value)>::empty());
    assert(user_fields(c1) =~= tail);
    assert forall|i: int| 4 <= i < c1.len() implies #[trigger] c2[i] == c1[i] by {
        assert(c2[i] == c2.subrange(4, c2.len() as int)[i - 4]);
        assert(c1[i] == tail[i - 4]);
    }
}

/// The text of a string key; other keys have none.
pub open spec fn key_text(v: Value) -> Seq<char> {
    match v {
        Value::String(s) => s@,
        _ => Seq::empty(),
    }
}

/// Every key of the pairs is a string.
pub open spec fn string_keys(pairs: Seq<(Value, Value)>) -> bool {
    forall|i: int| 0 <= i < pairs.len() ==> (#[trigger] pairs[i]).0 is String
}

/// The fields that a mapping's pairs give, one after the other: a later equal
/// key takes the place of an earlier one.
pub open spec fn fields_from_pairs(pairs: Seq<(Value, Value)>) -> Fields
    decreases pairs.len(),
{
    if pairs.len() == 0 {
        Seq::empty()
    } else {
        inserted(fields_from_pairs(pairs.drop_last()), key_text(pairs.last().0), pairs.last().1)
    }
}

/// The fields of a decoded document: present exactly when the top-level value
/// is a mapping whose keys are all strings.
pub open spec fn document_fields(v: Option<Value>) -> Option<Fields> {
    match v {
        Some(Value::Mapping(pairs)) => if string_keys(pairs@) {
            Some(fields_from_pairs(pairs@))
        } else {
            None
        },
        _ => None,
    }
}

/// `out` is `f` with an identifier added where it had none: unchanged when
/// `f` holds `_id`, else `f` followed by a fresh 36-character `_id`.
pub open spec fn is_backfilled(out: Fields, f: Fields, added: bool) -> bool {
    if has_key(f, id_key()) {
        !added && out == f
    } else {
        &&& added
        &&& out.len() == f.len() + 1
        &&& out.subrange(0, f.len() as int) == f
        &&& out.last().0 == id_key()
        &&& out.last().1 matches Value::String(s) && s@.len() == 36
    }
}

/// Builds a document from a decoded YAML value. The value must be a mapping
/// whose keys are all strings; anything else is a format error.
pub fn project_from_value(v: Option<Value>) -> (r: Result<Project, MembraneError>)
    ensures
        match document_fields(v) {
            Some(f) => r is Ok && r->Ok_0@ == f,
            None => r matches Err(MembraneError::Format),
        },
{
    let ghost given = v;
    let pairs = match v {
        Some(Value::Mapping(pairs)) => pairs,
        _ => return Err(MembraneError::Format),
    };
    let ghost all = pairs@;
    assert(document_fields(given) == if string_keys(all) {
        Some(fields_from_pairs(all))
    } else {
        None
    });
    let n = pairs.len();
    let mut rest = pairs;
    let mut p = Project::new();
    let mut i: usize = 0;
    while i < n
        invariant
            i <= n,
            n == all.len(),
            rest@ == all.subrange(i as int, n as int),
            p@ == fields_from_pairs(all.subrange(0, i as int)),
            forall|j: int| 0 <= j < i ==> (#[trigger] all[j]).0 is String,
            given == v,
            document_fields(given) == if string_keys(all) {
                Some(fields_from_pairs(all))
            } else {
                None
            },
        decreases n - i,
    {
        let (k, value) = rest.remove(0);
        assert(all.subrange(0, i + 1).drop_last() =~= all.subrange(0, i as int));
        assert(all[i as int] == (k, value));
        match k {
            Value::String(s) => {
                p.insert(s, value);
            },
            _ => {
                assert(!string_keys(all));
                return Err(MembraneError::Format);
            },
        }
        assert(rest@ =~= all.subrange(i + 1, n as int));
        i += 1;
    }
    assert(all.subrange(0, n as int) =~= all);
    Ok(p)
}

/// Adds a fresh `_id` to a document that has none. Returns whether it did.
pub fn backfill_id(project: &mut Project) -> (r: bool)
    ensures
        is_backfilled(final(project)@, old(project)@, r),
{
    proof {
        lemma_keys_revealed();
    }
    if project.contains_key("_id") {
        false
    } else {
        let ghost before = project@;
        project.insert(copy_str("_id"), Value::String(new_uuid()));
        assert(project@.subrange(0, before.len() as int) =~= before);
        true
    }
}

/// Reads a document from its YAML text as it stands, adding nothing.
pub fn parse_project(text: &str) -> (r: Result<Project, MembraneError>)
    ensures
        match document_fields(yaml_value_of(text@)) {
            Some(f) => r matches Ok(p) && p@ == f,
            None => r matches Err(MembraneError::Format),
        },
{
    project_from_value(decode_yaml(text))
}

/// Reads a document from its YAML text, adding an `_id` where it has none.
/// Returns the document and whether the identifier was added (the caller then
/// writes the document back).
pub fn load_project(text: &str) -> (r: Result<(Project, bool), MembraneError>)
    ensures
        match document_fields(yaml_value_of(text@)) {
            Some(f) => r matches Ok((p, added)) && is_backfilled(p@, f, added),
            None => r matches Err(MembraneError::Format),
        },
{
    let mut p = match parse_project(text) {
        Ok(p) => p,
        Err(e) => return Err(e),
    };
    let added = backfill_id(&mut p);
    Ok((p, added))
}

/// The YAML text of a document, its fields in their order.
pub fn render_project(project: &Project) -> (r: Result<String, MembraneError>)
    ensures
        match yaml_text_of(project@) {
            Some(t) => r matches Ok(s) && s@ == t,
            None => r matches Err(MembraneError::Encode),
        },
{
    match project.encode_yaml() {
        Some(s) => Ok(s),
        None => Err(MembraneError::Encode),
    }
}

/// Makes a new document called `project_name` from `fields`, unless a
/// document of that name `exists` already.
pub fn create_project(project_name: &str, fields: Project, exists: bool, now: &str) -> (r: Result<
    Project,
    MembraneError,
>)
    ensures
        exists ==> (r matches Err(MembraneError::AlreadyExists { name }) && name@ == project_name@),
        !exists ==> (r matches Ok(p) && (exists|fresh: Seq<char>|
            fresh.len() == 36 && is_canonical(p@, fields@, project_name@, fresh, now@))),
{
    if exists {
        return Err(MembraneError::AlreadyExists { name: copy_str(project_name) });
    }
    Ok(canonicalize_project(fields, project_name, now))
}

/// Re-canonicalizes the document in place.
fn recanonicalize(project: &mut Project, project_name: &str, now: &str)
    ensures
        exists|fresh: Seq<char>|
            fresh.len() == 36 && is_canonical(final(project)@, old(project)@, project_name@, fresh, now@),
{
    let mut data = Project::new();
    std::mem::swap(project, &mut data);
    *project = canonicalize_project(data, project_name, now);
}

/// Stores `value` under a user key and re-canonicalizes, which refreshes
/// `_updated`. A key that starts with an underscore is refused and the
/// document is left as it was.
pub fn set_key(project: &mut Project, project_name: &str, key: &str, value: Value, now: &str) -> (r:
    Result<(), MembraneError>)
    ensures
        is_reserved(key@) ==> (r matches Err(MembraneError::ReservedKey { key: k }) && k@ == key@
            && final(project)@ == old(project)@),
        !is_reserved(key@) ==> r is Ok && (exists|fresh: Seq<char>|
            fresh.len() == 36 && is_canonical(
                final(project)@,
                inserted(old(project)@, key@, value),
                project_name@,
                fresh,
                now@,
            )),
{
    if is_reserved_key(key) {
        return Err(MembraneError::ReservedKey { key: copy_str(key) });
    }
    project.insert(copy_str(key), value);
    recanonicalize(project, project_name, now);
    Ok(())
}

/// Removes a user key and re-canonicalizes, which refreshes `_updated`. A key
/// that starts with an underscore, or one that the document does not hold, is
/// refused and the document is left as it was.
pub fn unset_key(project: &mut Project, project_name: &str, key: &str, now: &str) -> (r: Result<
    (),
    MembraneError,
>)
    ensures
        is_reserved(key@) ==> (r matches Err(MembraneError::ReservedKey { key: k }) && k@ == key@
            && final(project)@ == old(project)@),
        !is_reserved(key@) && !has_key(old(project)@, key@) ==> (r matches Err(
            MembraneError::KeyNotFound { key: k, project: p },
        ) && k@ == key@ && p@ == project_name@ && final(project)@ == old(project)@),
        !is_reserved(key@) && has_key(old(project)@, key@) ==> r is Ok && (exists|fresh: Seq<char>|
            fresh.len() == 36 && is_canonical(
                final(project)@,
                removed(old(project)@, key@),
                project_name@,
                fresh,
                now@,
            )),
{
    if is_reserved_key(key) {
        return Err(MembraneError::ReservedKey { key: copy_str(key) });
    }
    if !project.contains_key(key) {
        return Err(MembraneError::KeyNotFound { key: copy_str(key), project: copy_str(project_name) });
    }
    project.shift_remove(key);
    recanonicalize(project, project_name, now);
    Ok(())
}

/// Checks a rename before any document is touched: neither key may start
/// with an underscore, and the keys must differ.
pub fn check_rename(old_key: &str, new_key: &str) -> (r: Result<(), MembraneError>)
    ensures
        is_reserved(old_key@) ==> (r matches Err(MembraneError::ReservedKey { key: k }) && k@
            == old_key@),
        !is_reserved(old_key@) && is_reserved(new_key@) ==> (r matches Err(
            MembraneError::ReservedKey { key: k },
        ) && k@ == new_key@),
        !is_reserved(old_key@) && !is_reserved(new_key@) && old_key@ == new_key@ ==> (r matches Err(
            MembraneError::SameKey { key: k },
        ) && k@ == old_key@),
        !is_reserved(old_key@) && !is_reserved(new_key@) && old_key@ != new_key@ ==> r is Ok,
{
    if is_reserved_key(old_key) {
        return Err(MembraneError::ReservedKey { key: copy_str(old_key) });
    }
    if is_reserved_key(new_key) {
        return Err(MembraneError::ReservedKey { key: copy_str(new_key) });
    }
    let a = copy_str(old_key);
    let b = copy_str(new_key);
    if a == b {
        return Err(MembraneError::SameKey { key: a });
    }
    Ok(())
}

/// The fields after moving the value of `old_key` to `new_key`, which goes last.
pub open spec fn renamed(f: Fields, old_key: Seq<char>, new_key: Seq<char>) -> Fields {
    inserted(removed(f, old_key), new_key, lookup(f, old_key).unwrap())
}

/// Renames a key of one document and re-canonicalizes. Returns `Ok(false)`,
/// with the document unchanged, when it does not hold `old_key`; refuses to
/// overwrite a key `new_key` that it holds already.
pub fn rename_key(
    project: &mut Project,
    project_name: &str,
    old_key: &str,
    new_key: &str,
    now: &str,
) -> (r: Result<bool, MembraneError>)
    ensures
        is_reserved(old_key@) || is_reserved(new_key@) || old_key@ == new_key@ ==> r is Err
            && final(project)@ == old(project)@,
        is_reserved(old_key@) ==> (r matches Err(MembraneError::ReservedKey { key: k }) && k@
            == old_key@),
        !is_reserved(old_key@) && is_reserved(new_key@) ==> (r matches Err(
            MembraneError::ReservedKey { key: k },
        ) && k@ == new_key@),
        !is_reserved(old_key@) && !is_reserved(new_key@) && old_key@ == new_key@ ==> (r matches Err(
            MembraneError::SameKey { key: k },
        ) && k@ == old_key@),
        ({
            let go = !is_reserved(old_key@) && !is_reserved(new_key@) && old_key@ != new_key@;
            &&& go && !has_key(old(project)@, old_key@) ==> (r matches Ok(false) && final(project)@
                == old(project)@)
            &&& go && has_key(old(project)@, old_key@) && has_key(old(project)@, new_key@) ==> (r matches Err(
                MembraneError::KeyCollision { project: p, key: k },
            ) && p@ == project_name@ && k@ == new_key@ && final(project)@ == old(project)@)
            &&& go && has_key(old(project)@, old_key@) && !has_key(old(project)@, new_key@) ==> (r matches Ok(true)
                && (exists|fresh: Seq<char>|
                fresh.len() == 36 && is_canonical(
                    final(project)@,
                    renamed(old(project)@, old_key@, new_key@),
                    project_name@,
                    fresh,
                    now@,
                )))
        }),
{
    match check_rename(old_key, new_key) {
        Ok(()) => {},
        Err(e) => return Err(e),
    }
    if !project.contains_key(old_key) {
        return Ok(false);
    }
    if project.contains_key(new_key) {
        return Err(
            MembraneError::KeyCollision { project: copy_str(project_name), key: copy_str(new_key) },
        );
    }
    let ghost before = project@;
    let value = match project.shift_remove(old_key) {
        Some(v) => v,
        None => return Ok(false),
    };
    project.insert(copy_str(new_key), value);
    assert(project@ == renamed(before, old_key@, new_key@));
    recanonicalize(project, project_name, now);
    Ok(true)
}

} // verus!
