use vstd::prelude::*;
use crate::error::MembraneError;
use crate::ident::new_uuid;
use crate::seqs::lemma_filter_push;
use crate::text::{contains_text, copy_str, eq_str, texts, first_chars, is_prefix, starts_with, take_chars, trim, trim_of};
use vstd::string::StrSliceExecFns;

verus! {

/// One workspace known to the registry.
#[derive(Debug, Clone, PartialEq)]
pub struct WorkspaceEntry {
    /// The identifier minted for the workspace root.
    pub id: String,
    /// The workspace root, an absolute path.
    pub root: String,
    /// When the workspace was last registered.
    pub last_seen: String,
}

/// The global registry: the known workspaces and the active one.
#[derive(Debug, Clone, PartialEq)]
pub struct GlobalIndex {
    pub active: Option<String>,
    pub workspaces: Vec<WorkspaceEntry>,
}

/// What a prune did.
#[derive(Debug, Clone, Copy, PartialEq)]
pub struct PruneReport {
    /// How many entries were removed.
    pub removed: usize,
    /// Whether the active workspace was among them, so that none is active now.
    pub orphaned: bool,
}

/// Some entry has identifier `id`.
pub open spec fn has_entry(ws: Seq<WorkspaceEntry>, id: Seq<char>) -> bool {
    exists|i: int| 0 <= i < ws.len() && ws[i].id@ == id
}

/// Entry `i` is the first with identifier `id`.
pub open spec fn is_first_entry(ws: Seq<WorkspaceEntry>, id: Seq<char>, i: int) -> bool {
    &&& 0 <= i < ws.len()
    &&& ws[i].id@ == id
    &&& forall|j: int| 0 <= j < i ==> ws[j].id@ != id
}

/// The active identifier, if any, names a known workspace.
pub open spec fn index_consistent(index: GlobalIndex) -> bool {
    index.active matches Some(a) ==> has_entry(index.workspaces@, a@)
}

/// The test that an entry's identifier starts with `prefix`.
pub open spec fn id_starts(prefix: Seq<char>) -> spec_fn(WorkspaceEntry) -> bool {
    |w: WorkspaceEntry| is_prefix(prefix, w.id@)
}

/// The test that an entry's root is among `roots`.
pub open spec fn root_among(roots: Seq<Seq<char>>) -> spec_fn(WorkspaceEntry) -> bool {
    |w: WorkspaceEntry| roots.contains(w.root@)
}

/// Finds the first entry with identifier `id`.
fn find_entry(ws: &Vec<WorkspaceEntry>, id: &str) -> (r: Option<usize>)
    ensures
        match r {
            Some(i) => is_first_entry(ws@, id@, i as int),
            None => !has_entry(ws@, id@),
        },
{
    let mut i: usize = 0;
    while i < ws.len()
        invariant
            i <= ws@.len(),
            forall|j: int| 0 <= j < i ==> ws@[j].id@ != id@,
        decreases ws@.len() - i,
    {
        if eq_str(&ws[i].id, id) {
            return Some(i);
        }
        i += 1;
    }
    None
}

/// Registers a workspace or refreshes it: a known identifier keeps its entry,
/// whose root and time are updated; a new one is added last. When no
/// workspace is active, this one becomes active.
pub fn register_workspace(index: &mut GlobalIndex, id: &str, root: &str, now: &str)
    ensures
        ({
            let ws = old(index).workspaces@;
            let ws2 = final(index).workspaces@;
            &&& has_entry(ws, id@) ==> exists|i: int|
                is_first_entry(ws, id@, i) && ws2.len() == ws.len() && (forall|j: int|
                    0 <= j < ws.len() && j != i ==> ws2[j] == ws[j]) && ws2[i].id == ws[i].id
                    && ws2[i].root@ == root@ && ws2[i].last_seen@ == now@
            &&& !has_entry(ws, id@) ==> ws2.len() == ws.len() + 1 && ws2.subrange(0, ws.len() as int)
                == ws && ws2.last().id@ == id@ && ws2.last().root@ == root@ && ws2.last().last_seen@
                == now@
        }),
        old(index).active is None ==> final(index).active is Some
            && final(index).active.unwrap()@ == id@,
        old(index).active is Some ==> final(index).active == old(index).active,
        index_consistent(*old(index)) ==> index_consistent(*final(index)),
{
    let ghost ws = index.workspaces@;
    match find_entry(&index.workspaces, id) {
        Some(i) => {
            let mut e = index.workspaces.remove(i);
            e.root = copy_str(root);
            e.last_seen = copy_str(now);
            index.workspaces.insert(i, e);
            assert forall|j: int| 0 <= j < ws.len() && j != i implies index.workspaces@[j] == ws[j] by {}
        },
        None => {
            index.workspaces.push(
                WorkspaceEntry { id: copy_str(id), root: copy_str(root), last_seen: copy_str(now) },
            );
            assert(index.workspaces@.subrange(0, ws.len() as int) =~= ws);
        },
    }
    if index.active.is_none() {
        index.active = Some(copy_str(id));
    }
    proof {
        let ws2 = index.workspaces@;
        if index.active is Some {
            let a = index.active.unwrap();
            if has_entry(ws, a@) {
                let j = choose|j: int| 0 <= j < ws.len() && ws[j].id@ == a@;
                assert(ws2[j].id@ == a@);
            } else if has_entry(ws, id@) {
                let k = choose|k: int| is_first_entry(ws, id@, k);
                assert(ws2[k].id@ == id@);
            } else {
                assert(ws2[ws2.len() - 1].id@ == id@);
            }
        }
    }
}

/// The root of the active workspace. Fails when none is active; when the
/// active identifier has no entry, clears it (the registry heals) and fails.
pub fn active_workspace_root(index: &mut GlobalIndex) -> (r: Result<String, MembraneError>)
    ensures
        match old(index).active {
            None => r matches Err(MembraneError::NoActiveWorkspace) && *final(index) == *old(index),
            Some(a) => if has_entry(old(index).workspaces@, a@) {
                (r matches Ok(root) && *final(index) == *old(index) && exists|i: int|
                    is_first_entry(old(index).workspaces@, a@, i) && root@
                    == old(index).workspaces@[i].root@)
            } else {
                (r matches Err(MembraneError::RegistryInconsistency { id }) && id@ == a@
                    && final(index).active is None && final(index).workspaces
                    == old(index).workspaces)
            },
        },
        index_consistent(*final(index)),
{
    let found = match &index.active {
        None => return Err(MembraneError::NoActiveWorkspace),
        Some(a) => find_entry(&index.workspaces, a.as_str()),
    };
    match found {
        Some(i) => Ok(index.workspaces[i].root.clone()),
        None => {
            let gone = index.active.take();
            match gone {
                Some(id) => Err(MembraneError::RegistryInconsistency { id }),
                None => Err(MembraneError::NoActiveWorkspace),
            }
        },
    }
}

/// Makes the one workspace whose identifier starts with `prefix` active and
/// returns its identifier. No match is a not-found error; several give an
/// ambiguity error listing the first eight characters of each identifier.
pub fn checkout(index: &mut GlobalIndex, prefix: &str) -> (r: Result<String, MembraneError>)
    ensures
        ({
            let m = old(index).workspaces@.filter(id_starts(prefix@));
            &&& m.len() == 0 ==> (r matches Err(MembraneError::WorkspaceNotFound { token })
                && token@ == prefix@ && *final(index) == *old(index))
            &&& m.len() == 1 ==> (r matches Ok(id) && id@ == m[0].id@ && final(index).active
                is Some && final(index).active.unwrap()@ == m[0].id@ && final(index).workspaces
                == old(index).workspaces)
            &&& m.len() > 1 ==> (r matches Err(MembraneError::Ambiguous { token, candidates })
                && token@ == prefix@ && *final(index) == *old(index) && candidates@.len() == m.len()
                && forall|j: int|
                0 <= j < m.len() ==> (#[trigger] candidates@[j])@ == first_chars(m[j].id@, 8))
        }),
        index_consistent(*old(index)) ==> index_consistent(*final(index)),
{
    let ghost ws = index.workspaces@;
    let ghost pred = id_starts(prefix@);
    let mut picks: Vec<usize> = Vec::new();
    let mut shorts: Vec<String> = Vec::new();
    let n = index.workspaces.len();
    let mut i: usize = 0;
    while i < n
        invariant
            i <= n,
            n == ws.len(),
            index.workspaces@ == ws,
            pred == id_starts(prefix@),
            picks@.len() == ws.subrange(0, i as int).filter(pred).len(),
            shorts@.len() == picks@.len(),
            forall|k: int|
                0 <= k < picks@.len() ==> (#[trigger] picks@[k]) < i && ws[picks@[k] as int]
                    == ws.subrange(0, i as int).filter(pred)[k] && shorts@[k]@ == first_chars(
                    ws.subrange(0, i as int).filter(pred)[k].id@,
                    8,
                ),
        decreases n - i,
    {
        let ghost w = ws[i as int];
        proof {
            assert(ws.subrange(0, i + 1) =~= ws.subrange(0, i as int).push(w));
            lemma_filter_push(ws.subrange(0, i as int), w, pred);
        }
        if starts_with(index.workspaces[i].id.as_str(), prefix) {
            shorts.push(take_chars(index.workspaces[i].id.as_str(), 8));
            picks.push(i);
        }
        i += 1;
    }
    assert(ws.subrange(0, n as int) =~= ws);
    if picks.len() == 0 {
        Err(MembraneError::WorkspaceNotFound { token: copy_str(prefix) })
    } else if picks.len() == 1 {
        let id = index.workspaces[picks[0]].id.clone();
        index.active = Some(index.workspaces[picks[0]].id.clone());
        proof {
            let m = ws.filter(pred);
            assert(ws[picks@[0] as int] == m[0]);
        }
        Ok(id)
    } else {
        proof {
            let m = ws.filter(pred);
            assert forall|j: int| 0 <= j < m.len() implies (#[trigger] shorts@[j])@ == first_chars(
                m[j].id@,
                8,
            ) by {
                assert(picks@[j] < n);
            }
        }
        Err(MembraneError::Ambiguous { token: copy_str(prefix), candidates: shorts })
    }
}

/// Removes every entry whose root is not among `existing_roots` (the roots
/// found on disk), keeping the order of the rest. When the active workspace
/// is gone, clears it and reports it orphaned.
pub fn prune(index: &mut GlobalIndex, existing_roots: &Vec<String>) -> (r: PruneReport)
    ensures
        final(index).workspaces@ == old(index).workspaces@.filter(root_among(texts(existing_roots@))),
        r.removed == old(index).workspaces@.len() - final(index).workspaces@.len(),
        ({
            let gone = old(index).active matches Some(a) && !has_entry(final(index).workspaces@, a@);
            &&& gone ==> final(index).active is None && r.orphaned
            &&& !gone ==> final(index).active == old(index).active && !r.orphaned
        }),
        index_consistent(*final(index)),
{
    let ghost ws = index.workspaces@;
    let ghost pred = root_among(texts(existing_roots@));
    let mut rest: Vec<WorkspaceEntry> = Vec::new();
    std::mem::swap(&mut rest, &mut index.workspaces);
    let n = rest.len();
    let mut kept: Vec<WorkspaceEntry> = Vec::new();
    let mut i: usize = 0;
    while i < n
        invariant
            i <= n,
            n == ws.len(),
            rest@ == ws.subrange(i as int, n as int),
            pred == root_among(texts(existing_roots@)),
            kept@ == ws.subrange(0, i as int).filter(pred),
            kept@.len() <= i,
        decreases n - i,
    {
        let e = rest.remove(0);
        proof {
            assert(e == ws[i as int]);
            assert(ws.subrange(0, i + 1) =~= ws.subrange(0, i as int).push(e));
            lemma_filter_push(ws.subrange(0, i as int), e, pred);
            assert(rest@ =~= ws.subrange(i + 1, n as int));
        }
        if contains_text(existing_roots, &e.root) {
            kept.push(e);
        }
        i += 1;
    }
    assert(ws.subrange(0, n as int) =~= ws);
    let removed = n - kept.len();
    index.workspaces = kept;
    let dangling = match &index.active {
        Some(a) => find_entry(&index.workspaces, a.as_str()).is_none(),
        None => false,
    };
    if dangling {
        index.active = None;
    }
    PruneReport { removed, orphaned: dangling }
}

/// The identifier that a workspace marker file holds: its trimmed text, or
/// none when that is empty.
pub fn marker_id(content: &str) -> (r: Option<String>)
    ensures
        trim_of(content@).len() == 0 ==> r is None,
        trim_of(content@).len() > 0 ==> (r matches Some(id) && id@ == trim_of(content@)),
{
    let t = trim(content);
    if t.unicode_len() == 0 {
        None
    } else {
        Some(copy_str(t))
    }
}

/// The identifier of a workspace: the one its marker holds, or a fresh one
/// when the marker is missing or empty. Returns whether it was minted.
pub fn workspace_id(marker: Option<&str>) -> (r: (String, bool))
    ensures
        match marker {
            Some(c) if trim_of(c@).len() > 0 => r.0@ == trim_of(c@) && !r.1,
            _ => r.0@.len() == 36 && r.1,
        },
{
    match marker {
        Some(c) => match marker_id(c) {
            Some(id) => (id, false),
            None => (new_uuid(), true),
        },
        None => (new_uuid(), true),
    }
}

} // verus!
