use vstd::prelude::*;
use crate::error::MembraneError;
use crate::project::{lookup, Fields, Project};
use crate::store::{create_project, is_canonical, name_key};
use crate::text::{contains_text, lower_of, push_char, texts, to_lowercase, trim, trim_of};
use crate::value::Value;
use vstd::string::StrSliceExecFns;

verus! {

/// What `Path::file_stem` gives for a path: its last component without the
/// extension, if any.
pub uninterp spec fn file_stem_of(path: Seq<char>) -> Option<Seq<char>>;

/// Relies on `Path::file_stem`: the last component of the path without its
/// extension.
#[verifier::external_body]
fn path_stem(path: &str) -> (r: Option<String>)
    ensures
        match r {
            Some(s) => file_stem_of(path@) == Some(s@),
            None => file_stem_of(path@) is None,
        },
{
    std::path::Path::new(path).file_stem().and_then(|s| s.to_str()).map(|s| s.to_string())
}

/// A character that a slug writes as a hyphen.
pub open spec fn becomes_hyphen(c: char) -> bool {
    c == ' ' || c == '_'
}

/// The slug of a name: trimmed, lower-cased, spaces and underscores made
/// hyphens.
pub open spec fn slug_of(s: Seq<char>) -> Seq<char> {
    lower_of(trim_of(s)).map_values(|c: char| if becomes_hyphen(c) { '-' } else { c })
}

/// The name under which a pushed document is stored: the slug of the name
/// given, else of the document's own `name`, else of the source file's stem.
pub open spec fn push_name(as_name: Option<&str>, f: Fields, file_path: Option<&str>) -> Option<Seq<char>> {
    match as_name {
        Some(n) => Some(slug_of(n@)),
        None => match lookup(f, name_key()) {
            Some(Value::String(n)) => Some(slug_of(n@)),
            _ => match file_path {
                Some(p) => match file_stem_of(p@) {
                    Some(stem) => Some(slug_of(stem)),
                    None => None,
                },
                None => None,
            },
        },
    }
}

/// Turns a project name into a file-system-safe slug: trims it, lower-cases
/// it and writes spaces and underscores as hyphens.
pub fn slugify(input: &str) -> (r: String)
    ensures
        r@ == slug_of(input@),
{
    let lower = to_lowercase(trim(input));
    let s = lower.as_str();
    let n = s.unicode_len();
    let mut out = String::new();
    let mut i: usize = 0;
    while i < n
        invariant
            i <= n,
            n == s@.len(),
            s@ == lower_of(trim_of(input@)),
            out@ == s@.subrange(0, i as int).map_values(
                |c: char| if becomes_hyphen(c) { '-' } else { c },
            ),
        decreases n - i,
    {
        let c = s.get_char(i);
        if c == ' ' || c == '_' {
            push_char(&mut out, '-');
        } else {
            push_char(&mut out, c);
        }
        assert(out@ =~= s@.subrange(0, i + 1).map_values(
            |c: char| if becomes_hyphen(c) { '-' } else { c },
        ));
        i += 1;
    }
    assert(s@.subrange(0, n as int) =~= s@);
    out
}

/// Picks the name of a pushed document: the slug of `as_name` when given,
/// else of the document's string `name`, else of the stem of the source
/// file. Without any of them the name is missing.
pub fn resolve_project_name(as_name: Option<&str>, data: &Project, file_path: Option<&str>) -> (r:
    Result<String, MembraneError>)
    ensures
        match push_name(as_name, data@, file_path) {
            Some(name) => r matches Ok(s) && s@ == name,
            None => r matches Err(MembraneError::NameMissing),
        },
{
    proof {
        reveal_strlit("name");
        assert("name"@ =~= name_key());
    }
    if let Some(name) = as_name {
        return Ok(slugify(name));
    }
    if let Some(Value::String(name)) = data.get("name") {
        return Ok(slugify(name.as_str()));
    }
    if let Some(path) = file_path {
        if let Some(stem) = path_stem(path) {
            return Ok(slugify(stem.as_str()));
        }
    }
    Err(MembraneError::NameMissing)
}

/// Prepares a pushed document for storage: picks its name, refuses a name
/// among `taken` (the documents already stored), and canonicalizes it.
/// Returns the name and the document to write.
pub fn run(
    data: Project,
    as_name: Option<&str>,
    file_path: Option<&str>,
    taken: &Vec<String>,
    now: &str,
) -> (r: Result<(String, Project), MembraneError>)
    ensures
        match push_name(as_name, data@, file_path) {
            None => r matches Err(MembraneError::NameMissing),
            Some(name) => if texts(taken@).contains(name) {
                (r matches Err(MembraneError::AlreadyExists { name: n }) && n@ == name)
            } else {
                (r matches Ok((n, p)) && n@ == name && exists|fresh: Seq<char>|
                    fresh.len() == 36 && is_canonical(p@, data@, name, fresh, now@))
            },
        },
{
    let name = match resolve_project_name(as_name, &data, file_path) {
        Ok(name) => name,
        Err(e) => return Err(e),
    };
    let exists = contains_text(taken, &name);
    match create_project(name.as_str(), data, exists, now) {
        Ok(p) => Ok((name, p)),
        Err(e) => Err(e),
    }
}

} // verus!
