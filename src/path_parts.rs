use vstd::prelude::*;

verus! {

/// One component of a filesystem path, as camino parses it.
#[derive(Debug, Clone, PartialEq, Eq)]
pub enum PathComponent {
    Prefix(String),
    RootDir,
    CurDir,
    ParentDir,
    Normal(String),
}

/// The components that camino finds in a path written as text.
pub uninterp spec fn path_components(s: Seq<char>) -> Seq<PathComponent>;

/// The path that camino builds by adjoining `part` to `base`.
pub uninterp spec fn path_join(base: Seq<char>, part: Seq<char>) -> Seq<char>;

/// The extension that camino finds in the file name of a path.
pub uninterp spec fn path_extension(s: Seq<char>) -> Option<Seq<char>>;

/// What is left of `path` once the leading components of `base` are taken off,
/// where `path` starts with them.
pub uninterp spec fn path_strip_prefix(path: Seq<char>, base: Seq<char>) -> Option<Seq<char>>;

/// The path without its last component, if it has one.
pub uninterp spec fn path_parent(path: Seq<char>) -> Option<Seq<char>>;

/// The path with its extension replaced by `ext`.
pub uninterp spec fn path_with_extension(path: Seq<char>, ext: Seq<char>) -> Seq<char>;

/// The text of one component, as its `to_string` writes it.
pub open spec fn component_text(c: PathComponent) -> Seq<char> {
    match c {
        PathComponent::Prefix(s) => s@,
        PathComponent::RootDir => seq!['/'],
        PathComponent::CurDir => seq!['.'],
        PathComponent::ParentDir => seq!['.', '.'],
        PathComponent::Normal(s) => s@,
    }
}

/// The texts of a sequence of components.
pub open spec fn texts(cs: Seq<PathComponent>) -> Seq<Seq<char>> {
    cs.map_values(|c: PathComponent| component_text(c))
}

/// The views of a vector of strings.
pub open spec fn views(v: Seq<String>) -> Seq<Seq<char>> {
    v.map_values(|s: String| s@)
}

/// Whether `prefix` is an initial segment of `s`.
pub open spec fn is_prefix_of<T>(prefix: Seq<T>, s: Seq<T>) -> bool {
    prefix.len() <= s.len() && s.subrange(0, prefix.len() as int) == prefix
}

/// Parts joined with a separator between each two of them.
pub open spec fn joined(parts: Seq<Seq<char>>, sep: Seq<char>) -> Seq<char>
    decreases parts.len(),
{
    if parts.len() == 0 {
        Seq::empty()
    } else if parts.len() == 1 {
        parts[0]
    } else {
        joined(parts.drop_last(), sep) + sep + parts.last()
    }
}

/// Relies on camino's `Utf8Path::components`: the components of the path, in order,
/// each mapped one for one to a `PathComponent`.
#[verifier::external_body]
pub(crate) fn components(s: &str) -> (r: Vec<PathComponent>)
    ensures
        r@ == path_components(s@),
{
    camino::Utf8Path::new(s).components().map(|c| match c {
        camino::Utf8Component::Prefix(p) => PathComponent::Prefix(p.as_str().to_string()),
        camino::Utf8Component::RootDir => PathComponent::RootDir,
        camino::Utf8Component::CurDir => PathComponent::CurDir,
        camino::Utf8Component::ParentDir => PathComponent::ParentDir,
        camino::Utf8Component::Normal(n) => PathComponent::Normal(n.to_string()),
    }).collect()
}

/// Relies on camino's `Utf8Path::join`: `part` adjoined to `base`.
#[verifier::external_body]
pub(crate) fn join_path(base: &str, part: &str) -> (r: String)
    ensures
        r@ == path_join(base@, part@),
{
    camino::Utf8Path::new(base).join(part).into_string()
}

/// Relies on camino's `Utf8Path::extension`: the extension of the file name, if any.
#[verifier::external_body]
pub(crate) fn extension(s: &str) -> (r: Option<String>)
    ensures
        match r {
            Some(e) => path_extension(s@) == Some(e@),
            None => path_extension(s@) is None,
        },
{
    camino::Utf8Path::new(s).extension().map(|e| e.to_string())
}

/// Relies on camino's `Utf8Path::strip_prefix`: the rest of the path under `base`,
/// if it lies under it.
#[verifier::external_body]
pub(crate) fn strip_prefix(path: &str, base: &str) -> (r: Option<String>)
    ensures
        match r {
            Some(t) => path_strip_prefix(path@, base@) == Some(t@),
            None => path_strip_prefix(path@, base@) is None,
        },
{
    camino::Utf8Path::new(path).strip_prefix(base).ok().map(|p| p.as_str().to_string())
}

/// Relies on camino's `Utf8Path::with_extension`: the path with the extension `ext`,
/// which may not hold a path separator (std's `set_extension` panics on one).
#[verifier::external_body]
pub(crate) fn with_extension(path: &str, ext: &str) -> (r: String)
    requires
        !ext@.contains('/'),
    ensures
        r@ == path_with_extension(path@, ext@),
{
    camino::Utf8Path::new(path).with_extension(ext).into_string()
}

/// Relies on camino's `Utf8Path::parent`: the path without its last component.
#[verifier::external_body]
pub(crate) fn parent(path: &str) -> (r: Option<String>)
    ensures
        match r {
            Some(p) => path_parent(path@) == Some(p@),
            None => path_parent(path@) is None,
        },
{
    camino::Utf8Path::new(path).parent().map(|p| p.as_str().to_string())
}

/// Relies on `String::push`: the character is appended at the end.
#[verifier::external_body]
pub(crate) fn push_char(s: &mut String, c: char)
    ensures
        final(s)@ == old(s)@.push(c),
{
    s.push(c)
}

/// A copy of a component.
pub fn copy_component(c: &PathComponent) -> (r: PathComponent)
    ensures
        r == *c,
{
    match c {
        PathComponent::Prefix(s) => PathComponent::Prefix(s.clone()),
        PathComponent::RootDir => PathComponent::RootDir,
        PathComponent::CurDir => PathComponent::CurDir,
        PathComponent::ParentDir => PathComponent::ParentDir,
        PathComponent::Normal(s) => PathComponent::Normal(s.clone()),
    }
}

/// The text of one component.
pub fn component_string(c: &PathComponent) -> (r: String)
    ensures
        r@ == component_text(*c),
{
    match c {
        PathComponent::Prefix(s) => s.clone(),
        PathComponent::RootDir => {
            proof {
                reveal_strlit("/");
            }
            String::from_str("/")
        },
        PathComponent::CurDir => {
            proof {
                reveal_strlit(".");
            }
            String::from_str(".")
        },
        PathComponent::ParentDir => {
            proof {
                reveal_strlit("..");
            }
            String::from_str("..")
        },
        PathComponent::Normal(s) => s.clone(),
    }
}

/// The texts of the components of a path.
pub fn component_strings(s: &str) -> (r: Vec<String>)
    ensures
        views(r@) == texts(path_components(s@)),
{
    let cs = components(s);
    let mut out: Vec<String> = Vec::new();
    let mut i: usize = 0;
    while i < cs.len()
        invariant
            cs@ == path_components(s@),
            i <= cs.len(),
            views(out@) == texts(cs@.subrange(0, i as int)),
        decreases cs.len() - i,
    {
        let t = component_string(&cs[i]);
        let ghost before = out@;
        out.push(t);
        proof {
            assert(cs@.subrange(0, i + 1) =~= cs@.subrange(0, i as int).push(cs@[i as int]));
            assert(out@ == before.push(t));
            assert(views(out@) =~= views(before).push(t@));
            assert(texts(cs@.subrange(0, i + 1)) =~= texts(cs@.subrange(0, i as int)).push(
                component_text(cs@[i as int]),
            ));
        }
        i = i + 1;
    }
    proof {
        assert(cs@.subrange(0, cs.len() as int) == cs@);
    }
    out
}

/// Copies a vector of strings.
pub fn copy_strings(v: &Vec<String>) -> (r: Vec<String>)
    ensures
        r@ == v@,
{
    let mut out: Vec<String> = Vec::new();
    let mut i: usize = 0;
    while i < v.len()
        invariant
            i <= v.len(),
            out@ == v@.subrange(0, i as int),
        decreases v.len() - i,
    {
        out.push(v[i].clone());
        proof {
            assert(out@ =~= v@.subrange(0, i + 1));
        }
        i = i + 1;
    }
    proof {
        assert(out@ =~= v@);
    }
    out
}

/// The strings joined with `sep` between each two of them.
pub fn join_strings(parts: &Vec<String>, sep: &str) -> (r: String)
    ensures
        r@ == joined(views(parts@), sep@),
{
    let mut out = String::new();
    let mut i: usize = 0;
    while i < parts.len()
        invariant
            i <= parts.len(),
            out@ == joined(views(parts@.subrange(0, i as int)), sep@),
        decreases parts.len() - i,
    {
        proof {
            let prev = views(parts@.subrange(0, i as int));
            let next = views(parts@.subrange(0, i + 1));
            assert(next.drop_last() =~= prev);
            assert(next.last() == parts@[i as int]@);
            if i == 0 {
                assert(next.len() == 1);
            }
        }
        if i > 0 {
            out.append(sep);
        }
        out.append(parts[i].as_str());
        i = i + 1;
    }
    proof {
        assert(parts@.subrange(0, parts.len() as int) =~= parts@);
    }
    out
}

} // verus!
