use vstd::prelude::*;

use crate::config::OutputFormat;
use crate::link::{self, typst_part, FilePart, Link, To};
use crate::node::{self, has_path, File, Id, Node, NodeKind};
use crate::path_parts::{
    extension, join_path, path_extension, path_join, path_strip_prefix, path_with_extension,
    strip_prefix, with_extension,
};

verus! {

/// The metadata that a file declares about itself.
#[derive(Debug, Clone, PartialEq)]
pub struct Frontmatter {
    pub title: String,
    pub tags: Vec<String>,
    pub names: Vec<String>,
    pub private: bool,
}

/// A link as the extractor reports it: its text, its target, and whether the
/// target still has to be looked up.
#[derive(Debug, Clone, PartialEq)]
pub struct RawLink {
    pub content: String,
    pub to: String,
    pub unresolved: bool,
}

#[derive(Debug, Clone, PartialEq)]
pub enum ShallowError {
    /// Only `.typ` files can be built.
    InvalidFormat(String),
    /// A file without extension cannot be built.
    NoFormat,
    /// The file declares no frontmatter.
    MissingFrontmatter,
    /// The extractor failed, with its exit code and message.
    Extraction(i32, String),
    /// The renderer failed.
    Render(String),
}

/// The kinds of artifact that rendering writes.
#[derive(Debug, Clone, Copy, PartialEq, Eq)]
pub enum Format {
    Html,
    Pdf,
}

/// Accepts a file that has the one supported extension, `typ`.
pub fn check_format(path: &str) -> (r: Result<(), ShallowError>)
    ensures
        match r {
            Ok(()) => format_ok(path@),
            Err(e) => !format_ok(path@) && format_error(e, path@),
        },
{
    match extension(path) {
        None => Err(ShallowError::NoFormat),
        Some(e) => {
            proof {
                reveal_strlit("typ");
                assert("typ"@ =~= seq!['t', 'y', 'p']);
            }
            let typ = String::from_str("typ");
            if e == typ {
                Ok(())
            } else {
                Err(ShallowError::InvalidFormat(e))
            }
        },
    }
}

/// The extractor's report that no frontmatter element exists.
pub open spec fn no_frontmatter_message() -> Seq<char> {
    "error: expected exactly one element, found 0\n"@
}

/// The error that a failed frontmatter query stands for: a missing frontmatter
/// where the extractor says it found no element, else the failure itself.
pub fn frontmatter_query_error(code: i32, message: String) -> (r: ShallowError)
    ensures
        message@ == no_frontmatter_message() ==> r == ShallowError::MissingFrontmatter,
        message@ != no_frontmatter_message() ==> r == ShallowError::Extraction(code, message),
{
    let expected = String::from_str("error: expected exactly one element, found 0\n");
    if message == expected {
        ShallowError::MissingFrontmatter
    } else {
        ShallowError::Extraction(code, message)
    }
}

/// The artifacts that an output format asks for, in the order they are rendered.
pub fn render_formats(format: OutputFormat) -> (r: Vec<Format>)
    ensures
        format == OutputFormat::Html ==> r@ == seq![Format::Html],
        format == OutputFormat::Pdf ==> r@ == seq![Format::Pdf],
        format == OutputFormat::HtmlAndPdf ==> r@ == seq![Format::Html, Format::Pdf],
{
    let mut r: Vec<Format> = Vec::new();
    match format {
        OutputFormat::Html => r.push(Format::Html),
        OutputFormat::Pdf => r.push(Format::Pdf),
        OutputFormat::HtmlAndPdf => {
            r.push(Format::Html);
            r.push(Format::Pdf);
        },
    }
    r
}

/// Where the artifact of a source file goes: the same path under `build` in
/// the root, with the artifact's extension. `None` where the file is not under the root.
/// The extension holds no path separator.
pub open spec fn build_path(root: Seq<char>, path: Seq<char>, extension: Seq<char>) -> Option<Seq<char>> {
    match path_strip_prefix(path, root) {
        Some(rel) => Some(
            path_with_extension(
                path_join(path_join(root, seq!['b', 'u', 'i', 'l', 'd']), rel),
                extension,
            ),
        ),
        None => None,
    }
}

/// The path of the artifact with `extension` for the source file `path`,
/// mirrored under `build` in `root`; both paths should be canonical.
pub fn src_to_build_path(root: &str, path: &str, extension: &str) -> (r: Option<String>)
    requires
        !extension@.contains('/'),
    ensures
        match r {
            Some(o) => build_path(root@, path@, extension@) == Some(o@),
            None => build_path(root@, path@, extension@) is None,
        },
{
    let rel = match strip_prefix(path, root) {
        Some(t) => t,
        None => return None,
    };
    proof {
        reveal_strlit("build");
        assert("build"@ =~= seq!['b', 'u', 'i', 'l', 'd']);
    }
    let out_dir = join_path(root, "build");
    let out = join_path(out_dir.as_str(), rel.as_str());
    Some(with_extension(out.as_str(), extension))
}

/// Whether an extracted link is kept: a resolved one always, a ghost one where
/// its target can be read.
pub open spec fn raw_kept(raw: RawLink) -> bool {
    !raw.unresolved || typst_part(raw.to@) is Some
}

/// The extracted links that are kept, in order.
pub open spec fn kept_raw(raws: Seq<RawLink>) -> Seq<RawLink>
    decreases raws.len(),
{
    if raws.len() == 0 {
        Seq::empty()
    } else if raw_kept(raws.last()) {
        kept_raw(raws.drop_last()).push(raws.last())
    } else {
        kept_raw(raws.drop_last())
    }
}

/// Whether `l` is the link that node `id` gets for the extracted link `raw`.
pub open spec fn link_from_raw(l: Link, id: Id, raw: RawLink) -> bool {
    &&& l.from == id
    &&& l.location is None
    &&& l.alias is None
    &&& if !raw.unresolved {
        l.to matches To::Id(t) && t.0@ == raw.to@
    } else {
        l.to matches To::GhostTarget(fp) && typst_part(raw.to@) == Some(fp@)
    }
}

/// The links that do not start at node `id`, in order.
pub open spec fn links_not_from(links: Seq<Link>, id: Seq<char>) -> Seq<Link>
    decreases links.len(),
{
    if links.len() == 0 {
        Seq::empty()
    } else if links.last().from.0@ != id {
        links_not_from(links.drop_last(), id).push(links.last())
    } else {
        links_not_from(links.drop_last(), id)
    }
}

/// A node with its extracted metadata put in place.
pub open spec fn refreshed(n: Node, fm: Frontmatter) -> Node {
    Node {
        id: n.id,
        path: n.path,
        kind: n.kind,
        title: fm.title,
        names: fm.names,
        tags: fm.tags,
        private: fm.private,
    }
}

/// The links that node `id` gets for the extracted links: one for each kept
/// link, in order.
pub fn links_from_raw(id: &Id, raws: &Vec<RawLink>) -> (r: Vec<Link>)
    ensures
        r@.len() == kept_raw(raws@).len(),
        forall|k: int| 0 <= k < r@.len() ==> link_from_raw(r@[k], *id, kept_raw(raws@)[k]),
{
    let mut out: Vec<Link> = Vec::new();
    let mut i: usize = 0;
    while i < raws.len()
        invariant
            i <= raws@.len(),
            out@.len() == kept_raw(raws@.subrange(0, i as int)).len(),
            forall|k: int|
                0 <= k < out@.len() ==> link_from_raw(
                    out@[k],
                    *id,
                    kept_raw(raws@.subrange(0, i as int))[k],
                ),
        decreases raws@.len() - i,
    {
        let raw = &raws[i];
        let ghost s = raws@.subrange(0, i + 1);
        proof {
            assert(s.drop_last() =~= raws@.subrange(0, i as int));
            assert(s.last() == raws@[i as int]);
        }
        if !raw.unresolved {
            let l = Link {
                from: id.copy(),
                to: To::Id(Id(raw.to.clone())),
                location: None,
                alias: None,
            };
            out.push(l);
        } else {
            match FilePart::from_typst_style(raw.to.as_str()) {
                Some(fp) => {
                    let l = Link { from: id.copy(), to: To::GhostTarget(fp), location: None, alias: None };
                    out.push(l);
                },
                None => {},
            }
        }
        i = i + 1;
    }
    proof {
        assert(raws@.subrange(0, raws@.len() as int) =~= raws@);
    }
    out
}

/// The links that do not start at node `id`; the others are dropped.
pub fn remove_links_from(links: &mut link::Db, id: &Id)
    ensures
        final(links).links@ == links_not_from(old(links).links@, id.0@),
{
    let mut old_links: Vec<Link> = Vec::new();
    std::mem::swap(&mut old_links, &mut links.links);
    let ghost all = old_links@;
    let mut kept: Vec<Link> = Vec::new();
    for l in it: old_links.into_iter()
        invariant
            it.seq() == all,
            kept@ == links_not_from(all.subrange(0, it.index() as int), id.0@),
    {
        proof {
            let s = all.subrange(0, it.index() as int + 1);
            assert(s.drop_last() =~= all.subrange(0, it.index() as int));
            assert(s.last() == l);
        }
        if !l.from.same(id) {
            kept.push(l);
        }
    }
    proof {
        assert(all.subrange(0, all.len() as int) =~= all);
    }
    links.links = kept;
}

/// Whether the file has the one supported extension, `typ`.
pub open spec fn format_ok(path: Seq<char>) -> bool {
    path_extension(path) == Some(seq!['t', 'y', 'p'])
}

/// Whether `e` is the error that the extension of `path` calls for.
pub open spec fn format_error(e: ShallowError, path: Seq<char>) -> bool {
    match e {
        ShallowError::NoFormat => path_extension(path) is None,
        ShallowError::InvalidFormat(x) => path_extension(path) == Some(x@) && x@ != seq!['t', 'y', 'p'],
        _ => false,
    }
}

/// What a shallow build makes of the nodes: the node with the canonical path
/// gets the new metadata and keeps its id, the others stay as they are; where
/// no node has that path, a node with the file's id is added. `id` is the id
/// of the built node.
pub open spec fn nodes_after_shallow(
    old_nodes: Seq<Node>,
    new_nodes: Seq<Node>,
    file: File,
    canonical_path: String,
    frontmatter: Frontmatter,
    id: Id,
) -> bool {
    if has_path(old_nodes, canonical_path@) {
        exists|i: int|
            0 <= i < old_nodes.len() && old_nodes[i].path@ == canonical_path@ && id == old_nodes[i].id
                && new_nodes == old_nodes.update(i, refreshed(old_nodes[i], frontmatter))
    } else {
        id == file.id && new_nodes == old_nodes.push(
            Node {
                id: file.id,
                path: canonical_path,
                kind: NodeKind::File,
                title: frontmatter.title,
                names: frontmatter.names,
                tags: frontmatter.tags,
                private: frontmatter.private,
            },
        )
    }
}

/// What a shallow build makes of the links: those that do not start at the
/// built node stay, in order, and one link for each kept extracted link follows.
pub open spec fn links_after_shallow(
    old_links: Seq<Link>,
    new_links: Seq<Link>,
    id: Id,
    raw_links: Seq<RawLink>,
) -> bool {
    let kept = links_not_from(old_links, id.0@);
    &&& new_links.len() == kept.len() + kept_raw(raw_links).len()
    &&& new_links.subrange(0, kept.len() as int) == kept
    &&& forall|k: int|
        0 <= k < kept_raw(raw_links).len() ==> link_from_raw(
            #[trigger] new_links[kept.len() + k],
            id,
            kept_raw(raw_links)[k],
        )
}

/// Refreshes one file: a file without the `typ` extension is refused and
/// nothing changes; otherwise the node with the file's canonical path gets the
/// extracted metadata and keeps its id (a new node with the file's id is added
/// where none has that path), every link that started at it is dropped, and the
/// extracted links take their place. Returns the node's id.
pub fn shallow(
    nodes: &mut node::Db,
    links: &mut link::Db,
    file: &File,
    canonical_path: &String,
    frontmatter: Frontmatter,
    raw_links: &Vec<RawLink>,
) -> (r: Result<Id, ShallowError>)
    requires
        old(nodes).wf(),
    ensures
        final(nodes).wf(),
        match r {
            Ok(id) => {
                &&& format_ok(file.path@)
                &&& nodes_after_shallow(
                    old(nodes).nodes@,
                    final(nodes).nodes@,
                    *file,
                    *canonical_path,
                    frontmatter,
                    id,
                )
                &&& links_after_shallow(old(links).links@, final(links).links@, id, raw_links@)
            },
            Err(e) => {
                &&& !format_ok(file.path@)
                &&& format_error(e, file.path@)
                &&& *final(nodes) == *old(nodes)
                &&& *final(links) == *old(links)
            },
        },
{
    match check_format(file.path.as_str()) {
        Ok(()) => {},
        Err(e) => return Err(e),
    }
    Ok(refresh(nodes, links, file, canonical_path, frontmatter, raw_links))
}

/// Puts the extracted metadata and links of one file in place; returns the node's id.
fn refresh(
    nodes: &mut node::Db,
    links: &mut link::Db,
    file: &File,
    canonical_path: &String,
    frontmatter: Frontmatter,
    raw_links: &Vec<RawLink>,
) -> (r: Id)
    requires
        old(nodes).wf(),
    ensures
        final(nodes).wf(),
        nodes_after_shallow(
            old(nodes).nodes@,
            final(nodes).nodes@,
            *file,
            *canonical_path,
            frontmatter,
            r,
        ),
        links_after_shallow(old(links).links@, final(links).links@, r, raw_links@),
{
    let my_id = match nodes.position_of_path(canonical_path) {
        Some(i) => {
            let ghost before = nodes.nodes@;
            nodes.nodes[i].title = frontmatter.title;
            nodes.nodes[i].names = frontmatter.names;
            nodes.nodes[i].tags = frontmatter.tags;
            nodes.nodes[i].private = frontmatter.private;
            proof {
                assert(nodes.nodes@ =~= before.update(i as int, refreshed(before[i as int], frontmatter)));
                assert forall|a: int, b: int|
                    0 <= a < nodes.nodes@.len() && 0 <= b < nodes.nodes@.len() && a != b
                        implies nodes.nodes@[a].path@ != nodes.nodes@[b].path@ by {
                    assert(nodes.nodes@[a].path == before[a].path);
                    assert(nodes.nodes@[b].path == before[b].path);
                }
            }
            nodes.nodes[i].id.copy()
        },
        None => {
            let f = File { id: file.id.copy(), path: canonical_path.clone() };
            let n = f.into_node(frontmatter.title, frontmatter.names, frontmatter.tags, frontmatter.private);
            nodes.nodes.push(n);
            file.id.copy()
        },
    };
    remove_links_from(links, &my_id);
    let ghost kept = links.links@;
    let new_links = links_from_raw(&my_id, raw_links);
    for l in it: new_links.into_iter()
        invariant
            it.seq() == new_links@,
            links.links@ == kept + it.seq().subrange(0, it.index() as int),
    {
        proof {
            assert(kept + it.seq().subrange(0, it.index() as int + 1) =~= (kept + it.seq().subrange(
                0,
                it.index() as int,
            )).push(l));
        }
        links.links.push(l);
    }
    proof {
        assert(new_links@.subrange(0, new_links@.len() as int) =~= new_links@);
        assert(links.links@.subrange(0, kept.len() as int) =~= kept);
    }
    my_id
}

} // verus!
