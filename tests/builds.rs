use omni::config::{Config, OutputFormat};
use omni::link::{self, FilePart, Link, To};
use omni::node::{self, File, Id, Node, NodeKind};
use omni::partial::{collect_dependants, BuildStep, PartialBuild, PartialError, Phase};
use omni::shallow::{
    check_format, frontmatter_query_error, render_formats, shallow, Frontmatter, RawLink,
    Format, ShallowError,
};

fn s(v: &str) -> String {
    v.to_string()
}

fn strings(v: &[&str]) -> Vec<String> {
    v.iter().map(|x| x.to_string()).collect()
}

fn node(id: &str, path: &str, title: &str, names: &[&str], tags: &[&str]) -> Node {
    Node {
        id: Id(s(id)),
        path: s(path),
        kind: NodeKind::File,
        title: s(title),
        names: strings(names),
        tags: strings(tags),
        private: false,
    }
}

fn link(from: &str, to: To, alias: Option<&str>) -> Link {
    Link { from: Id(s(from)), to, location: None, alias: alias.map(|a| a.to_string()) }
}

fn front(title: &str, names: &[&str], tags: &[&str]) -> Frontmatter {
    Frontmatter { title: s(title), tags: strings(tags), names: strings(names), private: false }
}

fn raw(content: &str, to: &str, unresolved: bool) -> RawLink {
    RawLink { content: s(content), to: s(to), unresolved }
}

#[test]
fn test_shallow_build_typst() {
    let root = "/vault";
    let mut nodes = node::Db {
        nodes: vec![node("id1", "/vault/vector.typ", "Vector", &["vector"], &[])],
    };
    let mut links = link::Db { links: vec![link("id2", To::Id(Id(s("id4555"))), None)] };
    let file = File { id: Id(s("id2")), path: s("matrix.typ") };
    assert_eq!(check_format(&file.path), Ok(()));

    let canonical = format!("{}/{}", root, file.path);
    let id = shallow(
        &mut nodes,
        &mut links,
        &file,
        &canonical,
        front("Matrix", &["matrix", "matrices"], &["linalg", "matrix", "linear"]),
        &vec![raw("vector", "id1", false), raw("singular matrix", "singularity", true)],
    )
    .unwrap();
    assert_eq!(id, Id(s("id2")));

    assert_eq!(
        nodes.nodes,
        vec![
            node("id1", "/vault/vector.typ", "Vector", &["vector"], &[]),
            node(
                "id2",
                "/vault/matrix.typ",
                "Matrix",
                &["matrix", "matrices"],
                &["linalg", "matrix", "linear"]
            ),
        ]
    );
    assert_eq!(
        links.links,
        vec![
            link("id2", To::Id(Id(s("id1"))), None),
            link("id2", To::GhostTarget(FilePart::Name(s("singularity"))), None),
        ],
    );
    assert_eq!(
        render_formats(OutputFormat::HtmlAndPdf),
        vec![Format::Html, Format::Pdf]
    );
}

#[test]
fn test_shallow_build_format_fail() {
    assert_eq!(check_format("matrix"), Err(ShallowError::NoFormat));
    assert_eq!(
        check_format("matrix.CRAZYFORMAT"),
        Err(ShallowError::InvalidFormat(s("CRAZYFORMAT")))
    );
}

#[test]
fn shallow_build_updates_an_existing_node_in_place() {
    let mut nodes = node::Db {
        nodes: vec![node("id1", "/vault/vector.typ", "Vector", &["vector"], &[])],
    };
    let mut links = link::Db {
        links: vec![
            link("id1", To::Id(Id(s("id9"))), None),
            link("id3", To::Id(Id(s("id1"))), None),
        ],
    };
    let file = File { id: Id(s("other")), path: s("vector.typ") };
    let id = shallow(
        &mut nodes,
        &mut links,
        &file,
        &s("/vault/vector.typ"),
        front("Vectors", &["vector", "vec"], &["la"]),
        &vec![raw("bad", "a..b", true)],
    )
    .unwrap();
    assert_eq!(id, Id(s("id1")));
    assert_eq!(
        nodes.nodes,
        vec![node("id1", "/vault/vector.typ", "Vectors", &["vector", "vec"], &["la"])]
    );
    assert_eq!(links.links, vec![link("id3", To::Id(Id(s("id1"))), None)]);
}

#[test]
fn missing_frontmatter_is_told_apart() {
    assert_eq!(
        frontmatter_query_error(1, s("error: expected exactly one element, found 0\n")),
        ShallowError::MissingFrontmatter
    );
    assert_eq!(
        frontmatter_query_error(2, s("error: boom\n")),
        ShallowError::Extraction(2, s("error: boom\n"))
    );
}

#[test]
fn output_formats_name_their_artifacts() {
    assert_eq!(render_formats(OutputFormat::Html), vec![Format::Html]);
    assert_eq!(render_formats(OutputFormat::Pdf), vec![Format::Pdf]);
}

fn shallow_then_collect(
    nodes: &mut node::Db,
    links: &mut link::Db,
    file: &File,
    canonical: &str,
    fm: Frontmatter,
    raws: Vec<RawLink>,
    compile: bool,
) -> Vec<File> {
    let config = Config::new(s("proj"));
    let id = shallow(nodes, links, file, &s(canonical), fm, &raws).unwrap();
    let target = File { id, path: s(canonical) };
    collect_dependants(nodes, links, &target, &config, compile).unwrap()
}

#[test]
fn test_partial_build_typst() {
    let mut nodes = node::Db {
        nodes: vec![
            node("id1", "/vault/vector.typ", "Vector", &["vector"], &[]),
            node("id2", "/vault/gem.typ", "Gaussian Elimination", &["gem"], &[]),
        ],
    };
    let mut links = link::Db {
        links: vec![
            link("id1", To::GhostTarget(FilePart::Name(s("matrix"))), None),
            link("id2", To::GhostTarget(FilePart::Name(s("matrix"))), None),
        ],
    };
    let file = File { id: Id(s("id3")), path: s("matrix.typ") };
    let deps = shallow_then_collect(
        &mut nodes,
        &mut links,
        &file,
        "/vault/matrix.typ",
        front("Matrix", &["matrix", "matrices"], &["linalg", "matrix", "linear"]),
        vec![],
        false,
    );
    assert_eq!(
        deps,
        vec![
            File { id: Id(s("id1")), path: s("/vault/vector.typ") },
            File { id: Id(s("id2")), path: s("/vault/gem.typ") },
        ]
    );
    let dep_fronts = [front("Vector", &["vector"], &[]), front("Gaussian Elimination", &["gem"], &[])];
    for (dep, fm) in deps.iter().zip(dep_fronts) {
        let path = dep.path.clone();
        shallow(&mut nodes, &mut links, dep, &path, fm, &vec![raw("matrix", "id3", false)]).unwrap();
    }

    assert_eq!(
        nodes.nodes,
        vec![
            node("id1", "/vault/vector.typ", "Vector", &["vector"], &[]),
            node("id2", "/vault/gem.typ", "Gaussian Elimination", &["gem"], &[]),
            node(
                "id3",
                "/vault/matrix.typ",
                "Matrix",
                &["matrix", "matrices"],
                &["linalg", "matrix", "linear"]
            ),
        ]
    );
    assert_eq!(
        links.links,
        vec![
            link("id1", To::Id(Id(s("id3"))), None),
            link("id2", To::Id(Id(s("id3"))), None),
        ],
    );
}

#[test]
fn ghost_promotion_rewrites_the_link_and_rebuilds_its_origin() {
    let mut nodes = node::Db { nodes: vec![node("idA", "/vault/a.typ", "A", &["a"], &[])] };
    let mut links = link::Db {
        links: vec![link("idA", To::GhostTarget(FilePart::Name(s("matrix"))), None)],
    };
    let file = File { id: Id(s("idM")), path: s("matrix.typ") };
    let deps = shallow_then_collect(
        &mut nodes,
        &mut links,
        &file,
        "/vault/matrix.typ",
        front("Matrix", &["matrix"], &[]),
        vec![],
        false,
    );
    assert_eq!(links.links, vec![link("idA", To::Id(Id(s("idM"))), None)]);
    assert_eq!(deps, vec![File { id: Id(s("idA")), path: s("/vault/a.typ") }]);
}

#[test]
fn title_change_rebuilds_linkers_without_alias() {
    let mut nodes = node::Db {
        nodes: vec![
            node("idX", "/vault/x.typ", "X", &["x"], &[]),
            node("idZ", "/vault/z.typ", "Z", &["z"], &[]),
            node("idY", "/vault/y.typ", "Old", &["y"], &[]),
        ],
    };
    let mut links = link::Db {
        links: vec![
            link("idX", To::Id(Id(s("idY"))), None),
            link("idZ", To::Id(Id(s("idY"))), Some("my own text")),
        ],
    };
    let file = File { id: Id(s("idY")), path: s("y.typ") };
    let before = links.links.clone();
    let deps = shallow_then_collect(
        &mut nodes.clone(),
        &mut links.clone(),
        &file,
        "/vault/y.typ",
        front("New", &["y"], &[]),
        vec![],
        false,
    );
    assert!(deps.is_empty());
    let deps = shallow_then_collect(
        &mut nodes,
        &mut links,
        &file,
        "/vault/y.typ",
        front("New", &["y"], &[]),
        vec![],
        true,
    );
    assert_eq!(deps, vec![File { id: Id(s("idX")), path: s("/vault/x.typ") }]);
    assert_eq!(links.links, before);
    assert_eq!(nodes.nodes[2].title, "New");
}

#[test]
fn end_to_end_ghost_is_resolved() {
    let mut nodes = node::Db { nodes: vec![] };
    let mut links = link::Db { links: vec![] };
    let vector = File { id: Id(s("vector_id")), path: s("vector.typ") };
    let deps = shallow_then_collect(
        &mut nodes,
        &mut links,
        &vector,
        "/vault/vector.typ",
        front("Vector", &["vector"], &[]),
        vec![raw("matrix", "matrix", true)],
        true,
    );
    assert!(deps.is_empty());
    assert_eq!(
        links.links,
        vec![link("vector_id", To::GhostTarget(FilePart::Name(s("matrix"))), None)]
    );

    let matrix = File { id: Id(s("matrix_id")), path: s("matrix.typ") };
    let deps = shallow_then_collect(
        &mut nodes,
        &mut links,
        &matrix,
        "/vault/matrix.typ",
        front("Matrix", &["matrix", "matrices"], &[]),
        vec![],
        true,
    );
    assert_eq!(deps, vec![File { id: Id(s("vector_id")), path: s("/vault/vector.typ") }]);
    assert_eq!(links.links, vec![link("vector_id", To::Id(Id(s("matrix_id"))), None)]);
    assert!(links.links.iter().all(|l| !matches!(l.to, To::GhostTarget(_))));
}

#[test]
fn ambiguous_ghost_aborts_collection() {
    let nodes = node::Db {
        nodes: vec![
            node("id1", "/vault/a/vector.typ", "V", &["vector"], &[]),
            node("id2", "/vault/b/vector.typ", "V", &["vector"], &[]),
        ],
    };
    let mut links = link::Db {
        links: vec![link("id1", To::GhostTarget(FilePart::Name(s("vector"))), None)],
    };
    let file = File { id: Id(s("id1")), path: s("/vault/a/vector.typ") };
    let config = Config::new(s("proj"));
    assert_eq!(
        collect_dependants(&nodes, &mut links, &file, &config, false),
        Err(node::Error::DuplicateName(s("vector")))
    );
}

#[test]
fn dependant_without_node_is_an_error() {
    let nodes = node::Db { nodes: vec![node("idY", "/vault/y.typ", "Y", &["y"], &[])] };
    let mut links = link::Db { links: vec![link("ghost_origin", To::Id(Id(s("idY"))), None)] };
    let file = File { id: Id(s("idY")), path: s("/vault/y.typ") };
    let config = Config::new(s("proj"));
    assert_eq!(
        collect_dependants(&nodes, &mut links, &file, &config, true),
        Err(node::Error::UntrackedId(s("ghost_origin")))
    );
}

#[test]
fn test_src_to_build_path() {
    assert_eq!(
        omni::shallow::src_to_build_path("/Users/me/vault", "/Users/me/vault/src/note.typ", "pdf"),
        Some(s("/Users/me/vault/build/src/note.pdf"))
    );
}

#[test]
fn build_path_outside_the_root_is_none() {
    assert_eq!(omni::shallow::src_to_build_path("/Users/me/vault", "/tmp/note.typ", "pdf"), None);
}

#[test]
fn nodes_are_written_before_any_dependant_is_built() {
    let mut nodes = node::Db {
        nodes: vec![
            node("id1", "/vault/vector.typ", "Vector", &["vector"], &[]),
            node("id2", "/vault/gem.typ", "Gaussian Elimination", &["gem"], &[]),
        ],
    };
    let mut links = link::Db {
        links: vec![
            link("id1", To::GhostTarget(FilePart::Name(s("matrix"))), None),
            link("id2", To::GhostTarget(FilePart::Name(s("matrix"))), None),
        ],
    };
    let config = Config::new(s("proj"));
    let target = File { id: Id(s("id3")), path: s("matrix.typ") };
    let (mut build, step) = PartialBuild::new(target.clone(), false);
    assert_eq!(step, BuildStep::Extract(target));

    let step = build
        .extracted(
            &mut nodes,
            &mut links,
            &config,
            &s("/vault/matrix.typ"),
            front("Matrix", &["matrix", "matrices"], &[]),
            &vec![],
        )
        .unwrap();
    assert_eq!(step, BuildStep::PersistNodes);
    assert_eq!(build.phase, Phase::Checkpoint);

    // what is on disk at the checkpoint, should the process stop here
    let on_disk = nodes.clone();
    assert_eq!(on_disk.nodes[2], node("id3", "/vault/matrix.typ", "Matrix", &["matrix", "matrices"], &[]));

    let step = build.persisted();
    assert_eq!(step, BuildStep::Extract(File { id: Id(s("id1")), path: s("/vault/vector.typ") }));
    let step = build
        .extracted(
            &mut nodes,
            &mut links,
            &config,
            &s("/vault/vector.typ"),
            front("Vector", &["vector"], &[]),
            &vec![raw("matrix", "id3", false)],
        )
        .unwrap();
    assert_eq!(step, BuildStep::Extract(File { id: Id(s("id2")), path: s("/vault/gem.typ") }));
    let step = build
        .extracted(
            &mut nodes,
            &mut links,
            &config,
            &s("/vault/gem.typ"),
            front("Gaussian Elimination", &["gem"], &[]),
            &vec![raw("matrix", "id3", false)],
        )
        .unwrap();
    assert_eq!(step, BuildStep::PersistAll);
    assert_eq!(build.phase, Phase::Done);
    assert_eq!(
        links.links,
        vec![link("id1", To::Id(Id(s("id3"))), None), link("id2", To::Id(Id(s("id3"))), None)]
    );
}

#[test]
fn shallow_refuses_other_formats_and_changes_nothing() {
    let mut nodes = node::Db { nodes: vec![node("id1", "/vault/vector.typ", "Vector", &["vector"], &[])] };
    let mut links = link::Db { links: vec![] };
    let before = nodes.clone();
    let file = File { id: Id(s("id2")), path: s("matrix") };
    let r = shallow(&mut nodes, &mut links, &file, &s("/vault/matrix"), front("M", &[], &[]), &vec![]);
    assert_eq!(r, Err(ShallowError::NoFormat));
    let file = File { id: Id(s("id2")), path: s("matrix.CRAZYFORMAT") };
    let r = shallow(
        &mut nodes,
        &mut links,
        &file,
        &s("/vault/matrix.CRAZYFORMAT"),
        front("M", &[], &[]),
        &vec![],
    );
    assert_eq!(r, Err(ShallowError::InvalidFormat(s("CRAZYFORMAT"))));
    assert_eq!(nodes, before);
    assert!(links.links.is_empty());
}

#[test]
fn a_dependant_with_two_links_is_listed_once() {
    let mut nodes = node::Db { nodes: vec![node("idA", "/vault/a.typ", "A", &["a"], &[])] };
    let mut links = link::Db {
        links: vec![
            link("idA", To::GhostTarget(FilePart::Name(s("matrix"))), None),
            link("idA", To::GhostTarget(FilePart::Name(s("matrices"))), None),
        ],
    };
    let file = File { id: Id(s("idM")), path: s("matrix.typ") };
    let deps = shallow_then_collect(
        &mut nodes,
        &mut links,
        &file,
        "/vault/matrix.typ",
        front("Matrix", &["matrix", "matrices"], &[]),
        vec![],
        false,
    );
    assert_eq!(deps, vec![File { id: Id(s("idA")), path: s("/vault/a.typ") }]);
    assert_eq!(
        links.links,
        vec![link("idA", To::Id(Id(s("idM"))), None), link("idA", To::Id(Id(s("idM"))), None)]
    );
}

#[test]
fn an_ambiguous_ghost_stops_the_partial_build() {
    let mut nodes = node::Db {
        nodes: vec![
            node("id1", "/vault/a/vector.typ", "V", &["vector"], &[]),
            node("idA", "/vault/a.typ", "A", &["a"], &[]),
        ],
    };
    let mut links = link::Db {
        links: vec![link("idA", To::GhostTarget(FilePart::Name(s("vector"))), None)],
    };
    let config = Config::new(s("proj"));
    let target = File { id: Id(s("id2")), path: s("b/vector.typ") };
    let (mut build, _) = PartialBuild::new(target, false);
    let r = build.extracted(
        &mut nodes,
        &mut links,
        &config,
        &s("/vault/b/vector.typ"),
        front("V", &["vector"], &[]),
        &vec![],
    );
    assert_eq!(r, Err(PartialError::Node(node::Error::DuplicateName(s("vector")))));
}

#[test]
fn a_partial_build_of_an_unsupported_file_changes_nothing() {
    let mut nodes = node::Db { nodes: vec![] };
    let mut links = link::Db { links: vec![] };
    let config = Config::new(s("proj"));
    let target = File { id: Id(s("id2")), path: s("notes.md") };
    let (mut build, _) = PartialBuild::new(target, false);
    let r = build.extracted(&mut nodes, &mut links, &config, &s("/vault/notes.md"), front("N", &[], &[]), &vec![]);
    assert_eq!(r, Err(PartialError::Shallow(ShallowError::InvalidFormat(s("md")))));
    assert_eq!(build.phase, Phase::Target);
    assert!(nodes.nodes.is_empty());
}
