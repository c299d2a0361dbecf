use omni::config::Config;
use omni::link::FilePart;
use omni::node::{Db, Error, File, Id, Node, NodeKind};

fn s(v: &str) -> String {
    v.to_string()
}

fn node(id: &str, path: &str, names: &[&str]) -> Node {
    Node {
        id: Id(s(id)),
        path: s(path),
        kind: NodeKind::File,
        title: String::new(),
        names: names.iter().map(|n| n.to_string()).collect(),
        tags: vec![],
        private: false,
    }
}

fn config() -> Config {
    let mut config = Config::new(s("project"));
    config.add_alias(s("linalg"), s("linear-algebra"));
    config
}

#[test]
fn test_find_by_name() {
    let db = Db {
        nodes: vec![
            node("id1", "linear-algebra", &["vector"]),
            node("id2", "programming/rust", &["borrow-checker", "borrow"]),
        ],
    };
    let config = config();

    let found = db.find_from_filepart(&FilePart::Name(s("vector")), &config).unwrap();
    assert_eq!(found.id, Id(s("id1")));

    let found = db.find_from_filepart(&FilePart::Name(s("borrow")), &config).unwrap();
    assert_eq!(found.id, Id(s("id2")));
}

#[test]
fn test_find_by_name_with_path() {
    let db = Db {
        nodes: vec![
            node("id1", "linear-algebra", &["vector"]),
            node("id2", "programming/rust", &["vector"]),
        ],
    };
    let config = config();

    let found = db
        .find_from_filepart(&FilePart::PathAndName(vec![s("linalg")], s("vector")), &config)
        .unwrap();
    assert_eq!(found.id, Id(s("id1")));

    let found = db
        .find_from_filepart(&FilePart::PathAndName(vec![s("programming")], s("vector")), &config)
        .unwrap();
    assert_eq!(found.id, Id(s("id2")));

    let found = db
        .find_from_filepart(
            &FilePart::PathAndName(vec![s("programming/rust")], s("vector")),
            &config,
        )
        .unwrap();
    assert_eq!(found.id, Id(s("id2")));
}

#[test]
#[should_panic]
fn test_find_by_name_fail() {
    let db = Db {
        nodes: vec![
            node("id1", "linear-algebra", &["vector"]),
            node("id2", "programming/rust", &["vector"]),
        ],
    };
    let config = Config::new(s("project"));
    db.find_from_filepart(&FilePart::Name(s("vector")), &config).unwrap();
}

#[test]
fn resolution_reports_duplicates_and_uses_aliases() {
    let db = Db {
        nodes: vec![
            node("id1", "linear-algebra/vector", &["vector"]),
            node("id2", "rust/vector", &["vector"]),
        ],
    };
    let config = config();
    assert_eq!(
        db.find_from_filepart(&FilePart::Name(s("vector")), &config),
        Err(Error::DuplicateName(s("vector")))
    );
    let found = db
        .find_from_filepart(&FilePart::PathAndName(vec![s("linalg")], s("vector")), &config)
        .unwrap();
    assert_eq!(found.id, Id(s("id1")));
}

#[test]
fn alias_is_joined_with_the_remaining_directories() {
    let db = Db {
        nodes: vec![
            node("id1", "linear-algebra/spectral/det.typ", &["det"]),
            node("id2", "linear-algebra/other/det.typ", &["det"]),
        ],
    };
    let config = config();
    let found = db
        .find_from_filepart(
            &FilePart::PathAndName(vec![s("linalg"), s("spectral")], s("det")),
            &config,
        )
        .unwrap();
    assert_eq!(found.id, Id(s("id1")));
}

#[test]
fn resolution_reports_missing_names_and_empty_paths() {
    let db = Db { nodes: vec![node("id1", "linear-algebra", &["vector"])] };
    let config = config();
    assert_eq!(
        db.find_from_filepart(&FilePart::Name(s("matrix")), &config),
        Err(Error::NameNotFound(s("matrix")))
    );
    assert_eq!(
        db.find_from_filepart(&FilePart::PathAndName(vec![], s("vector")), &config),
        Err(Error::EmptyPath)
    );
    assert_eq!(
        db.find_from_filepart(&FilePart::PathAndName(vec![s("rust")], s("vector")), &config),
        Err(Error::NameNotFound(s("vector")))
    );
}

#[test]
fn lookups_by_path_and_id() {
    let db = Db {
        nodes: vec![
            node("id1", "linear-algebra/vector.typ", &["vector"]),
            node("id2", "rust/vector.typ", &["vector"]),
        ],
    };
    assert_eq!(db.find_abs(&s("rust/vector.typ")).unwrap().id, Id(s("id2")));
    assert_eq!(
        db.find_abs(&s("rust/matrix.typ")),
        Err(Error::UntrackedNode(s("rust/matrix.typ")))
    );
    assert_eq!(db.find_from_id(&Id(s("id1"))).unwrap().path, "linear-algebra/vector.typ");
    assert_eq!(db.find_from_id(&Id(s("id9"))), Err(Error::UntrackedId(s("id9"))));
    assert_eq!(db.position_of_path(&s("rust/vector.typ")), Some(1));
}

#[test]
fn a_file_becomes_a_node() {
    let file = File { id: Id(s("id7")), path: s("notes/a.typ") };
    let n = file.into_node(s("A"), vec![s("a")], vec![s("t")], true);
    assert_eq!(
        n,
        Node {
            id: Id(s("id7")),
            path: s("notes/a.typ"),
            kind: NodeKind::File,
            title: s("A"),
            names: vec![s("a")],
            tags: vec![s("t")],
            private: true,
        }
    );
}
