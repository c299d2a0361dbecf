use omni::config::Config;
use omni::links::{dedup, get_possible_links, DedupError, GetPossibleLinksError, LinkEntry};
use omni::node::{Db, Id, Node, NodeKind};
use omni::omni_path::OmniPath;

fn s(v: &str) -> String {
    v.to_string()
}

fn node(id: &str, path: &str, title: &str, name: &str) -> Node {
    Node {
        id: Id(s(id)),
        path: s(path),
        kind: NodeKind::File,
        title: s(title),
        names: vec![s(name)],
        tags: vec![],
        private: false,
    }
}

#[test]
fn test_get_possible_links() {
    let nodes = Db {
        nodes: vec![
            node("id1", "/Users/me/docs/vault/cs/linear-algebra/vector.typ", "Vector", "vector"),
            node("id2", "/Users/me/docs/vault/cs/linear-algebra/matrix.typ", "Matrix", "matrix"),
            node("id3", "/Users/me/docs/vault/cs/rust/vector.typ", "Vector", "vector"),
        ],
    };
    let root = s("/Users/me/docs/vault");
    let mut config = Config::new(s("project"));
    config.add_alias(s("linalg"), s("cs/linear-algebra"));

    assert_eq!(
        get_possible_links(&root, &config, &nodes).unwrap(),
        [
            LinkEntry {
                omni_path: OmniPath::new(vec![], s("matrix")).force_unalias(),
                true_path: s("/Users/me/docs/vault/cs/linear-algebra/matrix.typ"),
            },
            LinkEntry {
                omni_path: OmniPath::new(vec![s("linalg")], s("vector")),
                true_path: s("/Users/me/docs/vault/cs/linear-algebra/vector.typ"),
            },
            LinkEntry {
                omni_path: OmniPath::new(vec![s("cs"), s("rust")], s("vector")).force_unalias(),
                true_path: s("/Users/me/docs/vault/cs/rust/vector.typ"),
            },
        ]
    );
}

#[test]
fn indistinguishable_nodes_are_reported() {
    let nodes = Db {
        nodes: vec![
            node("id1", "/vault/vector.typ", "Vector", "vector"),
            node("id2", "/vault/vector.typ", "Vector", "vector"),
        ],
    };
    let config = Config::new(s("project"));
    assert_eq!(
        get_possible_links(&s("/vault"), &config, &nodes),
        Err(GetPossibleLinksError::DedupError(DedupError::CannotGoFurther))
    );
}

#[test]
fn nodes_outside_the_project_are_reported() {
    let nodes = Db {
        nodes: vec![
            node("id1", "/elsewhere/a/vector.typ", "Vector", "vector"),
            node("id2", "/vault/b/vector.typ", "Vector", "vector"),
        ],
    };
    let config = Config::new(s("project"));
    assert_eq!(
        get_possible_links(&s("/vault"), &config, &nodes),
        Err(GetPossibleLinksError::DedupError(DedupError::NodeOutsideProject))
    );
}

#[test]
fn the_prefix_directory_is_skipped() {
    let nodes = Db {
        nodes: vec![
            node("id1", "/vault/src/a/vector.typ", "Vector", "vector"),
            node("id2", "/vault/src/b/vector.typ", "Vector", "vector"),
        ],
    };
    let mut config = Config::new(s("project"));
    config.project.prefix_dir = Some(s("src"));
    let entries = get_possible_links(&s("/vault"), &config, &nodes).unwrap();
    assert_eq!(entries[0].omni_path.path, ["a"]);
    assert_eq!(entries[1].omni_path.path, ["b"]);
}

#[test]
fn one_dedup_round_extends_only_clashing_entries() {
    let mut entries = vec![
        LinkEntry {
            omni_path: OmniPath::new(vec![], s("vector")).force_unalias(),
            true_path: s("/vault/a/vector.typ"),
        },
        LinkEntry {
            omni_path: OmniPath::new(vec![], s("vector")).force_unalias(),
            true_path: s("/vault/b/vector.typ"),
        },
        LinkEntry {
            omni_path: OmniPath::new(vec![], s("matrix")).force_unalias(),
            true_path: s("/vault/a/matrix.typ"),
        },
    ];
    let config = Config::new(s("project"));
    assert_eq!(dedup(&s("/vault"), &config, &mut entries), Ok(true));
    assert_eq!(entries[0].omni_path.path, ["a"]);
    assert_eq!(entries[1].omni_path.path, ["b"]);
    assert!(entries[2].omni_path.path.is_empty());
    assert_eq!(dedup(&s("/vault"), &config, &mut entries), Ok(false));
}

#[test]
fn distinct_names_need_no_directories() {
    let nodes = Db {
        nodes: vec![
            node("id1", "/vault/cs/linear-algebra/vector.typ", "Vector", "vector"),
            node("id2", "/vault/cs/linear-algebra/matrix.typ", "Matrix", "matrix"),
        ],
    };
    let config = Config::new(s("project"));
    let entries = get_possible_links(&s("/vault"), &config, &nodes).unwrap();
    assert_eq!(entries.len(), 2);
    assert!(entries.iter().all(|e| e.omni_path.path.is_empty()));
    assert_eq!(entries[0].omni_path.name, "matrix");
    assert_eq!(entries[1].omni_path.name, "vector");
}
