use vstd::prelude::*;

use crate::config::{alias_target, Config, DirAlias};
use crate::link::FilePart;
use crate::path_parts::{components, copy_component, views, PathComponent};

verus! {

/// The stable identifier of a node.
#[derive(Debug, Clone, PartialEq, Eq, Hash)]
pub struct Id(pub String);

/// Relies on chrono's `Local::now` and `DelayedFormat`: the local time, written
/// as year, month, day, hour, minute and second. Nothing is promised of it.
#[verifier::external_body]
fn local_timestamp() -> String {
    chrono::Local::now().format("%Y%m%d%H%M%S").to_string()
}

impl Id {
    /// A new identifier, made from the local time to the second.
    pub fn new() -> Id {
        Id(local_timestamp())
    }

    /// A copy of this identifier.
    pub fn copy(&self) -> (r: Id)
        ensures
            r == *self,
    {
        Id(self.0.clone())
    }

    /// Whether two identifiers are the same text.
    pub fn same(&self, other: &Id) -> (r: bool)
        ensures
            r == (self.0@ == other.0@),
    {
        self.0 == other.0
    }
}

/// A file that the user declares part of the graph.
#[derive(Debug, Clone, PartialEq)]
pub struct File {
    pub id: Id,
    pub path: String,
}

/// The user-facing list of tracked files.
#[derive(Debug, Clone, PartialEq)]
pub struct UserDb {
    pub files: Vec<File>,
}

#[derive(Debug, Clone, Copy, PartialEq, Eq)]
pub enum NodeKind {
    File,
}

/// The record of a node, derived from its file's content.
#[derive(Debug, Clone, PartialEq)]
pub struct Node {
    pub id: Id,
    /// The canonical path of the file.
    pub path: String,
    pub kind: NodeKind,
    pub title: String,
    /// The short names that other files link to this node by.
    pub names: Vec<String>,
    pub tags: Vec<String>,
    pub private: bool,
}

/// The authoritative list of nodes.
#[derive(Debug, Clone, PartialEq)]
pub struct Db {
    pub nodes: Vec<Node>,
}

#[derive(Debug, Clone, PartialEq)]
pub enum Error {
    /// No node has this canonical path.
    UntrackedNode(String),
    /// No node has this identifier.
    UntrackedId(String),
    /// No node answers to the name: the link is a ghost.
    NameNotFound(String),
    /// More than one node answers to the name: the link needs a path.
    DuplicateName(String),
    /// A path-and-name target with no directories.
    EmptyPath,
}

impl File {
    /// The node that this file becomes with the given metadata.
    pub fn into_node(self, title: String, names: Vec<String>, tags: Vec<String>, private: bool) -> (r: Node)
        ensures
            r == (Node { id: self.id, path: self.path, kind: NodeKind::File, title, names, tags, private }),
    {
        Node { id: self.id, path: self.path, kind: NodeKind::File, title, names, tags, private }
    }
}

/// Whether the node answers to `name`.
pub open spec fn has_name(n: Node, name: Seq<char>) -> bool {
    exists|k: int| 0 <= k < n.names@.len() && n.names@[k]@ == name
}

/// Whether two path components are the same.
pub open spec fn same_component(a: PathComponent, b: PathComponent) -> bool {
    match (a, b) {
        (PathComponent::Prefix(x), PathComponent::Prefix(y)) => x@ == y@,
        (PathComponent::RootDir, PathComponent::RootDir) => true,
        (PathComponent::CurDir, PathComponent::CurDir) => true,
        (PathComponent::ParentDir, PathComponent::ParentDir) => true,
        (PathComponent::Normal(x), PathComponent::Normal(y)) => x@ == y@,
        _ => false,
    }
}

/// Whether the components `cs` start with the components `prefix`.
pub open spec fn starts_with(cs: Seq<PathComponent>, prefix: Seq<PathComponent>) -> bool {
    prefix.len() <= cs.len() && forall|i: int|
        0 <= i < prefix.len() ==> #[trigger] same_component(prefix[i], cs[i])
}

/// The components of several paths, one after the other.
pub open spec fn flat_components(parts: Seq<Seq<char>>) -> Seq<PathComponent>
    decreases parts.len(),
{
    if parts.len() == 0 {
        Seq::empty()
    } else {
        flat_components(parts.drop_last()) + crate::path_parts::path_components(parts.last())
    }
}

/// The directory that a logical prefix stands for: an alias in first place
/// is expanded, and the remaining directories follow.
pub open spec fn required_prefix(dirs: Seq<Seq<char>>, aliases: Seq<DirAlias>) -> Seq<PathComponent> {
    match alias_target(aliases, dirs[0]) {
        Some(t) => crate::path_parts::path_components(t) + flat_components(dirs.drop_first()),
        None => flat_components(dirs),
    }
}

/// Whether a node is a candidate for a link target.
pub open spec fn node_matches(n: Node, part: FilePart, aliases: Seq<DirAlias>) -> bool {
    match part {
        FilePart::Name(name) => has_name(n, name@),
        FilePart::PathAndName(dirs, name) => has_name(n, name@) && starts_with(
            crate::path_parts::path_components(n.path@),
            required_prefix(views(dirs@), aliases),
        ),
    }
}

/// How many nodes are candidates for a link target.
pub open spec fn match_count(nodes: Seq<Node>, part: FilePart, aliases: Seq<DirAlias>) -> nat
    decreases nodes.len(),
{
    if nodes.len() == 0 {
        0
    } else {
        match_count(nodes.drop_last(), part, aliases) + if node_matches(
            nodes.last(),
            part,
            aliases,
        ) {
            1nat
        } else {
            0nat
        }
    }
}

/// The name that a link target asks for.
pub open spec fn part_name(part: FilePart) -> String {
    match part {
        FilePart::Name(name) => name,
        FilePart::PathAndName(_, name) => name,
    }
}

/// Why a link target does not resolve to one node, if it does not.
pub open spec fn resolve_error(nodes: Seq<Node>, part: FilePart, aliases: Seq<DirAlias>) -> Option<Error> {
    if part matches FilePart::PathAndName(dirs, _) && dirs@.len() == 0 {
        Some(Error::EmptyPath)
    } else if match_count(nodes, part, aliases) == 0 {
        Some(Error::NameNotFound(part_name(part)))
    } else if match_count(nodes, part, aliases) > 1 {
        Some(Error::DuplicateName(part_name(part)))
    } else {
        None
    }
}

/// Whether a node has the given canonical path.
pub open spec fn has_path(nodes: Seq<Node>, path: Seq<char>) -> bool {
    exists|i: int| 0 <= i < nodes.len() && nodes[i].path@ == path
}

/// Whether a node has the given identifier.
pub open spec fn has_id(nodes: Seq<Node>, id: Seq<char>) -> bool {
    exists|i: int| 0 <= i < nodes.len() && nodes[i].id.0@ == id
}

impl Db {
    /// At most one node per canonical path.
    pub open spec fn wf(&self) -> bool {
        forall|i: int, j: int|
            0 <= i < self.nodes@.len() && 0 <= j < self.nodes@.len() && i != j
                ==> self.nodes@[i].path@ != self.nodes@[j].path@
    }

    /// The node with the given canonical path.
    pub fn find_abs(&self, path: &String) -> (r: Result<&Node, Error>)
        ensures
            match r {
                Ok(n) => exists|i: int|
                    0 <= i < self.nodes@.len() && self.nodes@[i] == *n && n.path@ == path@,
                Err(e) => e == Error::UntrackedNode(*path) && !has_path(self.nodes@, path@),
            },
    {
        let mut i: usize = 0;
        while i < self.nodes.len()
            invariant
                i <= self.nodes@.len(),
                forall|k: int| 0 <= k < i ==> self.nodes@[k].path@ != path@,
            decreases self.nodes@.len() - i,
        {
            if self.nodes[i].path == *path {
                return Ok(&self.nodes[i]);
            }
            i = i + 1;
        }
        Err(Error::UntrackedNode(path.clone()))
    }

    /// The index of the node with the given canonical path.
    pub fn position_of_path(&self, path: &String) -> (r: Option<usize>)
        ensures
            match r {
                Some(i) => i < self.nodes@.len() && self.nodes@[i as int].path@ == path@,
                None => !has_path(self.nodes@, path@),
            },
    {
        let mut i: usize = 0;
        while i < self.nodes.len()
            invariant
                i <= self.nodes@.len(),
                forall|k: int| 0 <= k < i ==> self.nodes@[k].path@ != path@,
            decreases self.nodes@.len() - i,
        {
            if self.nodes[i].path == *path {
                return Some(i);
            }
            i = i + 1;
        }
        None
    }

    /// The node with the given identifier.
    pub fn find_from_id(&self, id: &Id) -> (r: Result<&Node, Error>)
        ensures
            match r {
                Ok(n) => exists|i: int|
                    0 <= i < self.nodes@.len() && self.nodes@[i] == *n && n.id.0@ == id.0@,
                Err(e) => e == Error::UntrackedId(id.0) && !has_id(self.nodes@, id.0@),
            },
    {
        let mut i: usize = 0;
        while i < self.nodes.len()
            invariant
                i <= self.nodes@.len(),
                forall|k: int| 0 <= k < i ==> self.nodes@[k].id.0@ != id.0@,
            decreases self.nodes@.len() - i,
        {
            if self.nodes[i].id.0 == id.0 {
                return Ok(&self.nodes[i]);
            }
            i = i + 1;
        }
        Err(Error::UntrackedId(id.0.clone()))
    }

    /// The one node that a link target names: by name anywhere in the project,
    /// or by name under a directory whose first part may be an alias.
    pub fn find_from_filepart(&self, part: &FilePart, config: &Config) -> (r: Result<&Node, Error>)
        ensures
            r is Ok <==> resolve_error(self.nodes@, *part, config.dir_aliases@) is None,
            match r {
                Ok(n) => exists|i: int|
                    0 <= i < self.nodes@.len() && self.nodes@[i] == *n && node_matches(
                        *n,
                        *part,
                        config.dir_aliases@,
                    ),
                Err(e) => resolve_error(self.nodes@, *part, config.dir_aliases@) == Some(e),
            },
    {
        let ghost aliases = config.dir_aliases@;
        let (name, prefix) = match part {
            FilePart::Name(name) => (name, None),
            FilePart::PathAndName(dirs, name) => {
                if dirs.len() == 0 {
                    return Err(Error::EmptyPath);
                }
                (name, Some(prefix_components(dirs, config)))
            },
        };
        let mut count: usize = 0;
        let mut found: usize = 0;
        let mut i: usize = 0;
        while i < self.nodes.len()
            invariant
                i <= self.nodes@.len(),
                aliases == config.dir_aliases@,
                *name == part_name(*part),
                resolve_error(self.nodes@, *part, aliases) != Some(Error::EmptyPath),
                match *part {
                    FilePart::Name(_) => prefix is None,
                    FilePart::PathAndName(dirs, _) => prefix matches Some(p) && p@ == required_prefix(
                        views(dirs@),
                        aliases,
                    ),
                },
                count as nat == match_count(self.nodes@.subrange(0, i as int), *part, aliases),
                count <= 1,
                count == 1 ==> found < i && node_matches(self.nodes@[found as int], *part, aliases),
            decreases self.nodes@.len() - i,
        {
            let m = node_matches_exec(&self.nodes[i], name, &prefix);
            proof {
                let s = self.nodes@.subrange(0, i + 1);
                assert(s.drop_last() =~= self.nodes@.subrange(0, i as int));
                assert(s.last() == self.nodes@[i as int]);
                assert(m == node_matches(self.nodes@[i as int], *part, aliases));
            }
            if m {
                if count == 1 {
                    proof {
                        assert(match_count(self.nodes@.subrange(0, i + 1), *part, aliases) == 2);
                        lemma_count_prefix_monotone(self.nodes@, *part, aliases, i + 1);
                    }
                    return Err(Error::DuplicateName(name.clone()));
                }
                found = i;
                count = count + 1;
            }
            i = i + 1;
        }
        proof {
            assert(self.nodes@.subrange(0, self.nodes@.len() as int) =~= self.nodes@);
        }
        if count == 0 {
            Err(Error::NameNotFound(name.clone()))
        } else {
            Ok(&self.nodes[found])
        }
    }
}

/// Where no node is a candidate, the count is zero.
pub proof fn lemma_match_count_zero(nodes: Seq<Node>, part: FilePart, aliases: Seq<DirAlias>)
    requires
        forall|j: int| 0 <= j < nodes.len() ==> !node_matches(#[trigger] nodes[j], part, aliases),
    ensures
        match_count(nodes, part, aliases) == 0,
    decreases nodes.len(),
{
    if nodes.len() > 0 {
        let d = nodes.drop_last();
        assert forall|j: int| 0 <= j < d.len() implies !node_matches(#[trigger] d[j], part, aliases) by {
            assert(d[j] == nodes[j]);
        }
        lemma_match_count_zero(d, part, aliases);
    }
}

/// Where exactly one node is a candidate, the count is one.
pub proof fn lemma_match_count_one(nodes: Seq<Node>, part: FilePart, aliases: Seq<DirAlias>, t: int)
    requires
        0 <= t < nodes.len(),
        node_matches(nodes[t], part, aliases),
        forall|j: int| 0 <= j < nodes.len() && j != t ==> !node_matches(#[trigger] nodes[j], part, aliases),
    ensures
        match_count(nodes, part, aliases) == 1,
    decreases nodes.len(),
{
    let d = nodes.drop_last();
    if t == nodes.len() - 1 {
        assert forall|j: int| 0 <= j < d.len() implies !node_matches(#[trigger] d[j], part, aliases) by {
            assert(d[j] == nodes[j]);
        }
        lemma_match_count_zero(d, part, aliases);
    } else {
        assert forall|j: int| 0 <= j < d.len() && j != t implies !node_matches(
            #[trigger] d[j],
            part,
            aliases,
        ) by {
            assert(d[j] == nodes[j]);
        }
        lemma_match_count_one(d, part, aliases, t);
    }
}

/// A node that is a candidate makes the count positive.
pub proof fn lemma_match_count_pos(nodes: Seq<Node>, part: FilePart, aliases: Seq<DirAlias>, i: int)
    requires
        0 <= i < nodes.len(),
        node_matches(nodes[i], part, aliases),
    ensures
        match_count(nodes, part, aliases) >= 1,
    decreases nodes.len(),
{
    if i < nodes.len() - 1 {
        lemma_match_count_pos(nodes.drop_last(), part, aliases, i);
    }
}

/// Where exactly one node is a candidate, any two candidates are the same node.
pub proof fn lemma_unique_match(
    nodes: Seq<Node>,
    part: FilePart,
    aliases: Seq<DirAlias>,
    i: int,
    j: int,
)
    requires
        match_count(nodes, part, aliases) == 1,
        0 <= i < nodes.len(),
        0 <= j < nodes.len(),
        node_matches(nodes[i], part, aliases),
        node_matches(nodes[j], part, aliases),
    ensures
        i == j,
    decreases nodes.len(),
{
    let d = nodes.drop_last();
    let last = nodes.len() - 1;
    if i < last && j < last {
        lemma_match_count_pos(d, part, aliases, i);
        lemma_unique_match(d, part, aliases, i, j);
    } else if i < last {
        lemma_match_count_pos(d, part, aliases, i);
    } else if j < last {
        lemma_match_count_pos(d, part, aliases, j);
    }
}

/// A prefix of the nodes never has more candidates than all of them.
proof fn lemma_count_prefix_monotone(nodes: Seq<Node>, part: FilePart, aliases: Seq<DirAlias>, k: int)
    requires
        0 <= k <= nodes.len(),
    ensures
        match_count(nodes.subrange(0, k), part, aliases) <= match_count(nodes, part, aliases),
    decreases nodes.len() - k,
{
    if k < nodes.len() {
        lemma_count_prefix_monotone(nodes, part, aliases, k + 1);
        let s = nodes.subrange(0, k + 1);
        assert(s.drop_last() =~= nodes.subrange(0, k));
    } else {
        assert(nodes.subrange(0, k) =~= nodes);
    }
}

/// Whether two path components are the same.
fn component_eq(a: &PathComponent, b: &PathComponent) -> (r: bool)
    ensures
        r == same_component(*a, *b),
{
    match (a, b) {
        (PathComponent::Prefix(x), PathComponent::Prefix(y)) => *x == *y,
        (PathComponent::RootDir, PathComponent::RootDir) => true,
        (PathComponent::CurDir, PathComponent::CurDir) => true,
        (PathComponent::ParentDir, PathComponent::ParentDir) => true,
        (PathComponent::Normal(x), PathComponent::Normal(y)) => *x == *y,
        _ => false,
    }
}

/// Whether the components `cs` start with the components `prefix`.
pub fn components_start_with(cs: &Vec<PathComponent>, prefix: &Vec<PathComponent>) -> (r: bool)
    ensures
        r == starts_with(cs@, prefix@),
{
    if prefix.len() > cs.len() {
        return false;
    }
    let mut i: usize = 0;
    while i < prefix.len()
        invariant
            prefix@.len() <= cs@.len(),
            i <= prefix@.len(),
            forall|k: int| 0 <= k < i ==> #[trigger] same_component(prefix@[k], cs@[k]),
        decreases prefix@.len() - i,
    {
        if !component_eq(&prefix[i], &cs[i]) {
            return false;
        }
        i = i + 1;
    }
    true
}

/// Whether the node answers to `name`.
pub fn node_has_name(n: &Node, name: &String) -> (r: bool)
    ensures
        r == has_name(*n, name@),
{
    let mut k: usize = 0;
    while k < n.names.len()
        invariant
            k <= n.names@.len(),
            forall|j: int| 0 <= j < k ==> n.names@[j]@ != name@,
        decreases n.names@.len() - k,
    {
        if n.names[k] == *name {
            return true;
        }
        k = k + 1;
    }
    false
}

/// Whether a node answers to `name` and, where a prefix is given, lies under it.
fn node_matches_exec(n: &Node, name: &String, prefix: &Option<Vec<PathComponent>>) -> (r: bool)
    ensures
        r == (has_name(*n, name@) && match *prefix {
            Some(p) => starts_with(crate::path_parts::path_components(n.path@), p@),
            None => true,
        }),
{
    if !node_has_name(n, name) {
        return false;
    }
    match prefix {
        Some(p) => {
            let cs = components(n.path.as_str());
            components_start_with(&cs, p)
        },
        None => true,
    }
}

/// The components of the directory that a logical prefix stands for.
fn prefix_components(dirs: &Vec<String>, config: &Config) -> (r: Vec<PathComponent>)
    requires
        dirs@.len() > 0,
    ensures
        r@ == required_prefix(views(dirs@), config.dir_aliases@),
{
    let ghost vd = views(dirs@);
    let (mut out, start) = match config.alias(&dirs[0]) {
        Some(t) => (components(t.as_str()), 1usize),
        None => (Vec::new(), 0usize),
    };
    proof {
        if start == 1 {
            assert(vd.drop_first().subrange(0, 0) =~= Seq::<Seq<char>>::empty());
        } else {
            assert(vd.subrange(0, 0) =~= Seq::<Seq<char>>::empty());
            assert(out@ =~= Seq::<PathComponent>::empty());
        }
    }
    let ghost head = out@;
    let mut i: usize = start;
    while i < dirs.len()
        invariant
            vd == views(dirs@),
            start <= i <= dirs@.len(),
            start <= 1,
            out@ == head + flat_components(vd.subrange(start as int, i as int)),
        decreases dirs@.len() - i,
    {
        let cs = components(dirs[i].as_str());
        let ghost before = out@;
        let mut j: usize = 0;
        while j < cs.len()
            invariant
                j <= cs@.len(),
                out@ == before + cs@.subrange(0, j as int),
            decreases cs@.len() - j,
        {
            out.push(copy_component(&cs[j]));
            proof {
                assert(out@ =~= before + cs@.subrange(0, j + 1));
            }
            j = j + 1;
        }
        proof {
            let s = vd.subrange(start as int, i + 1);
            assert(s.drop_last() =~= vd.subrange(start as int, i as int));
            assert(s.last() == dirs@[i as int]@);
            assert(cs@.subrange(0, cs@.len() as int) =~= cs@);
            assert(out@ =~= head + flat_components(s));
        }
        i = i + 1;
    }
    proof {
        if start == 1 {
            assert(vd.subrange(1, vd.len() as int) =~= vd.drop_first());
        } else {
            assert(vd.subrange(0, vd.len() as int) =~= vd);
            assert(head + flat_components(vd) =~= flat_components(vd));
        }
    }
    out
}

} // verus!
