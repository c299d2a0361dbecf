use vstd::prelude::*;

use crate::config::{Config, DirAlias};
use crate::shallow::{
    format_error, format_ok, links_after_shallow, nodes_after_shallow, shallow, Frontmatter,
    RawLink, ShallowError,
};
use crate::link::{self, FilePart, Link, To};
use crate::node::{
    self, has_id, has_path, has_name, lemma_match_count_one, lemma_unique_match, node_matches, resolve_error,
    File, Node,
};

verus! {

/// Whether a ghost link now resolves to the node with the built file's id.
pub open spec fn promotes(l: Link, nodes: Seq<Node>, file: File, aliases: Seq<DirAlias>) -> bool {
    match l.to {
        To::GhostTarget(fp) => resolve_error(nodes, fp, aliases) is None && exists|j: int|
            0 <= j < nodes.len() && node_matches(nodes[j], fp, aliases) && nodes[j].id.0@
                == file.id.0@,
        To::Id(_) => false,
    }
}

/// Whether a link shows the built node's title: it points at the node and has
/// no alias of its own. Only rendering cares, so only a build that renders.
pub open spec fn retitles(l: Link, file: File, compile: bool) -> bool {
    compile && l.alias is None && match l.to {
        To::Id(t) => t.0@ == file.id.0@,
        To::GhostTarget(_) => false,
    }
}

/// Whether the origin of a link has to be built again after the file.
pub open spec fn is_dependant_link(
    l: Link,
    nodes: Seq<Node>,
    file: File,
    aliases: Seq<DirAlias>,
    compile: bool,
) -> bool {
    promotes(l, nodes, file, aliases) || retitles(l, file, compile)
}

/// The error that a link raises while dependants are collected, if any: a ghost
/// target that is ambiguous or malformed, or a dependant link whose origin is
/// no node.
pub open spec fn link_failure(
    l: Link,
    nodes: Seq<Node>,
    file: File,
    aliases: Seq<DirAlias>,
    compile: bool,
) -> Option<node::Error> {
    match l.to {
        To::GhostTarget(fp) => match resolve_error(nodes, fp, aliases) {
            Some(node::Error::NameNotFound(_)) => None,
            Some(e) => Some(e),
            None => if promotes(l, nodes, file, aliases) && !has_id(nodes, l.from.0@) {
                Some(node::Error::UntrackedId(l.from.0))
            } else {
                None
            },
        },
        To::Id(_) => if retitles(l, file, compile) && !has_id(nodes, l.from.0@) {
            Some(node::Error::UntrackedId(l.from.0))
        } else {
            None
        },
    }
}

/// The link after collection: a promoted ghost points at the built node.
pub open spec fn promoted(l: Link, nodes: Seq<Node>, file: File, aliases: Seq<DirAlias>) -> Link {
    if promotes(l, nodes, file, aliases) {
        Link { from: l.from, to: To::Id(file.id), location: l.location, alias: l.alias }
    } else {
        l
    }
}

/// The origins of the dependant links, each once, in the order of their first link.
pub open spec fn dependant_ids(
    links: Seq<Link>,
    nodes: Seq<Node>,
    file: File,
    aliases: Seq<DirAlias>,
    compile: bool,
) -> Seq<Seq<char>>
    decreases links.len(),
{
    if links.len() == 0 {
        Seq::empty()
    } else {
        let prev = dependant_ids(links.drop_last(), nodes, file, aliases, compile);
        if is_dependant_link(links.last(), nodes, file, aliases, compile) && !prev.contains(
            links.last().from.0@,
        ) {
            prev.push(links.last().from.0@)
        } else {
            prev
        }
    }
}

/// No dependant is listed twice.
pub proof fn lemma_dependant_ids_distinct(
    links: Seq<Link>,
    nodes: Seq<Node>,
    file: File,
    aliases: Seq<DirAlias>,
    compile: bool,
)
    ensures
        dependant_ids(links, nodes, file, aliases, compile).no_duplicates(),
    decreases links.len(),
{
    if links.len() > 0 {
        lemma_dependant_ids_distinct(links.drop_last(), nodes, file, aliases, compile);
    }
}

/// The ids of a list of files.
pub open spec fn file_ids(files: Seq<File>) -> Seq<Seq<char>> {
    files.map_values(|f: File| f.id.0@)
}

/// Whether a file with this id is listed.
fn listed(files: &Vec<File>, id: &node::Id) -> (r: bool)
    ensures
        r == file_ids(files@).contains(id.0@),
{
    let mut k: usize = 0;
    while k < files.len()
        invariant
            k <= files@.len(),
            forall|j: int| 0 <= j < k ==> files@[j].id.0@ != id.0@,
        decreases files@.len() - k,
    {
        if files[k].id.same(id) {
            proof {
                assert(file_ids(files@)[k as int] == id.0@);
            }
            return true;
        }
        k = k + 1;
    }
    false
}

/// Whether `f` is the file of one of the nodes.
pub open spec fn is_node_file(f: File, nodes: Seq<Node>) -> bool {
    exists|i: int| 0 <= i < nodes.len() && nodes[i].id == f.id && nodes[i].path == f.path
}

/// After the file's node is in place, finds the nodes that depend on it: every
/// ghost link that now resolves to it is made to point at it, and its origin
/// becomes a dependant; where `compile` is set, so does the origin of every link
/// that points at it without an alias, since it shows its title.
/// Fails on the first ghost target that is ambiguous or malformed, or on a
/// dependant link whose origin is no node.
pub fn collect_dependants(
    nodes: &node::Db,
    links: &mut link::Db,
    file: &File,
    config: &Config,
    compile: bool,
) -> (r: Result<Vec<File>, node::Error>)
    ensures
        match r {
            Ok(deps) => {
                &&& forall|k: int|
                    0 <= k < old(links).links@.len() ==> link_failure(
                        #[trigger] old(links).links@[k],
                        nodes.nodes@,
                        *file,
                        config.dir_aliases@,
                        compile,
                    ) is None
                &&& final(links).links@.len() == old(links).links@.len()
                &&& forall|k: int|
                    0 <= k < old(links).links@.len() ==> #[trigger] final(links).links@[k]
                        == promoted(old(links).links@[k], nodes.nodes@, *file, config.dir_aliases@)
                &&& file_ids(deps@) == dependant_ids(
                    old(links).links@,
                    nodes.nodes@,
                    *file,
                    config.dir_aliases@,
                    compile,
                )
                &&& file_ids(deps@).no_duplicates()
                &&& forall|k: int| 0 <= k < deps@.len() ==> is_node_file(#[trigger] deps@[k], nodes.nodes@)
            },
            Err(e) => exists|k: int|
                0 <= k < old(links).links@.len() && link_failure(
                    #[trigger] old(links).links@[k],
                    nodes.nodes@,
                    *file,
                    config.dir_aliases@,
                    compile,
                ) == Some(e),
        },
{
    let ghost aliases = config.dir_aliases@;
    let ghost all = links.links@;
    let mut deps: Vec<File> = Vec::new();
    let mut i: usize = 0;
    while i < links.links.len()
        invariant
            aliases == config.dir_aliases@,
            all == old(links).links@,
            links.links@.len() == all.len(),
            i <= all.len(),
            forall|k: int|
                0 <= k < i ==> link_failure(#[trigger] all[k], nodes.nodes@, *file, aliases, compile)
                    is None,
            forall|k: int|
                0 <= k < i ==> #[trigger] links.links@[k] == promoted(all[k], nodes.nodes@, *file, aliases),
            forall|k: int| i <= k < all.len() ==> #[trigger] links.links@[k] == all[k],
            file_ids(deps@) == dependant_ids(
                all.subrange(0, i as int),
                nodes.nodes@,
                *file,
                aliases,
                compile,
            ),
            forall|k: int| 0 <= k < deps@.len() ==> is_node_file(#[trigger] deps@[k], nodes.nodes@),
        decreases all.len() - i,
    {
        let ghost l = all[i as int];
        let ghost s = all.subrange(0, i + 1);
        proof {
            assert(s.drop_last() =~= all.subrange(0, i as int));
            assert(s.last() == l);
        }
        let dependant = match &links.links[i].to {
            To::GhostTarget(fp) => match nodes.find_from_filepart(fp, config) {
                Ok(n) => {
                    let same = n.id.same(&file.id);
                    proof {
                        let i0 = choose|i0: int|
                            0 <= i0 < nodes.nodes@.len() && nodes.nodes@[i0] == *n && node_matches(
                                *n,
                                *fp,
                                aliases,
                            );
                        if !same {
                            assert forall|j: int|
                                0 <= j < nodes.nodes@.len() && node_matches(
                                    nodes.nodes@[j],
                                    *fp,
                                    aliases,
                                ) implies nodes.nodes@[j].id.0@ != file.id.0@ by {
                                lemma_unique_match(nodes.nodes@, *fp, aliases, i0, j);
                            }
                        }
                    }
                    same
                },
                Err(node::Error::NameNotFound(_)) => false,
                Err(e) => return Err(e),
            },
            To::Id(t) => compile && links.links[i].alias.is_none() && t.same(&file.id),
        };
        proof {
            if l.to is GhostTarget {
                assert(dependant == promotes(l, nodes.nodes@, *file, aliases));
            }
            assert(dependant == is_dependant_link(l, nodes.nodes@, *file, aliases, compile));
        }
        if dependant {
            let other = match nodes.find_from_id(&links.links[i].from) {
                Ok(n) => n,
                Err(e) => return Err(e),
            };
            if !listed(&deps, &links.links[i].from) {
                let ghost before = deps@;
                deps.push(File { id: other.id.copy(), path: other.path.clone() });
                proof {
                    assert(file_ids(deps@) =~= file_ids(before).push(l.from.0@));
                }
            }
            let is_ghost = match &links.links[i].to {
                To::GhostTarget(_) => true,
                To::Id(_) => false,
            };
            if is_ghost {
                links.links[i].to = To::Id(file.id.copy());
            }
        }
        i = i + 1;
    }
    proof {
        assert(all.subrange(0, all.len() as int) =~= all);
        lemma_dependant_ids_distinct(all, nodes.nodes@, *file, aliases, compile);
    }
    Ok(deps)
}

/// What building the target of a partial build does, for the result `r`:
/// its shallow build gives `id` and leaves the links `mid`; the step succeeds
/// exactly when no link of `mid` fails; then every ghost that now resolves to
/// the target is promoted, the nodes database is to be written next, and the
/// dependants wait, each once.
pub open spec fn target_step(
    r: Result<BuildStep, PartialError>,
    old_links: Seq<Link>,
    new_links: Seq<Link>,
    old_nodes: Seq<Node>,
    new_nodes: Seq<Node>,
    pending: Seq<File>,
    mid: Seq<Link>,
    id: node::Id,
    target: File,
    canonical_path: String,
    frontmatter: Frontmatter,
    raw_links: Seq<RawLink>,
    aliases: Seq<DirAlias>,
    compile: bool,
) -> bool {
    let built = File { id, path: canonical_path };
    &&& nodes_after_shallow(old_nodes, new_nodes, target, canonical_path, frontmatter, id)
    &&& links_after_shallow(old_links, mid, id, raw_links)
    &&& (r is Ok <==> forall|k: int|
        0 <= k < mid.len() ==> link_failure(#[trigger] mid[k], new_nodes, built, aliases, compile)
            is None)
    &&& (r matches Err(PartialError::Node(e)) ==> exists|k: int|
        0 <= k < mid.len() && link_failure(#[trigger] mid[k], new_nodes, built, aliases, compile)
            == Some(e))
    &&& (r is Ok ==> {
        &&& r == Ok::<BuildStep, PartialError>(BuildStep::PersistNodes)
        &&& new_links.len() == mid.len()
        &&& forall|k: int|
            0 <= k < mid.len() ==> #[trigger] new_links[k] == promoted(mid[k], new_nodes, built, aliases)
        &&& file_ids(pending) == dependant_ids(mid, new_nodes, built, aliases, compile)
        &&& forall|k: int| 0 <= k < pending.len() ==> is_node_file(#[trigger] pending[k], new_nodes)
    })
}

/// Why a partial build stops.
#[derive(Debug, Clone, PartialEq)]
pub enum PartialError {
    /// A file to build has an unsupported extension.
    Shallow(ShallowError),
    /// A link target is ambiguous or malformed, or a dependant is no node.
    Node(node::Error),
}

/// What the caller of a partial build does next.
#[derive(Debug, Clone, PartialEq)]
pub enum BuildStep {
    /// Extract the metadata and links of this file, then report them with `extracted`.
    Extract(File),
    /// Write the nodes database to disk, then report it with `persisted`.
    PersistNodes,
    /// Write both databases to disk; the build is over.
    PersistAll,
}

/// Where a partial build stands.
#[derive(Debug, Clone, Copy, PartialEq, Eq, Structural)]
pub enum Phase {
    /// The target's extraction is awaited.
    Target,
    /// The nodes database is being written.
    Checkpoint,
    /// A dependant's extraction is awaited.
    Dependants,
    /// Nothing is left to do.
    Done,
}

/// A partial build: the target is built first, the nodes database is written,
/// and only then are the dependants built, one after the other.
pub struct PartialBuild {
    pub target: File,
    pub compile: bool,
    /// The dependants still to build, in order.
    pub pending: Vec<File>,
    /// The dependant being built.
    pub current: Option<File>,
    pub phase: Phase,
    /// Whether the nodes database was written after the target was built.
    pub checkpointed: Ghost<bool>,
}

impl PartialBuild {
    /// Dependants are only built once the nodes database holds the target.
    pub open spec fn wf(&self) -> bool {
        &&& (self.phase == Phase::Dependants || self.phase == Phase::Done) ==> self.checkpointed@
        &&& self.phase == Phase::Target ==> !self.checkpointed@
        &&& (self.phase == Phase::Dependants <==> self.current is Some)
    }

    /// A build of `target`; the first step is to extract it.
    pub fn new(target: File, compile: bool) -> (r: (PartialBuild, BuildStep))
        ensures
            r.0.wf(),
            r.0.phase == Phase::Target,
            r.0.target == target,
            r.0.compile == compile,
            r.1 == BuildStep::Extract(target),
    {
        let step = BuildStep::Extract(File { id: target.id.copy(), path: target.path.clone() });
        let build = PartialBuild {
            target,
            compile,
            pending: Vec::new(),
            current: None,
            phase: Phase::Target,
            checkpointed: Ghost(false),
        };
        (build, step)
    }

    /// The next dependant to build, or the end of the build.
    fn next_dependant(&mut self) -> (r: BuildStep)
        requires
            old(self).checkpointed@,
        ensures
            final(self).checkpointed@,
            final(self).target == old(self).target,
            final(self).compile == old(self).compile,
            final(self).wf(),
            old(self).pending@.len() == 0 ==> final(self).phase == Phase::Done && r
                == BuildStep::PersistAll && final(self).pending@.len() == 0,
            old(self).pending@.len() > 0 ==> final(self).phase == Phase::Dependants
                && final(self).pending@ == old(self).pending@.drop_first() && final(self).current
                == Some(old(self).pending@[0]) && r == BuildStep::Extract(old(self).pending@[0]),
    {
        if self.pending.len() == 0 {
            self.phase = Phase::Done;
            self.current = None;
            BuildStep::PersistAll
        } else {
            let next = self.pending.remove(0);
            let step = BuildStep::Extract(File { id: next.id.copy(), path: next.path.clone() });
            self.current = Some(next);
            self.phase = Phase::Dependants;
            step
        }
    }

    /// Takes in what was extracted from the file of the last `Extract` step,
    /// whose canonical path is `canonical_path`. A file with an unsupported
    /// extension stops the build and changes nothing. For the target, its node
    /// and links are put in place, the ghosts that now resolve to it are
    /// promoted, its dependants are collected, and the next step is to write the
    /// nodes database; an ambiguous ghost target stops the build. For a
    /// dependant, its node and links are put in place and the next dependant
    /// follows.
    pub fn extracted(
        &mut self,
        nodes: &mut node::Db,
        links: &mut link::Db,
        config: &Config,
        canonical_path: &String,
        frontmatter: Frontmatter,
        raw_links: &Vec<RawLink>,
    ) -> (r: Result<BuildStep, PartialError>)
        requires
            old(self).wf(),
            old(self).phase == Phase::Target || old(self).phase == Phase::Dependants,
            old(nodes).wf(),
        ensures
            final(self).wf(),
            final(nodes).wf(),
            final(self).target == old(self).target,
            final(self).compile == old(self).compile,
            r matches Err(PartialError::Shallow(e)) ==> {
                let f = if old(self).phase == Phase::Target {
                    old(self).target
                } else {
                    old(self).current->Some_0
                };
                &&& !format_ok(f.path@)
                &&& format_error(e, f.path@)
                &&& *final(nodes) == *old(nodes)
                &&& *final(links) == *old(links)
                &&& *final(self) == *old(self)
            },
            old(self).phase == Phase::Target && !(r is Err && r->Err_0 is Shallow) ==> {
                &&& format_ok(old(self).target.path@)
                &&& exists|mid: Seq<Link>, id: node::Id|
                    target_step(
                        r,
                        old(links).links@,
                        final(links).links@,
                        old(nodes).nodes@,
                        final(nodes).nodes@,
                        final(self).pending@,
                        mid,
                        id,
                        old(self).target,
                        *canonical_path,
                        frontmatter,
                        raw_links@,
                        config.dir_aliases@,
                        old(self).compile,
                    )
                &&& r is Ok ==> final(self).phase == Phase::Checkpoint
            },
            old(self).phase == Phase::Dependants && !(r is Err && r->Err_0 is Shallow) ==> {
                let f = old(self).current->Some_0;
                &&& r is Ok
                &&& format_ok(f.path@)
                &&& exists|id: node::Id|
                    nodes_after_shallow(
                        old(nodes).nodes@,
                        final(nodes).nodes@,
                        f,
                        *canonical_path,
                        frontmatter,
                        id,
                    ) && links_after_shallow(old(links).links@, final(links).links@, id, raw_links@)
                &&& old(self).pending@.len() == 0 ==> final(self).phase == Phase::Done && r
                    == Ok::<BuildStep, PartialError>(BuildStep::PersistAll)
                &&& old(self).pending@.len() > 0 ==> final(self).phase == Phase::Dependants
                    && final(self).pending@ == old(self).pending@.drop_first() && final(self).current
                    == Some(old(self).pending@[0]) && r == Ok::<BuildStep, PartialError>(
                    BuildStep::Extract(old(self).pending@[0]),
                )
            },
            r matches Ok(BuildStep::Extract(_)) ==> final(self).checkpointed@,
    {
        let file = match &self.current {
            Some(f) => File { id: f.id.copy(), path: f.path.clone() },
            None => File { id: self.target.id.copy(), path: self.target.path.clone() },
        };
        let ghost old_links = links.links@;
        let id = match shallow(nodes, links, &file, canonical_path, frontmatter, raw_links) {
            Ok(id) => id,
            Err(e) => return Err(PartialError::Shallow(e)),
        };
        if self.phase == Phase::Target {
            let ghost mid = links.links@;
            let built = File { id, path: canonical_path.clone() };
            let ghost id_g = built.id;
            let deps = match collect_dependants(nodes, links, &built, config, self.compile) {
                Ok(d) => d,
                Err(e) => {
                    proof {
                        assert(target_step(
                            Err(PartialError::Node(e)),
                            old_links,
                            links.links@,
                            old(nodes).nodes@,
                            nodes.nodes@,
                            self.pending@,
                            mid,
                            id_g,
                            old(self).target,
                            *canonical_path,
                            frontmatter,
                            raw_links@,
                            config.dir_aliases@,
                            old(self).compile,
                        ));
                    }
                    return Err(PartialError::Node(e));
                },
            };
            self.pending = deps;
            self.phase = Phase::Checkpoint;
            proof {
                assert(target_step(
                    Ok(BuildStep::PersistNodes),
                    old_links,
                    links.links@,
                    old(nodes).nodes@,
                    nodes.nodes@,
                    self.pending@,
                    mid,
                    id_g,
                    old(self).target,
                    *canonical_path,
                    frontmatter,
                    raw_links@,
                    config.dir_aliases@,
                    old(self).compile,
                ));
            }
            Ok(BuildStep::PersistNodes)
        } else {
            Ok(self.next_dependant())
        }
    }

    /// Takes in that the nodes database was written; the dependants follow.
    pub fn persisted(&mut self) -> (r: BuildStep)
        requires
            old(self).wf(),
            old(self).phase == Phase::Checkpoint,
        ensures
            final(self).wf(),
            final(self).checkpointed@,
            final(self).target == old(self).target,
            old(self).pending@.len() == 0 ==> r == BuildStep::PersistAll,
            old(self).pending@.len() > 0 ==> r == BuildStep::Extract(old(self).pending@[0]),
    {
        self.checkpointed = Ghost(true);
        self.next_dependant()
    }
}

/// A partial build that has gone on to the dependants, or is over, wrote the
/// nodes database after building the target: no dependant is built before the
/// target's node is on disk.
pub proof fn lemma_dependants_follow_checkpoint(b: PartialBuild)
    requires
        b.wf(),
        b.phase == Phase::Dependants || b.phase == Phase::Done,
    ensures
        b.checkpointed@,
{
}

/// A ghost link to a bare name is promoted once the built node is the one node
/// with that name: it comes to point at the node, and its origin is built again.
pub proof fn lemma_ghost_promotion(
    nodes: Seq<Node>,
    l: Link,
    file: File,
    aliases: Seq<DirAlias>,
    name: String,
    t: int,
)
    requires
        l.to == To::GhostTarget(FilePart::Name(name)),
        0 <= t < nodes.len(),
        nodes[t].id.0@ == file.id.0@,
        has_name(nodes[t], name@),
        forall|j: int| 0 <= j < nodes.len() && j != t ==> !has_name(#[trigger] nodes[j], name@),
    ensures
        promotes(l, nodes, file, aliases),
        is_dependant_link(l, nodes, file, aliases, false),
        is_dependant_link(l, nodes, file, aliases, true),
        promoted(l, nodes, file, aliases).to == To::Id(file.id),
        promoted(l, nodes, file, aliases).from == l.from,
{
    let part = FilePart::Name(name);
    assert forall|j: int| 0 <= j < nodes.len() && j != t implies !node_matches(
        #[trigger] nodes[j],
        part,
        aliases,
    ) by {}
    lemma_match_count_one(nodes, part, aliases, t);
    assert(node_matches(nodes[t], part, aliases));
}

/// In a build that renders, a link that points at the built node without an
/// alias shows its title, so its origin is built again, and the link is kept.
pub proof fn lemma_title_propagation(nodes: Seq<Node>, l: Link, file: File, aliases: Seq<DirAlias>)
    requires
        l.alias is None,
        l.to matches To::Id(t) && t.0@ == file.id.0@,
    ensures
        is_dependant_link(l, nodes, file, aliases, true),
        promoted(l, nodes, file, aliases) == l,
{
}

} // verus!
