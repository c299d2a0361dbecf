use vstd::prelude::*;

use crate::config::{Config, DirAlias};
use crate::node::{self, has_name, starts_with, Node};
use crate::omni_path::{realias_spec, OmniPath, OmniPathView};
use crate::path_parts::{
    component_string, component_text, components, copy_strings, join_path, path_components,
    path_join, texts, views, PathComponent,
};

verus! {

/// A way to link to a node: the shortest logical path that names it alone,
/// with the node's real path.
#[derive(Debug, Clone, PartialEq, Eq, Hash)]
pub struct LinkEntry {
    pub omni_path: OmniPath,
    pub true_path: String,
}

#[derive(Debug, Clone, PartialEq, Eq)]
pub enum DedupError {
    /// The node's path does not lie under the project.
    NodeOutsideProject,
    /// Two nodes cannot be told apart by their directories.
    CannotGoFurther,
}

#[derive(Debug, Clone, PartialEq, Eq)]
pub enum GetPossibleLinksError {
    DedupError(DedupError),
}

/// Whether another entry has the same logical path and name as entry `i`.
pub open spec fn clashes(entries: Seq<LinkEntry>, i: int) -> bool {
    exists|j: int|
        0 <= j < entries.len() && j != i && entries[j].omni_path@.path == entries[i].omni_path@.path
            && entries[j].omni_path@.name == entries[i].omni_path@.name
}

/// The directory under which every note lies: the root, then the prefix directory if any.
pub open spec fn notes_prefix(root: Seq<char>, config: Config) -> Seq<PathComponent> {
    match config.project.prefix_dir {
        Some(d) => path_components(path_join(root, d@)),
        None => path_components(root),
    }
}

/// The next directory that tells an entry apart: the one of its real path,
/// under the notes directory, that follows those its logical path already has.
pub open spec fn next_component(e: LinkEntry, prefix: Seq<PathComponent>) -> Result<Seq<char>, DedupError> {
    let cs = path_components(e.true_path@);
    if !starts_with(cs, prefix) {
        Err(DedupError::NodeOutsideProject)
    } else {
        let rest = cs.skip(prefix.len() as int);
        let k = e.omni_path@.path.len();
        if k + 1 < rest.len() {
            Ok(component_text(rest[k as int]))
        } else {
            Err(DedupError::CannotGoFurther)
        }
    }
}

/// Whether `after` is `before` with one more directory in its logical path.
pub open spec fn extended(before: LinkEntry, after: LinkEntry, dir: Seq<char>) -> bool {
    &&& after.true_path == before.true_path
    &&& after.omni_path@ == OmniPathView {
        path: before.omni_path@.path.push(dir),
        name: before.omni_path@.name,
        unaliased: before.omni_path@.unaliased,
    }
}

/// Whether `after` is `before` with its next directory added.
pub open spec fn takes_next(after: LinkEntry, before: LinkEntry, prefix: Seq<PathComponent>) -> bool {
    next_component(before, prefix) is Ok && extended(before, after, next_component(before, prefix)->Ok_0)
}

/// What a round of telling apart makes of an entry: one more directory where
/// it clashes, nothing otherwise.
pub open spec fn after_round(
    after: LinkEntry,
    before: LinkEntry,
    clash: bool,
    prefix: Seq<PathComponent>,
) -> bool {
    if clash {
        takes_next(after, before, prefix)
    } else {
        after == before
    }
}

/// How many more directories the entries could still take.
pub open spec fn slack(entries: Seq<LinkEntry>) -> int
    decreases entries.len(),
{
    if entries.len() == 0 {
        0
    } else {
        slack(entries.drop_last()) + path_components(entries.last().true_path@).len()
            - entries.last().omni_path@.path.len()
    }
}

/// Each logical path has no more directories than its real path has components.
pub open spec fn within_bounds(entries: Seq<LinkEntry>) -> bool {
    forall|i: int|
        0 <= i < entries.len() ==> #[trigger] entries[i].omni_path@.path.len() <= path_components(
            entries[i].true_path@,
        ).len()
}

proof fn lemma_slack_nonneg(entries: Seq<LinkEntry>)
    requires
        within_bounds(entries),
    ensures
        slack(entries) >= 0,
    decreases entries.len(),
{
    if entries.len() > 0 {
        let d = entries.drop_last();
        assert forall|i: int| 0 <= i < d.len() implies #[trigger] d[i].omni_path@.path.len()
            <= path_components(d[i].true_path@).len() by {
            assert(d[i] == entries[i]);
        }
        lemma_slack_nonneg(d);
        assert(entries.last() == entries[entries.len() - 1]);
    }
}

/// Entries that take more directories leave less slack; strictly less where one does.
proof fn lemma_slack_shrinks(a: Seq<LinkEntry>, b: Seq<LinkEntry>)
    requires
        a.len() == b.len(),
        forall|i: int|
            0 <= i < a.len() ==> (#[trigger] b[i]).true_path == a[i].true_path
                && b[i].omni_path@.path.len() >= a[i].omni_path@.path.len(),
    ensures
        slack(b) <= slack(a),
        (exists|i: int|
            0 <= i < a.len() && (#[trigger] b[i]).omni_path@.path.len() > a[i].omni_path@.path.len())
            ==> slack(b) < slack(a),
    decreases a.len(),
{
    if a.len() > 0 {
        let (da, db) = (a.drop_last(), b.drop_last());
        assert forall|i: int| 0 <= i < da.len() implies (#[trigger] db[i]).true_path == da[i].true_path
            && db[i].omni_path@.path.len() >= da[i].omni_path@.path.len() by {
            assert(da[i] == a[i] && db[i] == b[i]);
        }
        lemma_slack_shrinks(da, db);
        let last = a.len() - 1;
        assert(a.last() == a[last] && b.last() == b[last]);
        if exists|i: int|
            0 <= i < a.len() && (#[trigger] b[i]).omni_path@.path.len() > a[i].omni_path@.path.len() {
            let i = choose|i: int|
                0 <= i < a.len() && (#[trigger] b[i]).omni_path@.path.len()
                    > a[i].omni_path@.path.len();
            if i < last {
                assert(db[i] == b[i] && da[i] == a[i]);
            }
        }
    }
}

/// Whether two vectors of strings hold the same texts.
fn same_strings(a: &Vec<String>, b: &Vec<String>) -> (r: bool)
    ensures
        r == (views(a@) == views(b@)),
{
    if a.len() != b.len() {
        proof {
            assert(views(a@).len() != views(b@).len());
        }
        return false;
    }
    let mut i: usize = 0;
    while i < a.len()
        invariant
            a@.len() == b@.len(),
            i <= a@.len(),
            forall|k: int| 0 <= k < i ==> a@[k]@ == b@[k]@,
        decreases a@.len() - i,
    {
        if !(a[i] == b[i]) {
            proof {
                assert(views(a@)[i as int] != views(b@)[i as int]);
            }
            return false;
        }
        i = i + 1;
    }
    proof {
        assert(views(a@) =~= views(b@));
    }
    true
}

/// Whether another entry has the same logical path and name as entry `i`.
fn clashes_exec(entries: &Vec<LinkEntry>, i: usize) -> (r: bool)
    requires
        i < entries@.len(),
    ensures
        r == clashes(entries@, i as int),
{
    let mut j: usize = 0;
    while j < entries.len()
        invariant
            i < entries@.len(),
            j <= entries@.len(),
            forall|k: int|
                0 <= k < j && k != i ==> !(entries@[k].omni_path@.path
                    == entries@[i as int].omni_path@.path && entries@[k].omni_path@.name
                    == entries@[i as int].omni_path@.name),
        decreases entries@.len() - j,
    {
        if j != i && same_strings(&entries[j].omni_path.path, &entries[i].omni_path.path)
            && entries[j].omni_path.name == entries[i].omni_path.name {
            return true;
        }
        j = j + 1;
    }
    false
}

/// The components of the directory under which every note lies.
fn notes_prefix_exec(root: &String, config: &Config) -> (r: Vec<PathComponent>)
    ensures
        r@ == notes_prefix(root@, *config),
{
    match &config.project.prefix_dir {
        Some(d) => {
            let joined = join_path(root.as_str(), d.as_str());
            components(joined.as_str())
        },
        None => components(root.as_str()),
    }
}

/// The next directory that tells an entry apart.
fn next_component_exec(e: &LinkEntry, prefix: &Vec<PathComponent>) -> (r: Result<String, DedupError>)
    ensures
        match r {
            Ok(s) => next_component(*e, prefix@) == Ok::<Seq<char>, DedupError>(s@),
            Err(err) => next_component(*e, prefix@) == Err::<Seq<char>, DedupError>(err),
        },
{
    let cs = components(e.true_path.as_str());
    if !node::components_start_with(&cs, prefix) {
        return Err(DedupError::NodeOutsideProject);
    }
    let k = e.omni_path.path.len();
    let rest_len = cs.len() - prefix.len();
    if k < rest_len && k + 1 < rest_len {
        proof {
            assert(cs@.skip(prefix@.len() as int)[k as int] == cs@[prefix@.len() + k]);
        }
        Ok(component_string(&cs[prefix.len() + k]))
    } else {
        Err(DedupError::CannotGoFurther)
    }
}

/// One round of telling entries apart: every entry whose logical path and name
/// another entry shares takes one more directory from its real path.
/// Returns whether any entry changed.
pub fn dedup(root: &String, config: &Config, entries: &mut Vec<LinkEntry>) -> (r: Result<bool, DedupError>)
    ensures
        match r {
            Ok(edited) => {
                &&& final(entries)@.len() == old(entries)@.len()
                &&& edited == exists|i: int| 0 <= i < old(entries)@.len() && clashes(old(entries)@, i)
                &&& forall|i: int|
                    0 <= i < old(entries)@.len() ==> after_round(
                        #[trigger] final(entries)@[i],
                        old(entries)@[i],
                        clashes(old(entries)@, i),
                        notes_prefix(root@, *config),
                    )
            },
            Err(e) => exists|i: int|
                0 <= i < old(entries)@.len() && clashes(old(entries)@, i) && next_component(
                    old(entries)@[i],
                    notes_prefix(root@, *config),
                ) == Err::<Seq<char>, DedupError>(e),
        },
{
    let ghost start = entries@;
    let prefix = notes_prefix_exec(root, config);
    let mut flags: Vec<bool> = Vec::new();
    let mut i: usize = 0;
    while i < entries.len()
        invariant
            entries@ == start,
            start == old(entries)@,
            i <= start.len(),
            flags@.len() == i,
            forall|k: int| 0 <= k < i ==> flags@[k] == clashes(start, k),
        decreases start.len() - i,
    {
        flags.push(clashes_exec(entries, i));
        i = i + 1;
    }
    let mut edited = false;
    let mut i: usize = 0;
    while i < entries.len()
        invariant
            start == old(entries)@,
            entries@.len() == start.len(),
            flags@.len() == start.len(),
            prefix@ == notes_prefix(root@, *config),
            i <= start.len(),
            forall|k: int| 0 <= k < start.len() ==> flags@[k] == clashes(start, k),
            edited == exists|k: int| 0 <= k < i && clashes(start, k),
            forall|k: int|
                0 <= k < i ==> after_round(
                    #[trigger] entries@[k],
                    start[k],
                    clashes(start, k),
                    prefix@,
                ),
            forall|k: int| i <= k < start.len() ==> #[trigger] entries@[k] == start[k],
        decreases start.len() - i,
    {
        if flags[i] {
            proof {
                assert(entries@[i as int] == start[i as int]);
                assert(clashes(start, i as int));
            }
            let dir = match next_component_exec(&entries[i], &prefix) {
                Ok(d) => d,
                Err(e) => {
                    proof {
                        assert(next_component(start[i as int], notes_prefix(root@, *config))
                            == Err::<Seq<char>, DedupError>(e));
                    }
                    return Err(e);
                },
            };
            let ghost before = entries@[i as int];
            let ghost vec_before = entries@;
            let ghost dv = dir@;
            let mut path = copy_strings(&entries[i].omni_path.path);
            path.push(dir);
            entries[i].omni_path.path = path;
            proof {
                assert(views(entries@[i as int].omni_path.path@) =~= views(before.omni_path.path@).push(
                    dv,
                ));
                assert(entries@[i as int].true_path == start[i as int].true_path);
                assert(extended(start[i as int], entries@[i as int], dv));
                assert(next_component(start[i as int], prefix@) == Ok::<Seq<char>, DedupError>(dv));
                assert forall|k: int| 0 <= k < i + 1 implies after_round(
                    #[trigger] entries@[k],
                    start[k],
                    clashes(start, k),
                    prefix@,
                ) by {
                    if k < i {
                        assert(entries@[k] == vec_before[k]);
                    }
                }
                assert forall|k: int| i + 1 <= k < start.len() implies #[trigger] entries@[k]
                    == start[k] by {
                    assert(entries@[k] == vec_before[k]);
                }
            }
            edited = true;
        } else {
            proof {
                assert(!clashes(start, i as int));
                assert(entries@[i as int] == start[i as int]);
                assert forall|k: int| 0 <= k < i + 1 implies after_round(
                    #[trigger] entries@[k],
                    start[k],
                    clashes(start, k),
                    prefix@,
                ) by {}
            }
        }
        proof {
            if edited {
                if flags@[i as int] {
                    assert(clashes(start, i as int));
                }
            } else {
                assert forall|k: int| 0 <= k < i + 1 implies !clashes(start, k) by {
                    if k == i {
                        assert(!flags@[i as int]);
                    }
                }
            }
        }
        i = i + 1;
    }
    Ok(edited)
}

/// What realiasing with the first alias that applies makes of a path.
pub open spec fn realias_first(p: OmniPathView, aliases: Seq<DirAlias>) -> OmniPathView
    decreases aliases.len(),
{
    if aliases.len() == 0 {
        p
    } else {
        let (q, done) = realias_spec(p, aliases[0].name@, aliases[0].target@);
        if done {
            q
        } else {
            realias_first(p, aliases.drop_first())
        }
    }
}

/// Shortens a logical path with the first alias that applies to it.
pub fn apply_first_alias(p: &mut OmniPath, config: &Config)
    ensures
        final(p)@ == realias_first(old(p)@, config.dir_aliases@),
{
    let ghost start = p@;
    let mut k: usize = 0;
    proof {
        assert(config.dir_aliases@.skip(0) =~= config.dir_aliases@);
    }
    while k < config.dir_aliases.len()
        invariant
            p@ == start,
            start == old(p)@,
            k <= config.dir_aliases@.len(),
            realias_first(start, config.dir_aliases@) == realias_first(
                start,
                config.dir_aliases@.skip(k as int),
            ),
        decreases config.dir_aliases@.len() - k,
    {
        proof {
            assert(config.dir_aliases@.skip(k as int).drop_first() =~= config.dir_aliases@.skip(
                k + 1,
            ));
        }
        let alias = &config.dir_aliases[k];
        proof {
            assert(config.dir_aliases@.skip(k as int)[0] == config.dir_aliases@[k as int]);
        }
        if p.try_realias(alias.name.as_str(), alias.target.as_str()) {
            proof {
                assert(realias_first(start, config.dir_aliases@.skip(k as int)) == realias_spec(
                    start,
                    alias.name@,
                    alias.target@,
                ).0);
            }
            return;
        }
        k = k + 1;
    }
    proof {
        assert(config.dir_aliases@.skip(k as int).len() == 0);
    }
}

/// How many names the nodes have in all.
pub open spec fn name_count(nodes: Seq<Node>) -> nat
    decreases nodes.len(),
{
    if nodes.len() == 0 {
        0
    } else {
        name_count(nodes.drop_last()) + nodes.last().names@.len()
    }
}

/// Whether an entry stands for a name of a node, under the node's real path.
pub open spec fn entry_of_node(e: LinkEntry, nodes: Seq<Node>) -> bool {
    exists|i: int|
        0 <= i < nodes.len() && nodes[i].path == e.true_path && has_name(nodes[i], e.omni_path@.name)
}

/// Whether `after` holds the entries of `before`, each once, in some order.
pub open spec fn is_permutation(after: Seq<LinkEntry>, before: Seq<LinkEntry>) -> bool {
    after.len() == before.len() && exists|perm: Seq<int>| is_reordering(perm, after, before)
}

/// Whether `perm` takes each place of `after` to its own place of `before`, holding the same entry.
pub open spec fn is_reordering(perm: Seq<int>, after: Seq<LinkEntry>, before: Seq<LinkEntry>) -> bool {
    &&& perm.len() == after.len()
    &&& forall|k: int| 0 <= k < perm.len() ==> 0 <= #[trigger] perm[k] < before.len()
    &&& forall|k1: int, k2: int|
        0 <= k1 < perm.len() && 0 <= k2 < perm.len() && k1 != k2 ==> #[trigger] perm[k1]
            != #[trigger] perm[k2]
    &&& forall|k: int| 0 <= k < perm.len() ==> #[trigger] after[k] == before[perm[k]]
    &&& forall|j: int| 0 <= j < before.len() ==> #[trigger] perm.contains(j)
}

/// Relies on `slice::sort_by_key`: the entries are reordered by logical path.
#[verifier::external_body]
fn sort_entries(entries: &mut Vec<LinkEntry>)
    ensures
        is_permutation(final(entries)@, old(entries)@),
{
    entries.sort_by_key(|e| e.omni_path.clone())
}

/// Whether the entries tell every node name apart: no two share a logical path and name.
pub open spec fn told_apart(entries: Seq<LinkEntry>) -> bool {
    forall|i: int| 0 <= i < entries.len() ==> !clashes(entries, i)
}

/// Whether no two names of nodes are the same, within a node or across nodes.
pub open spec fn all_names_distinct(nodes: Seq<Node>) -> bool {
    forall|i: int, a: int, j: int, b: int|
        #![trigger nodes[i].names@[a], nodes[j].names@[b]]
        0 <= i < nodes.len() && 0 <= j < nodes.len() && 0 <= a < nodes[i].names@.len() && 0 <= b
            < nodes[j].names@.len() && (i != j || a != b) ==> nodes[i].names@[a]@
            != nodes[j].names@[b]@
}

/// Whether entry `e` stands for the name with index `o.1` of the node with index `o.0`.
pub open spec fn traced(e: LinkEntry, nodes: Seq<Node>, o: (int, int)) -> bool {
    &&& 0 <= o.0 < nodes.len()
    &&& 0 <= o.1 < nodes[o.0].names@.len()
    &&& e.true_path == nodes[o.0].path
    &&& e.omni_path@.name == nodes[o.0].names@[o.1]@
}

/// Whether entry `e` stands for the name `o`, which comes before name `j` of node `i`.
pub open spec fn traced_before(e: LinkEntry, nodes: Seq<Node>, o: (int, int), i: int, j: int) -> bool {
    traced(e, nodes, o) && (o.0 < i || (o.0 == i && o.1 < j))
}

/// Whether the directories of an entry are the first directories of its real
/// path under the notes directory, in order.
pub open spec fn own_dirs(e: LinkEntry, prefix: Seq<PathComponent>) -> bool {
    let cs = path_components(e.true_path@);
    let k = e.omni_path@.path.len();
    k == 0 || (starts_with(cs, prefix) && k < cs.len() - prefix.len() && e.omni_path@.path
        == texts(cs.skip(prefix.len() as int).take(k as int)))
}

/// Whether entries with the same real path and name have the same directories.
pub open spec fn in_step(entries: Seq<LinkEntry>) -> bool {
    forall|k1: int, k2: int|
        0 <= k1 < entries.len() && 0 <= k2 < entries.len() && (#[trigger] entries[k1]).true_path@
            == (#[trigger] entries[k2]).true_path@ && entries[k1].omni_path@.name
            == entries[k2].omni_path@.name ==> entries[k1].omni_path@.path
            == entries[k2].omni_path@.path
}

/// Whether two names of nodes are the same and the nodes have the same real
/// path, so that no directory can tell them apart.
pub open spec fn indistinguishable(nodes: Seq<Node>) -> bool {
    exists|i: int, a: int, j: int, b: int|
        #![trigger nodes[i].names@[a], nodes[j].names@[b]]
        0 <= i < nodes.len() && 0 <= j < nodes.len() && 0 <= a < nodes[i].names@.len() && 0 <= b
            < nodes[j].names@.len() && (i != j || a != b) && nodes[i].names@[a]@
            == nodes[j].names@[b]@ && nodes[i].path@ == nodes[j].path@
}

/// A round keeps each entry's real path and name, its own directories, and
/// entries that agree on real path and name in step.
proof fn lemma_round_keeps(before: Seq<LinkEntry>, after: Seq<LinkEntry>, prefix: Seq<PathComponent>)
    requires
        before.len() == after.len(),
        forall|i: int|
            0 <= i < before.len() ==> after_round(
                #[trigger] after[i],
                before[i],
                clashes(before, i),
                prefix,
            ),
        forall|i: int| 0 <= i < before.len() ==> own_dirs(#[trigger] before[i], prefix),
        in_step(before),
    ensures
        forall|i: int|
            0 <= i < after.len() ==> (#[trigger] after[i]).true_path == before[i].true_path
                && after[i].omni_path@.name == before[i].omni_path@.name && own_dirs(after[i], prefix),
        in_step(after),
{
    assert forall|i: int| 0 <= i < after.len() implies (#[trigger] after[i]).true_path
        == before[i].true_path && after[i].omni_path@.name == before[i].omni_path@.name && own_dirs(
        after[i],
        prefix,
    ) by {
        if clashes(before, i) {
            let e = before[i];
            assert(takes_next(after[i], e, prefix));
            let cs = path_components(e.true_path@);
            let k = e.omni_path@.path.len();
            let rest = cs.skip(prefix.len() as int);
            assert(starts_with(cs, prefix) && k + 1 < rest.len());
            if k == 0 {
                assert(e.omni_path@.path =~= texts(rest.take(0)));
            }
            assert(texts(rest.take(k as int + 1)) =~= texts(rest.take(k as int)).push(
                component_text(rest[k as int]),
            ));
        }
    }
    assert forall|k1: int, k2: int|
        0 <= k1 < after.len() && 0 <= k2 < after.len() && (#[trigger] after[k1]).true_path@
            == (#[trigger] after[k2]).true_path@ && after[k1].omni_path@.name
            == after[k2].omni_path@.name implies after[k1].omni_path@.path
        == after[k2].omni_path@.path by {
        assert(before[k1].true_path == after[k1].true_path);
        assert(before[k2].true_path == after[k2].true_path);
        assert(before[k1].omni_path@.path == before[k2].omni_path@.path);
        if k1 != k2 {
            if clashes(before, k1) {
                let j = choose|j: int|
                    0 <= j < before.len() && j != k1 && before[j].omni_path@.path
                        == before[k1].omni_path@.path && before[j].omni_path@.name
                        == before[k1].omni_path@.name;
                if j != k2 {
                    assert(clashes(before, k2));
                } else {
                    assert(clashes(before, k2));
                }
            } else {
                assert(!clashes(before, k2)) by {
                    if clashes(before, k2) {
                        let j = choose|j: int|
                            0 <= j < before.len() && j != k2 && before[j].omni_path@.path
                                == before[k2].omni_path@.path && before[j].omni_path@.name
                                == before[k2].omni_path@.name;
                        assert(j == k1 || clashes(before, k1));
                    }
                }
            }
        }
    }
}

/// Whether `after` is what one round of telling apart makes of `before`.
pub open spec fn one_round(before: Seq<LinkEntry>, after: Seq<LinkEntry>, prefix: Seq<PathComponent>) -> bool {
    &&& after.len() == before.len()
    &&& forall|i: int|
        0 <= i < before.len() ==> after_round(#[trigger] after[i], before[i], clashes(before, i), prefix)
}

/// Whether `chain` are the rounds from `start` to a list that no round changes:
/// each is what a round makes of the one before, and the last is told apart.
pub open spec fn rounds_to(chain: Seq<Seq<LinkEntry>>, start: Seq<LinkEntry>, prefix: Seq<PathComponent>) -> bool {
    &&& chain.len() >= 1
    &&& chain[0] == start
    &&& forall|t: int| 0 <= t < chain.len() - 1 ==> one_round(#[trigger] chain[t], chain[t + 1], prefix)
    &&& told_apart(chain.last())
}

/// What the list of ways to link holds: `start` holds one entry without
/// directories for each name of each node, `orig` the node and name that each
/// stands for; `d` is where the rounds of telling apart lead from `start`; the
/// directories of each entry are its own, and the listed entries are those of
/// `d` shortened by the first alias that applies.
pub open spec fn links_found(
    out: Seq<LinkEntry>,
    d: Seq<LinkEntry>,
    orig: Seq<(int, int)>,
    chain: Seq<Seq<LinkEntry>>,
    nodes: Seq<Node>,
    prefix: Seq<PathComponent>,
    aliases: Seq<DirAlias>,
) -> bool {
    &&& rounds_to(chain, chain[0], prefix)
    &&& chain.last() == d
    &&& chain[0].len() == d.len()
    &&& forall|k: int|
        0 <= k < d.len() ==> traced(#[trigger] chain[0][k], nodes, orig[k])
            && chain[0][k].omni_path@.path.len() == 0
    &&& told_apart(d)
    &&& d.len() == out.len()
    &&& orig.len() == d.len()
    &&& forall|k: int|
        0 <= k < d.len() ==> traced(#[trigger] d[k], nodes, orig[k]) && own_dirs(d[k], prefix)
            && out[k].true_path == d[k].true_path && out[k].omni_path@ == realias_first(
            d[k].omni_path@,
            aliases,
        )
    &&& forall|k1: int, k2: int|
        0 <= k1 < orig.len() && 0 <= k2 < orig.len() && k1 != k2 ==> #[trigger] orig[k1]
            != #[trigger] orig[k2]
    &&& forall|i: int, a: int|
        0 <= i < nodes.len() && 0 <= a < nodes[i].names@.len() ==> #[trigger] orig.contains((i, a))
    &&& all_names_distinct(nodes) ==> forall|k: int|
        0 <= k < d.len() ==> (#[trigger] d[k]).omni_path@.path.len() == 0
}

/// The ways to link to every node: one entry per name of each node, with the
/// fewest directories that tell it apart from the others, taken in order from
/// its real path under the notes directory, each then shortened by the first
/// alias that applies. Where all names differ, no directory is needed and the
/// build of the list cannot fail; where two nodes with one real path share a
/// name, it fails.
pub fn get_possible_links(root: &String, config: &Config, nodes: &node::Db) -> (r: Result<
    Vec<LinkEntry>,
    GetPossibleLinksError,
>)
    ensures
        match r {
            Ok(out) => out@.len() == name_count(nodes.nodes@) && exists|
                d: Seq<LinkEntry>,
                orig: Seq<(int, int)>,
                chain: Seq<Seq<LinkEntry>>,
            |
                #[trigger] links_found(
                    out@,
                    d,
                    orig,
                    chain,
                    nodes.nodes@,
                    notes_prefix(root@, *config),
                    config.dir_aliases@,
                ),
            Err(_) => !all_names_distinct(nodes.nodes@),
        },
        indistinguishable(nodes.nodes@) ==> r is Err,
        r == Err::<Vec<LinkEntry>, GetPossibleLinksError>(
            GetPossibleLinksError::DedupError(DedupError::NodeOutsideProject),
        ) ==> exists|i: int|
            0 <= i < nodes.nodes@.len() && !starts_with(
                path_components(#[trigger] nodes.nodes@[i].path@),
                notes_prefix(root@, *config),
            ),
{
    let ghost prefix = notes_prefix(root@, *config);
    let mut entries: Vec<LinkEntry> = Vec::new();
    let ghost mut origin: Seq<(int, int)> = Seq::empty();
    let mut i: usize = 0;
    while i < nodes.nodes.len()
        invariant
            i <= nodes.nodes@.len(),
            entries@.len() == name_count(nodes.nodes@.subrange(0, i as int)),
            origin.len() == entries@.len(),
            forall|k: int|
                0 <= k < origin.len() ==> traced_before(
                    #[trigger] entries@[k],
                    nodes.nodes@,
                    origin[k],
                    i as int,
                    0,
                ),
            forall|k1: int, k2: int|
                0 <= k1 < origin.len() && 0 <= k2 < origin.len() && k1 != k2 ==> #[trigger] origin[k1]
                    != #[trigger] origin[k2],
            forall|i2: int, a: int|
                0 <= i2 < i && 0 <= a < nodes.nodes@[i2].names@.len() ==> #[trigger] origin.contains((i2, a)),
            forall|k: int| 0 <= k < entries@.len() ==> (#[trigger] entries@[k]).omni_path@.path.len() == 0,
        decreases nodes.nodes@.len() - i,
    {
        let node = &nodes.nodes[i];
        let mut j: usize = 0;
        while j < node.names.len()
            invariant
                i < nodes.nodes@.len(),
                *node == nodes.nodes@[i as int],
                j <= node.names@.len(),
                entries@.len() == name_count(nodes.nodes@.subrange(0, i as int)) + j,
                origin.len() == entries@.len(),
                forall|k: int|
                    0 <= k < origin.len() ==> traced_before(
                        #[trigger] entries@[k],
                        nodes.nodes@,
                        origin[k],
                        i as int,
                        j as int,
                    ),
                forall|k1: int, k2: int|
                    0 <= k1 < origin.len() && 0 <= k2 < origin.len() && k1 != k2 ==> #[trigger] origin[k1]
                        != #[trigger] origin[k2],
                forall|i2: int, a: int|
                    0 <= i2 < nodes.nodes@.len() && 0 <= a < nodes.nodes@[i2].names@.len() && (i2 < i
                        || (i2 == i && a < j)) ==> #[trigger] origin.contains((i2, a)),
                forall|k: int| 0 <= k < entries@.len() ==> (#[trigger] entries@[k]).omni_path@.path.len() == 0,
            decreases node.names@.len() - j,
        {
            let omni_path = OmniPath::new(Vec::new(), node.names[j].clone()).force_unalias();
            let e = LinkEntry { omni_path, true_path: node.path.clone() };
            let ghost before = origin;
            let ghost before_entries = entries@;
            entries.push(e);
            proof {
                origin = origin.push((i as int, j as int));
                assert forall|k1: int, k2: int|
                    0 <= k1 < origin.len() && 0 <= k2 < origin.len() && k1 != k2 implies #[trigger] origin[k1]
                        != #[trigger] origin[k2] by {
                    if k1 < before.len() && k2 < before.len() {
                        assert(origin[k1] == before[k1] && origin[k2] == before[k2]);
                    } else if k1 < before.len() {
                        assert(origin[k1] == before[k1]);
                        assert(traced(before_entries[k1], nodes.nodes@, before[k1]));
                    } else if k2 < before.len() {
                        assert(origin[k2] == before[k2]);
                        assert(traced(before_entries[k2], nodes.nodes@, before[k2]));
                    }
                }
                assert forall|k: int| 0 <= k < origin.len() implies traced_before(
                    #[trigger] entries@[k],
                    nodes.nodes@,
                    origin[k],
                    i as int,
                    j + 1,
                ) by {
                    if k < before.len() {
                        assert(origin[k] == before[k] && entries@[k] == before_entries[k]);
                    }
                }
                assert forall|i2: int, a: int|
                    0 <= i2 < nodes.nodes@.len() && 0 <= a < nodes.nodes@[i2].names@.len() && (i2 < i
                        || (i2 == i && a < j + 1)) implies #[trigger] origin.contains((i2, a)) by {
                    if i2 == i && a == j {
                        assert(origin[before.len() as int] == (i2, a));
                    } else {
                        assert(before.contains((i2, a)));
                        let k = choose|k: int| 0 <= k < before.len() && before[k] == (i2, a);
                        assert(origin[k] == (i2, a));
                    }
                }
            }
            j = j + 1;
        }
        proof {
            assert(nodes.nodes@.subrange(0, i + 1).drop_last() =~= nodes.nodes@.subrange(0, i as int));
        }
        i = i + 1;
    }
    proof {
        assert(nodes.nodes@.subrange(0, nodes.nodes@.len() as int) =~= nodes.nodes@);
    }
    let ghost unsorted = entries@;
    proof {
        if all_names_distinct(nodes.nodes@) {
            assert forall|k: int| 0 <= k < unsorted.len() implies !clashes(unsorted, k) by {
                if clashes(unsorted, k) {
                    let m = choose|m: int|
                        0 <= m < unsorted.len() && m != k && unsorted[m].omni_path@.path
                            == unsorted[k].omni_path@.path && unsorted[m].omni_path@.name
                            == unsorted[k].omni_path@.name;
                    assert(origin[m] != origin[k]);
                    assert(traced(unsorted[m], nodes.nodes@, origin[m]));
                    assert(traced(unsorted[k], nodes.nodes@, origin[k]));
                    assert(nodes.nodes@[origin[m].0].names@[origin[m].1]@
                        != nodes.nodes@[origin[k].0].names@[origin[k].1]@);
                }
            }
        }
    }
    sort_entries(&mut entries);
    let ghost sorted = entries@;
    let ghost perm = choose|perm: Seq<int>| is_reordering(perm, sorted, unsorted);
    let ghost orig = Seq::new(sorted.len(), |k: int| origin[perm[k]]);
    proof {
        assert forall|k: int| 0 <= k < sorted.len() implies traced(#[trigger] sorted[k], nodes.nodes@, orig[k])
            && sorted[k].omni_path@.path.len() == 0 && own_dirs(sorted[k], prefix) by {
            assert(sorted[k] == unsorted[perm[k]]);
            assert(traced(unsorted[perm[k]], nodes.nodes@, origin[perm[k]]));
        }
        assert forall|k1: int, k2: int|
            0 <= k1 < orig.len() && 0 <= k2 < orig.len() && k1 != k2 implies #[trigger] orig[k1]
                != #[trigger] orig[k2] by {
            assert(perm[k1] != perm[k2]);
        }
        assert forall|i2: int, a: int|
            0 <= i2 < nodes.nodes@.len() && 0 <= a < nodes.nodes@[i2].names@.len() implies #[trigger] orig.contains(
                (i2, a),
            ) by {
            assert(origin.contains((i2, a)));
            let k0 = choose|k0: int| 0 <= k0 < origin.len() && origin[k0] == (i2, a);
            assert(perm.contains(k0));
            let k = choose|k: int| 0 <= k < perm.len() && perm[k] == k0;
            assert(orig[k] == (i2, a));
        }
        assert forall|k1: int, k2: int|
            0 <= k1 < sorted.len() && 0 <= k2 < sorted.len() && (#[trigger] sorted[k1]).true_path@
                == (#[trigger] sorted[k2]).true_path@ && sorted[k1].omni_path@.name
                == sorted[k2].omni_path@.name implies sorted[k1].omni_path@.path
            == sorted[k2].omni_path@.path by {
            assert(sorted[k1].omni_path@.path =~= sorted[k2].omni_path@.path);
        }
        if all_names_distinct(nodes.nodes@) {
            assert forall|k: int| 0 <= k < sorted.len() implies !clashes(sorted, k) by {
                if clashes(sorted, k) {
                    let m = choose|m: int|
                        0 <= m < sorted.len() && m != k && sorted[m].omni_path@.path
                            == sorted[k].omni_path@.path && sorted[m].omni_path@.name
                            == sorted[k].omni_path@.name;
                    assert(sorted[m] == unsorted[perm[m]]);
                    assert(sorted[k] == unsorted[perm[k]]);
                    assert(perm[m] != perm[k]);
                    assert(clashes(unsorted, perm[k]));
                }
            }
        }
        if indistinguishable(nodes.nodes@) {
            let (i1, a1, j1, b1) = choose|i1: int, a1: int, j1: int, b1: int|
                #![trigger nodes.nodes@[i1].names@[a1], nodes.nodes@[j1].names@[b1]]
                0 <= i1 < nodes.nodes@.len() && 0 <= j1 < nodes.nodes@.len() && 0 <= a1
                    < nodes.nodes@[i1].names@.len() && 0 <= b1 < nodes.nodes@[j1].names@.len() && (i1
                    != j1 || a1 != b1) && nodes.nodes@[i1].names@[a1]@ == nodes.nodes@[j1].names@[b1]@
                    && nodes.nodes@[i1].path@ == nodes.nodes@[j1].path@;
            assert(orig.contains((i1, a1)) && orig.contains((j1, b1)));
            let k1 = choose|k: int| 0 <= k < orig.len() && orig[k] == (i1, a1);
            let k2 = choose|k: int| 0 <= k < orig.len() && orig[k] == (j1, b1);
            assert(traced(sorted[k1], nodes.nodes@, orig[k1]));
            assert(traced(sorted[k2], nodes.nodes@, orig[k2]));
            assert(k1 != k2);
            assert(clashes(sorted, k1));
        }
    }
    let ghost mut chain: Seq<Seq<LinkEntry>> = seq![sorted];
    loop
        invariant
            chain.len() >= 1,
            chain[0] == sorted,
            chain.last() == entries@,
            forall|t: int| 0 <= t < chain.len() - 1 ==> one_round(#[trigger] chain[t], chain[t + 1], prefix),
            entries@.len() == name_count(nodes.nodes@),
            entries@.len() == orig.len(),
            prefix == notes_prefix(root@, *config),
            forall|k: int|
                0 <= k < entries@.len() ==> traced(#[trigger] entries@[k], nodes.nodes@, orig[k])
                    && own_dirs(entries@[k], prefix),
            in_step(entries@),
            within_bounds(entries@),
            all_names_distinct(nodes.nodes@) ==> told_apart(sorted) && entries@ == sorted,
            forall|k: int| 0 <= k < sorted.len() ==> (#[trigger] sorted[k]).omni_path@.path.len() == 0,
            indistinguishable(nodes.nodes@) ==> exists|k1: int, k2: int|
                0 <= k1 < entries@.len() && 0 <= k2 < entries@.len() && k1 != k2
                    && (#[trigger] entries@[k1]).true_path@ == (#[trigger] entries@[k2]).true_path@
                    && entries@[k1].omni_path@.name == entries@[k2].omni_path@.name,
        ensures
            rounds_to(chain, sorted, prefix),
            chain.last() == entries@,
            entries@.len() == name_count(nodes.nodes@),
            entries@.len() == orig.len(),
            forall|k: int|
                0 <= k < entries@.len() ==> traced(#[trigger] entries@[k], nodes.nodes@, orig[k])
                    && own_dirs(entries@[k], prefix),
            told_apart(entries@),
            in_step(entries@),
            all_names_distinct(nodes.nodes@) ==> entries@ == sorted,
            !indistinguishable(nodes.nodes@),
        decreases slack(entries@),
    {
        let ghost before = entries@;
        match dedup(root, config, &mut entries) {
            Ok(true) => {
                proof {
                    let old_chain = chain;
                    chain = chain.push(entries@);
                    assert forall|t: int| 0 <= t < chain.len() - 1 implies one_round(
                        #[trigger] chain[t],
                        chain[t + 1],
                        prefix,
                    ) by {
                        if t < old_chain.len() - 1 {
                            assert(chain[t] == old_chain[t] && chain[t + 1] == old_chain[t + 1]);
                        } else {
                            assert(chain[t] == before && chain[t + 1] == entries@);
                        }
                    }
                    lemma_round_keeps(before, entries@, prefix);
                    assert forall|k: int| 0 <= k < entries@.len() implies traced(
                        #[trigger] entries@[k],
                        nodes.nodes@,
                        orig[k],
                    ) && own_dirs(entries@[k], prefix) && entries@[k].omni_path@.path.len()
                        <= path_components(entries@[k].true_path@).len() by {
                        assert(traced(before[k], nodes.nodes@, orig[k]));
                    }
                    assert forall|k: int| 0 <= k < before.len() implies (
                    #[trigger] entries@[k]).true_path == before[k].true_path
                        && entries@[k].omni_path@.path.len() >= before[k].omni_path@.path.len() by {}
                    let w = choose|w: int| 0 <= w < before.len() && clashes(before, w);
                    assert(entries@[w].omni_path@.path.len() > before[w].omni_path@.path.len());
                    lemma_slack_shrinks(before, entries@);
                    lemma_slack_nonneg(entries@);
                    if indistinguishable(nodes.nodes@) {
                        let (k1, k2) = choose|k1: int, k2: int|
                            0 <= k1 < before.len() && 0 <= k2 < before.len() && k1 != k2
                                && (#[trigger] before[k1]).true_path@ == (#[trigger] before[k2]).true_path@
                                && before[k1].omni_path@.name == before[k2].omni_path@.name;
                        assert(entries@[k1].true_path == before[k1].true_path);
                        assert(entries@[k2].true_path == before[k2].true_path);
                    }
                }
            },
            Ok(false) => {
                proof {
                    assert(entries@ =~= before);
                    if indistinguishable(nodes.nodes@) {
                        let (k1, k2) = choose|k1: int, k2: int|
                            0 <= k1 < before.len() && 0 <= k2 < before.len() && k1 != k2
                                && (#[trigger] before[k1]).true_path@ == (#[trigger] before[k2]).true_path@
                                && before[k1].omni_path@.name == before[k2].omni_path@.name;
                        assert(clashes(before, k1));
                    }
                }
                break;
            },
            Err(e) => {
                proof {
                    if e == DedupError::NodeOutsideProject {
                        let w = choose|w: int|
                            0 <= w < before.len() && clashes(before, w) && next_component(
                                before[w],
                                prefix,
                            ) == Err::<Seq<char>, DedupError>(e);
                        assert(traced(before[w], nodes.nodes@, orig[w]));
                        let n = orig[w].0;
                        assert(!starts_with(path_components(nodes.nodes@[n].path@), prefix));
                    }
                }
                return Err(GetPossibleLinksError::DedupError(e));
            },
        }
    }
    let ghost d = entries@;
    let mut k: usize = 0;
    while k < entries.len()
        invariant
            rounds_to(chain, sorted, prefix),
            chain.last() == d,
            sorted.len() == d.len(),
            forall|m: int| 0 <= m < d.len() ==> traced(#[trigger] sorted[m], nodes.nodes@, orig[m]),
            entries@.len() == d.len(),
            d.len() == name_count(nodes.nodes@),
            orig.len() == d.len(),
            prefix == notes_prefix(root@, *config),
            told_apart(d),
            forall|m: int|
                0 <= m < d.len() ==> traced(#[trigger] d[m], nodes.nodes@, orig[m]) && own_dirs(d[m], prefix),
            forall|k1: int, k2: int|
                0 <= k1 < orig.len() && 0 <= k2 < orig.len() && k1 != k2 ==> #[trigger] orig[k1]
                    != #[trigger] orig[k2],
            forall|i2: int, a: int|
                0 <= i2 < nodes.nodes@.len() && 0 <= a < nodes.nodes@[i2].names@.len() ==> #[trigger] orig.contains((i2, a)),
            all_names_distinct(nodes.nodes@) ==> d == sorted,
            forall|m: int| 0 <= m < sorted.len() ==> (#[trigger] sorted[m]).omni_path@.path.len() == 0,
            !indistinguishable(nodes.nodes@),
            k <= d.len(),
            forall|m: int|
                0 <= m < k ==> (#[trigger] entries@[m]).true_path == d[m].true_path
                    && entries@[m].omni_path@ == realias_first(d[m].omni_path@, config.dir_aliases@),
            forall|m: int| k <= m < d.len() ==> #[trigger] entries@[m] == d[m],
        decreases d.len() - k,
    {
        apply_first_alias(&mut entries[k].omni_path, config);
        k = k + 1;
    }
    proof {
        assert(links_found(entries@, d, orig, chain, nodes.nodes@, prefix, config.dir_aliases@));
        assert(exists|d2: Seq<LinkEntry>, o2: Seq<(int, int)>, c2: Seq<Seq<LinkEntry>>|
            #[trigger] links_found(
                entries@,
                d2,
                o2,
                c2,
                nodes.nodes@,
                notes_prefix(root@, *config),
                config.dir_aliases@,
            ));
    }
    Ok(entries)
}

} // verus!
