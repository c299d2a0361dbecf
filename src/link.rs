use vstd::prelude::*;

use crate::config::Config;
use crate::node::{self, has_path, node_matches, resolve_error, Id};
use crate::path_parts::{push_char, views};

verus! {

/// Where a link points: a node, or a target that names no node yet.
#[derive(Debug, Clone, PartialEq)]
pub enum To {
    Id(Id),
    GhostTarget(FilePart),
}

/// A link from one node to another, or to a ghost.
#[derive(Debug, Clone, PartialEq)]
pub struct Link {
    pub from: Id,
    pub to: To,
    pub location: Option<Location>,
    /// Text to show in place of the target's title.
    pub alias: Option<String>,
}

/// A place inside a node.
#[derive(Debug, Clone, PartialEq)]
pub enum Location {
    /// A stable anchor inside the node; always preferred.
    Label(String),
    /// The full path of headings down to one, which may stop resolving after edits.
    HeadingPath(Vec<String>),
}

/// An unresolved link target.
#[derive(Debug, Clone, PartialEq)]
pub enum FilePart {
    /// Any node with this name, anywhere in the project.
    Name(String),
    /// A node with this name under a directory, whose first part may be an alias.
    PathAndName(Vec<String>, String),
}

/// An unresolved place inside a node.
#[derive(Debug, Clone, PartialEq)]
pub enum HeadingPart {
    /// A heading anywhere in the node.
    Heading(String),
    /// A heading under the given headings.
    PathAndHeading(Vec<String>, String),
}

/// A link as a user writes it, before its target is looked up.
#[derive(Debug, Clone, PartialEq)]
pub struct UnresolvedLink {
    /// The canonical path of the file that holds the link.
    pub from: String,
    pub file_part: FilePart,
    pub heading_part: Option<HeadingPart>,
    pub alias: Option<String>,
}

#[derive(Debug, Clone, PartialEq)]
pub enum Error {
    NodeDbError(node::Error),
}

/// The links database.
#[derive(Debug, Clone, PartialEq)]
pub struct Db {
    pub links: Vec<Link>,
}

/// What an unresolved link target holds, as plain sequences.
pub enum FilePartView {
    Name(Seq<char>),
    PathAndName(Seq<Seq<char>>, Seq<char>),
}

impl View for FilePart {
    type V = FilePartView;

    open spec fn view(&self) -> FilePartView {
        match self {
            FilePart::Name(n) => FilePartView::Name(n@),
            FilePart::PathAndName(dirs, n) => FilePartView::PathAndName(views(dirs@), n@),
        }
    }
}

/// The pieces of `s` between occurrences of `sep`; there is always at least one.
pub open spec fn split_on(s: Seq<char>, sep: char) -> Seq<Seq<char>>
    decreases s.len(),
{
    if s.len() == 0 {
        seq![Seq::empty()]
    } else {
        let prev = split_on(s.drop_last(), sep);
        if s.last() == sep {
            prev.push(Seq::empty())
        } else {
            prev.update(prev.len() - 1, prev.last().push(s.last()))
        }
    }
}

pub proof fn lemma_split_on_nonempty(s: Seq<char>, sep: char)
    ensures
        split_on(s, sep).len() >= 1,
    decreases s.len(),
{
    if s.len() > 0 {
        lemma_split_on_nonempty(s.drop_last(), sep);
    }
}

/// The target that a link spells as names separated by dots: one name alone,
/// or directories followed by the name. No piece may be empty.
pub open spec fn typst_part(s: Seq<char>) -> Option<FilePartView> {
    let segs = split_on(s, '.');
    if exists|k: int| 0 <= k < segs.len() && #[trigger] segs[k].len() == 0 {
        None
    } else if segs.len() == 1 {
        Some(FilePartView::Name(segs[0]))
    } else {
        Some(FilePartView::PathAndName(segs.drop_last(), segs.last()))
    }
}

/// The pieces of a text between occurrences of `sep`.
pub fn split_text(text: &str, sep: char) -> (r: Vec<String>)
    ensures
        views(r@) == split_on(text@, sep),
{
    let mut segs: Vec<String> = Vec::new();
    let mut cur = String::new();
    let ghost mut done: Seq<char> = Seq::empty();
    for c in it: text.chars()
        invariant
            it.seq() == text@,
            done == text@.subrange(0, it.index() as int),
            views(segs@).push(cur@) == split_on(done, sep),
    {
        proof {
            lemma_split_on_nonempty(done, sep);
            let next = done.push(c);
            assert(next.drop_last() =~= done);
        }
        if c == sep {
            let ghost before = segs@;
            let ghost cur_before = cur@;
            segs.push(cur);
            cur = String::new();
            proof {
                assert(views(segs@).push(cur@) =~= views(before).push(cur_before).push(
                    Seq::empty(),
                ));
            }
        } else {
            let ghost old_cur = cur@;
            push_char(&mut cur, c);
            proof {
                let prev = split_on(done, sep);
                assert(views(segs@).push(cur@) =~= prev.update(prev.len() - 1, prev.last().push(c)));
            }
        }
        proof {
            done = done.push(c);
            assert(done =~= text@.subrange(0, it.index() as int + 1));
        }
    }
    proof {
        assert(done =~= text@);
    }
    segs.push(cur);
    segs
}

impl FilePart {
    /// Reads a target written as names separated by dots: one name alone, or
    /// directories followed by the name. `None` where a piece is empty.
    pub fn from_typst_style(text: &str) -> (r: Option<FilePart>)
        ensures
            match r {
                Some(p) => typst_part(text@) == Some(p@),
                None => typst_part(text@) is None,
            },
    {
        let mut segs = split_text(text, '.');
        let ghost sv = views(segs@);
        let mut k: usize = 0;
        while k < segs.len()
            invariant
                sv == views(segs@),
                sv == split_on(text@, '.'),
                k <= segs@.len(),
                forall|j: int| 0 <= j < k ==> sv[j].len() != 0,
            decreases segs@.len() - k,
        {
            if segs[k].as_str().is_empty() {
                proof {
                    assert(sv[k as int].len() == 0);
                }
                return None;
            }
            k = k + 1;
        }
        proof {
            lemma_split_on_nonempty(text@, '.');
            assert(!(exists|j: int| 0 <= j < sv.len() && #[trigger] sv[j].len() == 0));
        }
        let name = segs.pop().unwrap();
        if segs.len() == 0 {
            Some(FilePart::Name(name))
        } else {
            proof {
                assert(views(segs@) =~= sv.drop_last());
            }
            Some(FilePart::PathAndName(segs, name))
        }
    }
}

impl UnresolvedLink {
    /// Resolves the link: its origin must be a node; its target is that node's
    /// id where exactly one node answers to it, and stays a ghost where none does.
    pub fn try_resolve(self, config: &Config, nodes: &node::Db) -> (r: Result<Link, Error>)
        ensures
            match r {
                Ok(l) => {
                    &&& exists|i: int|
                        0 <= i < nodes.nodes@.len() && nodes.nodes@[i].path@ == self.from@
                            && l.from == nodes.nodes@[i].id
                    &&& l.location is None
                    &&& l.alias == self.alias
                    &&& match resolve_error(nodes.nodes@, self.file_part, config.dir_aliases@) {
                        None => exists|j: int|
                            0 <= j < nodes.nodes@.len() && l.to == To::Id(nodes.nodes@[j].id)
                                && node_matches(nodes.nodes@[j], self.file_part, config.dir_aliases@),
                        Some(node::Error::NameNotFound(_)) => l.to == To::GhostTarget(self.file_part),
                        Some(_) => false,
                    }
                },
                Err(Error::NodeDbError(e)) => if !has_path(nodes.nodes@, self.from@) {
                    e == node::Error::UntrackedNode(self.from)
                } else {
                    resolve_error(nodes.nodes@, self.file_part, config.dir_aliases@) == Some(e)
                        && !(e is NameNotFound)
                },
            },
    {
        let from = match nodes.find_abs(&self.from) {
            Ok(n) => n,
            Err(e) => return Err(Error::NodeDbError(e)),
        };
        let to = match nodes.find_from_filepart(&self.file_part, config) {
            Ok(n) => To::Id(n.id.copy()),
            Err(node::Error::NameNotFound(_)) => To::GhostTarget(self.file_part),
            Err(e) => return Err(Error::NodeDbError(e)),
        };
        Ok(Link { from: from.id.copy(), to, location: None, alias: self.alias })
    }
}

} // verus!
