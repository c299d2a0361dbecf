use vstd::prelude::*;

use crate::path_parts::{parent, path_parent};

verus! {

/// The `[project]` table of a project's configuration.
#[derive(Debug, Clone, PartialEq)]
pub struct Project {
    pub name: String,
    /// A directory under the root that holds every note, if any.
    pub prefix_dir: Option<String>,
}

/// Which artifacts rendering produces.
#[derive(Debug, Clone, Copy, PartialEq, Eq)]
pub enum OutputFormat {
    Html,
    Pdf,
    HtmlAndPdf,
}

/// A directory alias: `name` stands for the path `target`.
#[derive(Debug, Clone, PartialEq)]
pub struct DirAlias {
    pub name: String,
    pub target: String,
}

/// The configuration of a project, which also marks its root.
///
/// Aliases are looked up in order: the first with a given name wins.
#[derive(Debug, Clone, PartialEq)]
pub struct Config {
    pub project: Project,
    pub output_format: OutputFormat,
    pub dir_aliases: Vec<DirAlias>,
}

/// One step of the search for the project root, which goes up from the working
/// directory to the first directory that holds the configuration.
#[derive(Debug, Clone, PartialEq)]
pub enum RootSearch {
    /// This directory is the root.
    Found(String),
    /// Look in this directory next.
    Next(String),
    /// No directory up to the top holds the configuration.
    NotFound,
}

/// Whether the search stops at a directory, goes on to its parent, or gives up.
pub open spec fn root_search_spec(current: Seq<char>, holds_config: bool) -> RootSearchView {
    if holds_config {
        RootSearchView::Found(current)
    } else {
        match path_parent(current) {
            Some(p) => if p.len() != 0 {
                RootSearchView::Next(p)
            } else {
                RootSearchView::NotFound
            },
            None => RootSearchView::NotFound,
        }
    }
}

/// What a step of the search holds, as plain sequences.
pub enum RootSearchView {
    Found(Seq<char>),
    Next(Seq<char>),
    NotFound,
}

impl View for RootSearch {
    type V = RootSearchView;

    open spec fn view(&self) -> RootSearchView {
        match self {
            RootSearch::Found(s) => RootSearchView::Found(s@),
            RootSearch::Next(s) => RootSearchView::Next(s@),
            RootSearch::NotFound => RootSearchView::NotFound,
        }
    }
}

/// The next step of the search for the project root, from the directory
/// `current`, which holds the configuration file or not.
pub fn root_search_step(current: &String, holds_config: bool) -> (r: RootSearch)
    ensures
        r@ == root_search_spec(current@, holds_config),
{
    if holds_config {
        return RootSearch::Found(current.clone());
    }
    match parent(current.as_str()) {
        Some(p) => {
            if p.as_str().is_empty() {
                RootSearch::NotFound
            } else {
                RootSearch::Next(p)
            }
        },
        None => RootSearch::NotFound,
    }
}

/// The target of the first alias named `key`, if any.
pub open spec fn alias_target(aliases: Seq<DirAlias>, key: Seq<char>) -> Option<Seq<char>>
    decreases aliases.len(),
{
    if aliases.len() == 0 {
        None
    } else if aliases[0].name@ == key {
        Some(aliases[0].target@)
    } else {
        alias_target(aliases.drop_first(), key)
    }
}

impl Config {
    /// A configuration with the given project name, no prefix directory,
    /// both HTML and PDF output, and no aliases.
    pub fn new(name: String) -> (r: Config)
        ensures
            r.project.name == name,
            r.project.prefix_dir is None,
            r.output_format == OutputFormat::HtmlAndPdf,
            r.dir_aliases@.len() == 0,
    {
        Config {
            project: Project { name, prefix_dir: None },
            output_format: OutputFormat::HtmlAndPdf,
            dir_aliases: Vec::new(),
        }
    }

    /// Adds an alias after those already there.
    pub fn add_alias(&mut self, name: String, target: String)
        ensures
            final(self).project == old(self).project,
            final(self).output_format == old(self).output_format,
            final(self).dir_aliases@ == old(self).dir_aliases@.push(DirAlias { name, target }),
    {
        self.dir_aliases.push(DirAlias { name, target });
    }

    /// The target of the first alias named `key`.
    pub fn alias(&self, key: &String) -> (r: Option<&String>)
        ensures
            match r {
                Some(t) => alias_target(self.dir_aliases@, key@) == Some(t@),
                None => alias_target(self.dir_aliases@, key@) is None,
            },
    {
        let mut i: usize = 0;
        proof {
            assert(self.dir_aliases@.skip(0) =~= self.dir_aliases@);
        }
        while i < self.dir_aliases.len()
            invariant
                i <= self.dir_aliases@.len(),
                alias_target(self.dir_aliases@, key@) == alias_target(
                    self.dir_aliases@.skip(i as int),
                    key@,
                ),
            decreases self.dir_aliases@.len() - i,
        {
            proof {
                assert(self.dir_aliases@.skip(i as int).drop_first() =~= self.dir_aliases@.skip(
                    i + 1,
                ));
            }
            if self.dir_aliases[i].name == *key {
                return Some(&self.dir_aliases[i].target);
            }
            i = i + 1;
        }
        proof {
            assert(self.dir_aliases@.skip(i as int).len() == 0);
        }
        None
    }
}

} // verus!
