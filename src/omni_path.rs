use vstd::prelude::*;

use crate::config::{alias_target, Config};
use crate::path_parts::{
    component_string, component_strings, component_text, components, copy_strings, is_prefix_of, join_path,
    join_strings, joined, path_components, path_join, texts, views, PathComponent,
};

verus! {

/// A logical path as a user writes it: directories that may start with an
/// alias, and a final name without extension.
///
/// It starts out aliased; `unalias` expands it into a path under the project.
#[derive(Debug, Clone, PartialEq, Eq, Hash, PartialOrd, Ord)]
pub struct OmniPath {
    pub path: Vec<String>,
    pub name: String,
    /// Whether the path has been expanded into one under the project.
    pub unaliased: bool,
}

/// What an `OmniPath` holds, as plain sequences.
pub struct OmniPathView {
    pub path: Seq<Seq<char>>,
    pub name: Seq<char>,
    pub unaliased: bool,
}

impl View for OmniPath {
    type V = OmniPathView;

    open spec fn view(&self) -> OmniPathView {
        OmniPathView { path: views(self.path@), name: self.name@, unaliased: self.unaliased }
    }
}

#[derive(Debug, Clone, PartialEq, Eq)]
pub enum Error {
    /// The path to convert into an omni path is empty.
    EmptyPathInConversionFromPath,
    /// The configuration holds an alias whose target is empty.
    EmptyPathInConfig,
    /// An omni path must be unaliased before it becomes a filesystem path.
    PathizeNotUnaliased,
    /// An omni path cannot hold `.`, `..`, a root or a prefix.
    InvalidComponent,
}

/// The directories after expanding the alias that the first one names, if any.
pub open spec fn expand_alias(path: Seq<Seq<char>>, config: Config) -> Result<Seq<Seq<char>>, Error> {
    if path.len() == 0 {
        Ok(Seq::empty())
    } else {
        match alias_target(config.dir_aliases@, path[0]) {
            Some(t) => if t.len() == 0 {
                Err(Error::EmptyPathInConfig)
            } else {
                Ok(texts(path_components(t)) + path.drop_first())
            },
            None => Ok(path),
        }
    }
}

/// The directories with the project's prefix directory put first, unless it already is.
pub open spec fn with_prefix(path: Seq<Seq<char>>, prefix: Option<String>) -> Seq<Seq<char>> {
    match prefix {
        Some(d) => if path.len() == 0 || path[0] != d@ {
            seq![d@] + path
        } else {
            path
        },
        None => path,
    }
}

/// What unaliasing makes of a logical path.
pub open spec fn unalias_spec(p: OmniPathView, config: Config) -> Result<OmniPathView, Error> {
    if p.unaliased {
        Ok(p)
    } else {
        match expand_alias(p.path, config) {
            Ok(np) => Ok(
                OmniPathView {
                    path: with_prefix(np, config.project.prefix_dir),
                    name: p.name,
                    unaliased: true,
                },
            ),
            Err(e) => Err(e),
        }
    }
}

/// What realiasing a path with the alias `from` for the directory `to` makes of it,
/// and whether it applied.
pub open spec fn realias_spec(p: OmniPathView, from: Seq<char>, to: Seq<char>) -> (OmniPathView, bool) {
    let comps = texts(path_components(to));
    if p.unaliased && is_prefix_of(comps, p.path) {
        (
            OmniPathView {
                path: seq![from] + p.path.skip(comps.len() as int),
                name: p.name,
                unaliased: false,
            },
            true,
        )
    } else {
        (p, false)
    }
}

/// Whether every component is a plain name.
pub open spec fn all_normal(cs: Seq<PathComponent>) -> bool {
    forall|i: int| 0 <= i < cs.len() ==> cs[i] is Normal
}

/// What converting a filesystem path into a logical path gives.
pub open spec fn from_path_spec(s: Seq<char>) -> Result<OmniPathView, Error> {
    let cs = path_components(s);
    if s.len() == 0 {
        Err(Error::EmptyPathInConversionFromPath)
    } else if !all_normal(cs) {
        Err(Error::InvalidComponent)
    } else if cs.len() == 0 {
        Err(Error::EmptyPathInConversionFromPath)
    } else {
        Ok(
            OmniPathView {
                path: texts(cs.drop_last()),
                name: texts(cs).last(),
                unaliased: false,
            },
        )
    }
}

/// The spelling of a logical path in a document: `omni.`, the directories, the name,
/// separated by dots.
pub open spec fn typst_style(p: OmniPathView) -> Seq<char> {
    if p.path.len() == 0 {
        seq!['o', 'm', 'n', 'i', '.'] + p.name
    } else {
        seq!['o', 'm', 'n', 'i', '.'] + joined(p.path, seq!['.']) + seq!['.'] + p.name
    }
}

/// The filesystem path, relative to the project root, that an unaliased path names.
pub open spec fn pathized(p: OmniPathView) -> Seq<char> {
    path_join(joined(p.path, seq!['/']), p.name)
}

impl OmniPath {
    /// A new, not yet unaliased path.
    pub fn new(path: Vec<String>, name: String) -> (r: OmniPath)
        ensures
            r.path == path,
            r.name == name,
            !r@.unaliased,
    {
        OmniPath { path, name, unaliased: false }
    }

    pub fn is_unaliased(&self) -> (r: bool)
        ensures
            r == self@.unaliased,
    {
        self.unaliased
    }

    /// Expands the alias in the first directory, puts the prefix directory first,
    /// and marks the path unaliased. An unaliased path comes back as it is.
    pub fn unalias(self, config: &Config) -> (r: Result<OmniPath, Error>)
        ensures
            match r {
                Ok(q) => unalias_spec(self@, *config) == Ok::<OmniPathView, Error>(q@),
                Err(e) => unalias_spec(self@, *config) == Err::<OmniPathView, Error>(e),
            },
    {
        if self.unaliased {
            return Ok(self);
        }
        let mut new_path: Vec<String> = Vec::new();
        if self.path.len() > 0 {
            match config.alias(&self.path[0]) {
                Some(target) => {
                    if target.as_str().is_empty() {
                        return Err(Error::EmptyPathInConfig);
                    }
                    new_path = component_strings(target.as_str());
                    let ghost head = views(new_path@);
                    let mut i: usize = 1;
                    while i < self.path.len()
                        invariant
                            1 <= i <= self.path@.len(),
                            views(new_path@) == head + views(self.path@).subrange(1, i as int),
                        decreases self.path@.len() - i,
                    {
                        let ghost before = new_path@;
                        new_path.push(self.path[i].clone());
                        proof {
                            assert(views(new_path@) =~= views(before).push(self.path@[i as int]@));
                            assert(views(self.path@).subrange(1, i + 1) =~= views(
                                self.path@,
                            ).subrange(1, i as int).push(self.path@[i as int]@));
                        }
                        i = i + 1;
                    }
                    proof {
                        assert(views(self.path@).subrange(1, self.path@.len() as int)
                            =~= views(self.path@).drop_first());
                    }
                },
                None => {
                    new_path = copy_strings(&self.path);
                },
            }
        } else {
            proof {
                assert(views(new_path@) =~= Seq::<Seq<char>>::empty());
            }
        }
        proof {
            assert(expand_alias(self@.path, *config) == Ok::<Seq<Seq<char>>, Error>(
                views(new_path@),
            ));
        }
        match &config.project.prefix_dir {
            Some(prefix) => {
                if new_path.len() == 0 || !(new_path[0] == *prefix) {
                    let ghost before = new_path@;
                    new_path.insert(0, prefix.clone());
                    proof {
                        assert(views(new_path@) =~= seq![prefix@] + views(before));
                    }
                }
            },
            None => {},
        }
        Ok(OmniPath { path: new_path, name: self.name, unaliased: true })
    }

    /// Replaces the directories that `to` names, where the path starts with them,
    /// by the single alias `from`; the path is then logical again.
    /// Returns whether it did so; only an unaliased path is realiased.
    pub fn try_realias(&mut self, from: &str, to: &str) -> (r: bool)
        ensures
            (final(self)@, r) == realias_spec(old(self)@, from@, to@),
    {
        if !self.unaliased {
            return false;
        }
        let comps = component_strings(to);
        let ghost cv = views(comps@);
        let ghost pv = views(self.path@);
        if comps.len() > self.path.len() {
            proof {
                assert(cv.len() > pv.len());
            }
            return false;
        }
        let mut i: usize = 0;
        while i < comps.len()
            invariant
                *self == *old(self),
                self.unaliased,
                cv == views(comps@),
                cv == texts(path_components(to@)),
                pv == views(self.path@),
                comps@.len() <= self.path@.len(),
                i <= comps@.len(),
                pv.subrange(0, i as int) == cv.subrange(0, i as int),
            decreases comps@.len() - i,
        {
            if !(comps[i] == self.path[i]) {
                proof {
                    assert(cv[i as int] == comps@[i as int]@);
                    assert(pv[i as int] == self.path@[i as int]@);
                    assert(cv[i as int] != pv[i as int]);
                    assert(pv.subrange(0, cv.len() as int)[i as int] == pv[i as int]);
                    assert(!is_prefix_of(cv, pv));
                }
                return false;
            }
            proof {
                assert(pv.subrange(0, i + 1) =~= cv.subrange(0, i + 1));
            }
            i = i + 1;
        }
        proof {
            assert(cv.subrange(0, cv.len() as int) =~= cv);
        }
        let mut new_path: Vec<String> = Vec::new();
        new_path.push(from.to_owned());
        let mut j: usize = comps.len();
        while j < self.path.len()
            invariant
                comps@.len() <= j <= self.path@.len(),
                pv == views(self.path@),
                views(new_path@) == seq![from@] + pv.subrange(comps@.len() as int, j as int),
            decreases self.path@.len() - j,
        {
            let ghost before = new_path@;
            new_path.push(self.path[j].clone());
            proof {
                assert(views(new_path@) =~= views(before).push(self.path@[j as int]@));
                assert(pv.subrange(comps@.len() as int, j + 1) =~= pv.subrange(
                    comps@.len() as int,
                    j as int,
                ).push(pv[j as int]));
            }
            j = j + 1;
        }
        proof {
            assert(pv.subrange(comps@.len() as int, pv.len() as int) =~= pv.skip(
                comps@.len() as int,
            ));
        }
        self.path = new_path;
        self.unaliased = false;
        true
    }

    /// Marks the path unaliased as it stands, for a caller that knows it holds no alias.
    pub fn force_unalias(self) -> (r: OmniPath)
        ensures
            r.path == self.path,
            r.name == self.name,
            r@.unaliased,
    {
        OmniPath { path: self.path, name: self.name, unaliased: true }
    }

    /// The logical path that a relative filesystem path spells; every component
    /// must be a plain name.
    pub fn try_from_path(path: &str) -> (r: Result<OmniPath, Error>)
        ensures
            match r {
                Ok(q) => from_path_spec(path@) == Ok::<OmniPathView, Error>(q@),
                Err(e) => from_path_spec(path@) == Err::<OmniPathView, Error>(e),
            },
    {
        if path.is_empty() {
            return Err(Error::EmptyPathInConversionFromPath);
        }
        let cs = components(path);
        let mut parts: Vec<String> = Vec::new();
        let mut i: usize = 0;
        while i < cs.len()
            invariant
                path@.len() != 0,
                cs@ == path_components(path@),
                i <= cs@.len(),
                all_normal(cs@.subrange(0, i as int)),
                views(parts@) == texts(cs@.subrange(0, i as int)),
            decreases cs@.len() - i,
        {
            match &cs[i] {
                PathComponent::Normal(_) => {},
                _ => {
                    proof {
                        assert(!(cs@[i as int] is Normal));
                        assert(!all_normal(cs@));
                        assert(path@.len() != 0);
                        assert(path_components(path@) == cs@);
                        assert(from_path_spec(path@) == Err::<OmniPathView, Error>(
                            Error::InvalidComponent,
                        ));
                    }
                    return Err(Error::InvalidComponent);
                },
            }
            let t = component_string(&cs[i]);
            let ghost before = parts@;
            parts.push(t);
            proof {
                assert(cs@.subrange(0, i + 1) =~= cs@.subrange(0, i as int).push(cs@[i as int]));
                assert(views(parts@) =~= views(before).push(t@));
                assert(texts(cs@.subrange(0, i + 1)) =~= texts(cs@.subrange(0, i as int)).push(
                    component_text(cs@[i as int]),
                ));
            }
            i = i + 1;
        }
        proof {
            assert(cs@.subrange(0, cs@.len() as int) =~= cs@);
        }
        let ghost full = parts@;
        match parts.pop() {
            Some(name) => {
                proof {
                    assert(views(full) == texts(cs@));
                    assert(full.len() == cs@.len());
                    assert(parts@ == full.drop_last());
                    assert forall|k: int| 0 <= k < parts@.len() implies views(parts@)[k] == texts(
                        cs@.drop_last(),
                    )[k] by {
                        assert(views(parts@)[k] == full[k]@);
                        assert(views(full)[k] == texts(cs@)[k]);
                    }
                    assert(views(parts@) =~= texts(cs@.drop_last()));
                    assert(name@ == views(full).last());
                }
                Ok(OmniPath { path: parts, name, unaliased: false })
            },
            None => {
                proof {
                    assert(views(full).len() == 0);
                }
                Err(Error::EmptyPathInConversionFromPath)
            },
        }
    }

    /// The filesystem path, relative to the project root, that an unaliased path names.
    pub fn try_into_path(self) -> (r: Result<String, Error>)
        ensures
            match r {
                Ok(s) => self@.unaliased && s@ == pathized(self@),
                Err(e) => !self@.unaliased && e == Error::PathizeNotUnaliased,
            },
    {
        if !self.unaliased {
            return Err(Error::PathizeNotUnaliased);
        }
        proof {
            reveal_strlit("/");
        }
        let dirs = join_strings(&self.path, "/");
        proof {
            assert("/"@ =~= seq!['/']);
        }
        Ok(join_path(dirs.as_str(), self.name.as_str()))
    }

    /// How a document refers to this path: `omni.`, the directories, the name.
    pub fn as_typst_style(&self) -> (r: String)
        ensures
            r@ == typst_style(self@),
    {
        proof {
            reveal_strlit("omni.");
            reveal_strlit(".");
            assert("omni."@ =~= seq!['o', 'm', 'n', 'i', '.']);
            assert("."@ =~= seq!['.']);
        }
        let mut out = String::from_str("omni.");
        if self.path.len() > 0 {
            let dirs = join_strings(&self.path, ".");
            out.append(dirs.as_str());
            out.append(".");
        }
        out.append(self.name.as_str());
        out
    }
}

/// Unaliasing twice gives what unaliasing once gives.
pub proof fn lemma_unalias_idempotent(p: OmniPathView, config: Config)
    requires
        unalias_spec(p, config) is Ok,
    ensures
        unalias_spec(unalias_spec(p, config)->Ok_0, config) == unalias_spec(p, config),
{
}

} // verus!
