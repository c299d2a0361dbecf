use vstd::prelude::*;

use crate::node::{File, UserDb};

verus! {

#[derive(Debug, Clone, PartialEq)]
pub enum Error {
    /// The file is in the list already.
    AlreadyTracked(String),
    /// Another tracked file has this id; ids are unique.
    DuplicateId(String),
}

/// Whether a file's canonical path, where it has one, is `t`.
pub open spec fn same_path(c: Option<String>, t: String) -> bool {
    match c {
        Some(c) => c@ == t@,
        None => false,
    }
}

/// Whether the target's canonical path is that of a tracked file. A target
/// without a canonical path does not exist, so it cannot be tracked.
pub open spec fn tracked_already(canonical_files: Seq<Option<String>>, target: Option<String>) -> bool {
    match target {
        None => false,
        Some(t) => exists|i: int|
            0 <= i < canonical_files.len() && same_path(#[trigger] canonical_files[i], t),
    }
}

/// Whether the target is tracked already, given the canonical path of each
/// tracked file (where it has one) and of the target (where it has one).
pub fn is_already_tracked(canonical_files: &Vec<Option<String>>, canonical_target: &Option<String>) -> (r: bool)
    ensures
        r == tracked_already(canonical_files@, *canonical_target),
{
    let t = match canonical_target {
        Some(t) => t,
        None => return false,
    };
    let mut i: usize = 0;
    while i < canonical_files.len()
        invariant
            *canonical_target == Some(*t),
            i <= canonical_files@.len(),
            forall|k: int|
                0 <= k < i ==> !same_path(#[trigger] canonical_files@[k], *t),
        decreases canonical_files@.len() - i,
    {
        match &canonical_files[i] {
            Some(c) => {
                if *c == *t {
                    return true;
                }
            },
            None => {},
        }
        i = i + 1;
    }
    false
}

/// The first tracked file whose canonical path is `target`, given the canonical
/// path of each tracked file where it has one.
pub fn find_tracked(canonical_files: &Vec<Option<String>>, target: &String) -> (r: Option<usize>)
    ensures
        match r {
            Some(i) => i < canonical_files@.len() && same_path(canonical_files@[i as int], *target)
                && forall|j: int| 0 <= j < i ==> !same_path(#[trigger] canonical_files@[j], *target),
            None => !tracked_already(canonical_files@, Some(*target)),
        },
{
    let mut i: usize = 0;
    while i < canonical_files.len()
        invariant
            i <= canonical_files@.len(),
            forall|k: int| 0 <= k < i ==> !same_path(#[trigger] canonical_files@[k], *target),
        decreases canonical_files@.len() - i,
    {
        match &canonical_files[i] {
            Some(c) => {
                if *c == *target {
                    return Some(i);
                }
            },
            None => {},
        }
        i = i + 1;
    }
    None
}

/// Whether a tracked file has the id.
pub open spec fn id_taken(files: Seq<File>, id: Seq<char>) -> bool {
    exists|i: int| 0 <= i < files.len() && #[trigger] files[i].id.0@ == id
}

/// Whether a tracked file has the id.
fn has_file_id(db: &UserDb, id: &crate::node::Id) -> (r: bool)
    ensures
        r == id_taken(db.files@, id.0@),
{
    let mut i: usize = 0;
    while i < db.files.len()
        invariant
            i <= db.files@.len(),
            forall|k: int| 0 <= k < i ==> db.files@[k].id.0@ != id.0@,
        decreases db.files@.len() - i,
    {
        if db.files[i].id.same(id) {
            return true;
        }
        i = i + 1;
    }
    false
}

/// Adds a file to the tracked files, unless it is tracked already or its id is taken.
/// `canonical_files` holds the canonical path of each tracked file, where it has one.
pub fn track(
    db: &mut UserDb,
    file: File,
    canonical_files: &Vec<Option<String>>,
    canonical_target: &Option<String>,
) -> (r: Result<File, Error>)
    ensures
        tracked_already(canonical_files@, *canonical_target) ==> r == Err::<File, Error>(
            Error::AlreadyTracked(file.path),
        ) && final(db).files@ == old(db).files@,
        !tracked_already(canonical_files@, *canonical_target) && id_taken(old(db).files@, file.id.0@)
            ==> r == Err::<File, Error>(Error::DuplicateId(file.id.0)) && final(db).files@ == old(
            db,
        ).files@,
        !tracked_already(canonical_files@, *canonical_target) && !id_taken(old(db).files@, file.id.0@)
            ==> r == Ok::<File, Error>(file) && final(db).files@ == old(db).files@.push(file),
{
    if is_already_tracked(canonical_files, canonical_target) {
        return Err(Error::AlreadyTracked(file.path));
    }
    if has_file_id(db, &file.id) {
        return Err(Error::DuplicateId(file.id.0));
    }
    let copy = File { id: file.id.copy(), path: file.path.clone() };
    db.files.push(file);
    Ok(copy)
}

} // verus!
