use omni::node::{File, Id, UserDb};
use omni::track::{find_tracked, is_already_tracked, track, Error};

fn s(v: &str) -> String {
    v.to_string()
}

#[test]
fn tracking_adds_a_new_file() {
    let mut db = UserDb { files: vec![File { id: Id(s("id1")), path: s("a.typ") }] };
    let file = File { id: Id(s("id2")), path: s("b.typ") };
    let r = track(&mut db, file.clone(), &vec![Some(s("/v/a.typ"))], &Some(s("/v/b.typ")));
    assert_eq!(r, Ok(file.clone()));
    assert_eq!(db.files.len(), 2);
    assert_eq!(db.files[1], file);
}

#[test]
fn tracking_twice_is_refused() {
    let mut db = UserDb { files: vec![File { id: Id(s("id1")), path: s("a.typ") }] };
    let file = File { id: Id(s("id2")), path: s("./a.typ") };
    let r = track(&mut db, file, &vec![Some(s("/v/a.typ"))], &Some(s("/v/a.typ")));
    assert_eq!(r, Err(Error::AlreadyTracked(s("./a.typ"))));
    assert_eq!(db.files.len(), 1);
}

#[test]
fn a_missing_target_is_not_tracked() {
    assert!(!is_already_tracked(&vec![Some(s("/v/a.typ")), None], &None));
    assert!(is_already_tracked(&vec![None, Some(s("/v/a.typ"))], &Some(s("/v/a.typ"))));
}

#[test]
fn a_taken_id_is_refused() {
    let mut db = UserDb { files: vec![File { id: Id(s("id1")), path: s("a.typ") }] };
    let file = File { id: Id(s("id1")), path: s("b.typ") };
    let r = track(&mut db, file, &vec![Some(s("/v/a.typ"))], &Some(s("/v/b.typ")));
    assert_eq!(r, Err(Error::DuplicateId(s("id1"))));
    assert_eq!(db.files.len(), 1);
}

#[test]
fn the_first_file_with_the_canonical_path_is_found() {
    let files = vec![None, Some(s("/v/a.typ")), Some(s("/v/b.typ")), Some(s("/v/a.typ"))];
    assert_eq!(find_tracked(&files, &s("/v/a.typ")), Some(1));
    assert_eq!(find_tracked(&files, &s("/v/c.typ")), None);
}
