//! Names that take no other file's place, and what is known of moved files.

use zapfast::file_path::FilePath;
use zapfast::io::{Failure, Reply, Request, Step};
use zapfast::media_storage::Copies;
use zapfast::copying::Copied;
use zapfast::publish::{unique_name_from, Publishing};
use zapfast::relocations::Relocations;

fn at(text: &str) -> FilePath {
    FilePath::from_text(text)
}

fn taken() -> Failure {
    Failure::AlreadyExists("file exists".to_owned())
}

fn target(job: &Publishing) -> String {
    match job.request() {
        Request::Persist(path) => String::from_utf8(path.as_bytes().to_vec()).unwrap(),
        request => panic!("{request:?}"),
    }
}

fn started(preferred: &str) -> Publishing {
    match Publishing::start(at(preferred)) {
        Step::Ask(job) => job,
        step => panic!("{step:?}"),
    }
}

#[test]
fn unique_names_hold_sixteen_hexadecimal_digits() {
    for n in [0, 1, 10, 0x9f, 0x0123_4567_89ab_cdef, u64::MAX] {
        let expected = format!("{n:016x}-photo.jpg");
        assert_eq!(unique_name_from(n, b"photo.jpg"), expected.into_bytes());
    }
    assert_eq!(unique_name_from(255, b""), b"00000000000000ff-");
    assert_ne!(unique_name_from(1, b"a"), unique_name_from(2, b"a"));
}

#[test]
fn publishing_goes_on_until_a_name_is_free() {
    let job = started("/d/photo.jpg");
    assert_eq!(target(&job), "/d/photo.jpg");
    let Step::Ask(job) = job.resume_with(Reply::Failed(taken()), 7) else { panic!("it ends") };
    assert_eq!(target(&job), "/d/0000000000000007-photo.jpg");
    // The next name is made from the preferred one, not from the last.
    let Step::Ask(job) = job.resume_with(Reply::Failed(taken()), 0xabc) else { panic!("it ends") };
    assert_eq!(target(&job), "/d/0000000000000abc-photo.jpg");
    // A reply that does not fit is no answer.
    let Step::Ask(job) = job.resume_with(Reply::Flag(true), 1) else { panic!("it ends") };
    assert_eq!(target(&job), "/d/0000000000000abc-photo.jpg");
    let Step::Done(path) = job.resume_with(Reply::Done, 1) else { panic!("it goes on") };
    assert_eq!(path.as_bytes(), b"/d/0000000000000abc-photo.jpg");
}

#[test]
fn publishing_draws_its_own_numbers() {
    let mut names = Vec::new();
    for _ in 0..2 {
        let Step::Ask(job) = started("photo.jpg").resume(Reply::Failed(taken())) else {
            panic!("it ends")
        };
        let name = target(&job);
        assert!(name.ends_with("-photo.jpg"));
        assert_eq!(name.len(), 16 + "-photo.jpg".len());
        assert!(name[..16].chars().all(|c| matches!(c, '0'..='9' | 'a'..='f')));
        names.push(name);
    }
    assert_ne!(names[0], names[1]);
}

#[test]
fn publishing_needs_a_file_name() {
    for path in ["/", "", "/a/.."] {
        assert!(matches!(Publishing::start(at(path)), Step::Failed(Failure::InvalidInput)));
    }
    let step = started("/d/a").resume(Reply::Failed(Failure::Other("disk full".to_owned())));
    let Step::Failed(failure) = step else { panic!("it goes on") };
    assert_eq!(failure.message(), "disk full");
}

#[test]
fn failures_have_messages() {
    assert_eq!(taken().message(), "file exists");
    assert_eq!(Failure::InvalidInput.message(), "invalid input parameter");
    let error = std::io::Error::from(std::io::ErrorKind::InvalidInput);
    assert_eq!(Failure::InvalidInput.message(), error.to_string());
}

#[test]
fn relocations_are_found_by_path() {
    let known = Relocations::new();
    assert!(known.find(&at("/a")).is_none());
    let known = known.with(at("/a"), Some(at("/b/a"))).with(at("/c"), None);
    assert_eq!(known.find(&at("//a/.")).unwrap().unwrap().as_bytes(), b"/b/a");
    assert!(known.find(&at("/c/")).unwrap().is_none());
    assert!(known.find(&at("a")).is_none());
    assert_eq!(known.entries().len(), 2);
    assert_eq!(known.entries()[1].source.as_bytes(), b"/c");
}

#[test]
fn copies_are_forgotten_one_by_one_or_kept() {
    let mut copies = Copies::new();
    for (path, is_new) in [("/a", true), ("/b", false), ("/c", true)] {
        copies.note(&Copied { path: at(path), is_new });
    }
    assert_eq!(copies.first().unwrap().as_bytes(), b"/a");
    copies.forget_first();
    assert_eq!(copies.first().unwrap().as_bytes(), b"/c");
    copies.keep();
    assert!(copies.first().is_none());
    copies.forget_first();
    assert!(copies.first().is_none());
}
