//! The jobs, carried out on a file system in memory.

use std::collections::BTreeMap;

use zapfast::adopt::Migration;
use zapfast::copying::{Copied, Copying};
use zapfast::ensure::{Ensuring, PRIVATE_MODE};
use zapfast::file_path::FilePath;
use zapfast::io::{Answer, Failure, Reply, Request, Row, Step};
use zapfast::locate::Locator;
use zapfast::media_storage::{ChangeError, Changed, MediaDirChange};
use zapfast::paths::AppDirs;
use zapfast::resolve::Resolver;
use zapfast::save::{save, SaveError};
use zapfast::validate::MediaDirError;
use zapfast::worker::{Event, Worker};

const CHAT: &str = "1@s.whatsapp.net";

#[derive(Clone, Debug, PartialEq)]
enum Node {
    Dir { mode: u32 },
    File(Vec<u8>),
    Link(String),
}

/// A file system with an archive beside it. Nodes are held by canonical path.
#[derive(Clone)]
struct Disk {
    nodes: BTreeMap<String, Node>,
    staged: Option<Vec<u8>>,
    rows: Vec<(String, Option<FilePath>)>,
    /// Folders that take no new files.
    closed: Vec<String>,
    archive_fails: bool,
    asked: Vec<String>,
}

fn text(path: &FilePath) -> String {
    std::str::from_utf8(path.as_bytes()).unwrap().to_owned()
}

fn at(text: &str) -> FilePath {
    FilePath::from_text(text)
}

fn other(message: &str) -> Failure {
    Failure::Other(message.to_owned())
}

fn is_missing(failure: &Failure) -> bool {
    matches!(failure, Failure::Other(message) if message == "not found")
}

impl Disk {
    fn new() -> Disk {
        let mut nodes = BTreeMap::new();
        nodes.insert("/".to_owned(), Node::Dir { mode: 0o755 });
        Disk {
            nodes,
            staged: None,
            rows: Vec::new(),
            closed: Vec::new(),
            archive_fails: false,
            asked: Vec::new(),
        }
    }

    /// The path behind all links; every piece has to be there.
    fn canonical(&self, path: &str) -> Result<String, Failure> {
        let absolute =
            if path.starts_with('/') { path.to_owned() } else { format!("/work/{path}") };
        let mut found = String::from("/");
        for piece in absolute.split('/') {
            match piece {
                "" | "." => {}
                ".." => {
                    let cut = found.rfind('/').unwrap();
                    found.truncate(if cut == 0 { 1 } else { cut });
                }
                name => {
                    match self.nodes.get(&found) {
                        Some(Node::Dir { .. }) => {}
                        _ => return Err(other("not a directory")),
                    }
                    let next = child(&found, name);
                    found = match self.nodes.get(&next) {
                        None => return Err(other("not found")),
                        Some(Node::Link(target)) => self.canonical(&target.clone())?,
                        Some(_) => next,
                    };
                }
            }
        }
        Ok(found)
    }

    /// The canonical path that something at `path` would have.
    fn place(&self, path: &FilePath) -> Result<String, Failure> {
        let name = String::from_utf8(path.file_name().ok_or(Failure::InvalidInput)?).unwrap();
        let parent = self.canonical(&text(&path.parent().unwrap()))?;
        match self.nodes[&parent] {
            Node::Dir { .. } => Ok(child(&parent, &name)),
            _ => Err(other("not a directory")),
        }
    }

    fn create_dir_all(&mut self, path: &FilePath, mode: u32) -> Result<(), Failure> {
        if let Ok(found) = self.canonical(&text(path)) {
            return match self.nodes[&found] {
                Node::Dir { .. } => Ok(()),
                _ => Err(Failure::AlreadyExists("file exists".to_owned())),
            };
        }
        if let Some(parent) = path.parent() {
            self.create_dir_all(&parent, mode)?;
        }
        if path.file_name().is_some() {
            let place = self.place(path)?;
            self.nodes.insert(place, Node::Dir { mode });
        }
        Ok(())
    }

    fn write(&mut self, path: &FilePath, bytes: &[u8]) {
        self.create_dir_all(&path.parent().unwrap(), 0o755).unwrap();
        let place = self.place(path).unwrap();
        self.nodes.insert(place, Node::File(bytes.to_vec()));
    }

    fn read(&self, path: &FilePath) -> Result<Vec<u8>, Failure> {
        match self.nodes.get(&self.canonical(&text(path))?) {
            Some(Node::File(bytes)) => Ok(bytes.clone()),
            _ => Err(other("is a directory")),
        }
    }

    fn is_there(&self, path: &FilePath) -> bool {
        self.canonical(&text(path)).is_ok()
    }

    fn is_dir(&self, path: &FilePath) -> bool {
        let found = self.canonical(&text(path));
        matches!(found, Ok(found) if matches!(self.nodes[&found], Node::Dir { .. }))
    }

    fn mode(&self, path: &FilePath) -> u32 {
        match self.nodes[&self.canonical(&text(path)).unwrap()] {
            Node::Dir { mode } => mode,
            _ => unreachable!(),
        }
    }

    fn remove_tree(&mut self, path: &FilePath) {
        let top = self.canonical(&text(path)).unwrap();
        let below = format!("{top}/");
        self.nodes.retain(|key, _| *key != top && !key.starts_with(&below));
    }

    fn entries(&self, path: &FilePath) -> usize {
        let below = format!("{}/", self.canonical(&text(path)).unwrap());
        self.nodes
            .keys()
            .filter(|key| key.starts_with(&below) && !key[below.len()..].contains('/'))
            .count()
    }

    fn stage(&mut self, dir: &FilePath, bytes: Vec<u8>) -> Result<(), Failure> {
        let found = self.canonical(&text(dir))?;
        if !self.is_dir(dir) || self.closed.contains(&found) {
            return Err(other("read-only folder"));
        }
        self.staged = Some(bytes);
        Ok(())
    }

    fn act(&mut self, request: &Request<FilePath>) -> Result<Answer, Failure> {
        let done: Answer = Reply::Done;
        match request {
            Request::CurrentDir => Ok(Reply::Path(at("/work"))),
            Request::Canonicalize(path) => Ok(Reply::Path(at(&self.canonical(&text(path))?))),
            Request::IsDir(path) => Ok(Reply::Flag(self.is_dir(path))),
            Request::TryExists(path) => match self.canonical(&text(path)) {
                Ok(_) => Ok(Reply::Flag(true)),
                Err(failure) if is_missing(&failure) => Ok(Reply::Flag(false)),
                Err(failure) => Err(failure),
            },
            Request::CreateDirAll(path) => self.create_dir_all(path, 0o755).map(|()| done),
            Request::CreatePrivateDir { path, mode } => {
                self.create_dir_all(path, *mode).map(|()| done)
            }
            Request::Restrict { path, mode } => {
                let found = self.canonical(&text(path))?;
                self.nodes.insert(found, Node::Dir { mode: *mode });
                Ok(done)
            }
            Request::Rename { from, to } => {
                let source = self.canonical(&text(from))?;
                let target = self.place(to)?;
                let below = format!("{source}/");
                let moved: Vec<String> = self
                    .nodes
                    .keys()
                    .filter(|key| **key == source || key.starts_with(&below))
                    .cloned()
                    .collect();
                for key in moved {
                    let node = self.nodes.remove(&key).unwrap();
                    self.nodes.insert(format!("{target}{}", &key[source.len()..]), node);
                }
                Ok(done)
            }
            Request::Probe(dir) => {
                self.stage(dir, Vec::new())?;
                self.staged = None;
                Ok(done)
            }
            Request::StageCopy { source, dir } => {
                let bytes = self.read(source)?;
                self.stage(dir, bytes).map(|()| done)
            }
            Request::StageBytes(_) | Request::CommitRows => unreachable!(),
            Request::Persist(target) => {
                let place = self.place(target)?;
                if self.nodes.contains_key(&place) {
                    return Err(Failure::AlreadyExists("file exists".to_owned()));
                }
                let bytes = self.staged.take().unwrap();
                self.nodes.insert(place, Node::File(bytes));
                Ok(done)
            }
            Request::Remove(path) => {
                let place = self.place(path)?;
                assert!(matches!(self.nodes[&place], Node::File(_)));
                self.nodes.remove(&place);
                Ok(done)
            }
            Request::LoadRows => {
                let rows = self.rows.iter().filter_map(|(id, path)| {
                    path.clone().map(|source| Row { chat: CHAT.to_owned(), id: id.clone(), source })
                });
                Ok(Reply::Rows(rows.collect()))
            }
        }
    }

    fn perform(&mut self, request: Request<FilePath>) -> Answer {
        self.asked.push(format!("{request:?}"));
        match self.act(&request) {
            Ok(reply) => reply,
            Err(failure) => Reply::Failed(failure),
        }
    }

    fn ensure(&mut self, dirs: &AppDirs) -> Result<(), Failure> {
        let mut step: Step<Ensuring, (), Failure> = dirs.ensure();
        loop {
            match step {
                Step::Ask(job) => {
                    let reply = self.perform(job.request());
                    step = job.resume(reply);
                }
                Step::Done(()) => return Ok(()),
                Step::Failed(failure) => return Err(failure),
            }
        }
    }

    fn ensure_media_dir(&mut self, dirs: &AppDirs) -> Result<FilePath, Failure> {
        let mut job = dirs.ensure_media_dir();
        loop {
            let reply = self.perform(job.request());
            match job.resume(reply) {
                Step::Ask(next) => job = next,
                Step::Done(dir) => return Ok(dir),
                Step::Failed(failure) => return Err(failure),
            }
        }
    }

    fn adopt(&mut self, new: &AppDirs, old: &AppDirs) -> Result<(), Failure> {
        let mut step: Step<Migration, (), Failure> = new.adopt(old);
        loop {
            match step {
                Step::Ask(job) => {
                    let reply = self.perform(job.request());
                    step = job.resume(reply);
                }
                Step::Done(()) => return Ok(()),
                Step::Failed(failure) => return Err(failure),
            }
        }
    }

    fn validate(&mut self, dirs: &AppDirs, path: &FilePath) -> Result<Option<FilePath>, MediaDirError> {
        let mut job = dirs.validate_custom_media_dir(path);
        loop {
            let reply = self.perform(job.request());
            match job.resume(reply) {
                Step::Ask(next) => job = next,
                Step::Done(dir) => return Ok(dir),
                Step::Failed(error) => return Err(error),
            }
        }
    }

    fn copy(&mut self, source: &FilePath, dir: &FilePath) -> Result<Copied<FilePath>, Failure> {
        let mut step = Copying::start(source, dir);
        loop {
            match step {
                Step::Ask(job) => {
                    let reply = self.perform(job.request());
                    step = job.resume(reply);
                }
                Step::Done(copy) => return Ok(copy),
                Step::Failed(failure) => return Err(failure),
            }
        }
    }

    fn save(&mut self, path: &FilePath, bytes: &[u8]) -> Result<FilePath, SaveError> {
        let mut step = save(path.clone(), bytes.to_vec());
        loop {
            match step {
                Step::Ask(job) => {
                    let reply = match job.request() {
                        Request::StageBytes(dir) => {
                            let bytes = job.bytes().unwrap().clone();
                            match self.stage(&dir, bytes) {
                                Ok(()) => Reply::Done,
                                Err(failure) => Reply::Failed(failure),
                            }
                        }
                        request => {
                            assert!(job.bytes().is_none());
                            self.perform(request)
                        }
                    };
                    step = job.resume(reply);
                }
                Step::Done(path) => return Ok(path),
                Step::Failed(error) => return Err(error),
            }
        }
    }

    fn locate(&mut self, path: &FilePath) -> Result<FilePath, Failure> {
        let mut job = Locator::start(path.clone());
        loop {
            let reply = self.perform(job.request());
            match job.resume(reply) {
                Step::Ask(next) => job = next,
                Step::Done(form) => return Ok(form),
                Step::Failed(failure) => return Err(failure),
            }
        }
    }

    fn resolve(&mut self, path: &FilePath) -> Result<FilePath, Failure> {
        let mut job = Resolver::start(path);
        loop {
            let reply = self.perform(job.request());
            match job.resume(reply) {
                Step::Ask(next) => job = next,
                Step::Done(found) => return Ok(found),
                Step::Failed(failure) => return Err(failure),
            }
        }
    }

    fn answer_change(&mut self, job: &MediaDirChange) -> Answer {
        match job.request() {
            Request::CommitRows => {
                self.asked.push("CommitRows".to_owned());
                if self.archive_fails {
                    return Reply::Failed(other("archive is locked"));
                }
                for update in job.updates().unwrap() {
                    assert_eq!(update.chat, CHAT);
                    let row = self.rows.iter_mut().find(|row| row.0 == update.id).unwrap();
                    row.1 = update.replacement.clone();
                }
                Reply::Done
            }
            request => {
                assert!(job.updates().is_none());
                self.perform(request)
            }
        }
    }

    fn change(&mut self, worker: &mut Worker, custom: Option<FilePath>) -> Event {
        let mut job = worker.change_media_dir(custom);
        let outcome: Result<Changed, ChangeError> = loop {
            let reply = self.answer_change(&job);
            match job.resume(reply) {
                Step::Ask(next) => job = next,
                Step::Done(changed) => break Ok(changed),
                Step::Failed(error) => break Err(error),
            }
        };
        worker.finish_media_dir_change(outcome)
    }

    fn keep(&mut self, worker: &Worker, source: &FilePath) -> Result<FilePath, Failure> {
        let mut job = worker.keep_current_media(source.clone());
        loop {
            let reply = self.perform(job.request());
            match job.resume(reply) {
                Step::Ask(next) => job = next,
                Step::Done(path) => return Ok(path),
                Step::Failed(failure) => return Err(failure),
            }
        }
    }

    fn attach(&mut self, id: &str, path: &FilePath) {
        self.rows.push((id.to_owned(), Some(path.clone())));
    }

    fn archived(&self, id: &str) -> Option<String> {
        let row = self.rows.iter().find(|row| row.0 == id).unwrap();
        row.1.as_ref().map(text)
    }
}

fn child(dir: &str, name: &str) -> String {
    if dir == "/" { format!("/{name}") } else { format!("{dir}/{name}") }
}

fn is_kind(asked: &str, kind: &str) -> bool {
    asked.split(['(', ' ']).next() == Some(kind)
}

fn told(event: &Event, source: &FilePath) -> Option<Option<String>> {
    match event {
        Event::MediaDirChanged { paths, .. } => {
            paths.find(source).map(|path| path.as_ref().map(text))
        }
        Event::Error(_) => panic!("an error was told"),
    }
}

fn installed(root: &str) -> (Disk, Worker) {
    let mut disk = Disk::new();
    disk.create_dir_all(&at(root), 0o755).unwrap();
    (disk, Worker { dirs: AppDirs::under(&at(root)) })
}

#[test]
fn ensure_restricts_base_directories() {
    let (mut disk, worker) = installed("/tmp/permissions");
    let dirs = worker.dirs;
    disk.ensure(&dirs).unwrap();
    for path in [&dirs.config, &dirs.state, &dirs.cache] {
        assert_eq!(disk.mode(path) & 0o777, 0o700);
    }
    assert_eq!(PRIVATE_MODE, 0o700);
}

#[test]
fn ensure_repairs_existing_directory_permissions_without_changing_data() {
    let (mut disk, worker) = installed("/tmp/existing-permissions");
    let dirs = worker.dirs;
    for path in [&dirs.config, &dirs.state, &dirs.cache] {
        disk.create_dir_all(path, 0o755).unwrap();
        disk.write(&path.join("fixture"), b"preserved");
    }
    disk.ensure(&dirs).unwrap();
    for path in [&dirs.config, &dirs.state, &dirs.cache] {
        assert_eq!(disk.mode(path) & 0o777, 0o700);
        assert_eq!(disk.read(&path.join("fixture")).unwrap(), b"preserved");
    }
}

#[test]
fn ensure_stops_when_an_application_directory_cannot_be_created() {
    let (mut disk, worker) = installed("/tmp/blocked-directory");
    let dirs = worker.dirs;
    disk.write(&dirs.state, b"existing file");
    assert!(disk.ensure(&dirs).is_err());
    assert!(!disk.is_there(&dirs.cache));
    assert_eq!(disk.read(&dirs.state).unwrap(), b"existing file");
}

#[test]
fn rename_preserves_session_archive_settings_and_cached_files() {
    for name in ["fastsapp", "fastwhatsapp"] {
        let (mut disk, _) = installed("/tmp/rename");
        let root = at("/tmp/rename");
        let old = AppDirs::under(&root.join(name));
        let new = AppDirs::under(&root.join("zapfast"));
        disk.ensure(&old).unwrap();
        for path in [
            old.settings_file(),
            old.session_db(),
            old.state.join("session.db-wal"),
            old.archive_db(),
            old.state.join("archive.db-wal"),
            old.saved_sticker_dir().join("pack/sticker.webp"),
            old.media_cache_dir().join("photo.jpg"),
        ] {
            disk.write(&path, b"preserved");
        }
        disk.adopt(&new, &old).unwrap();
        let first = disk.nodes.clone();
        disk.adopt(&new, &old).unwrap(); // A second launch is a no-op.
        assert_eq!(first, disk.nodes);
        for path in [
            new.settings_file(),
            new.session_db(),
            new.state.join("session.db-wal"),
            new.archive_db(),
            new.state.join("archive.db-wal"),
            new.saved_sticker_dir().join("pack/sticker.webp"),
            new.media_cache_dir().join("photo.jpg"),
        ] {
            assert_eq!(disk.read(&path).unwrap(), b"preserved");
        }
        assert!(!disk.is_there(&old.config));
        assert!(!disk.is_there(&old.state));
        assert!(!disk.is_there(&old.cache));
    }
}

#[test]
fn newest_data_wins_without_merging_archives() {
    let (mut disk, _) = installed("/tmp/precedence");
    let root = at("/tmp/precedence");
    let new = AppDirs::under(&root.join("zapfast"));
    let recent = AppDirs::under(&root.join("fastsapp"));
    let oldest = AppDirs::under(&root.join("fastwhatsapp"));
    disk.ensure(&recent).unwrap();
    disk.ensure(&oldest).unwrap();
    disk.create_dir_all(&new.config, 0o755).unwrap();
    disk.write(&new.settings_file(), b"new settings");
    disk.write(&recent.settings_file(), b"old settings");
    disk.write(&recent.archive_db(), b"recent archive");
    disk.write(&oldest.archive_db(), b"oldest archive");
    disk.adopt(&new, &recent).unwrap();
    disk.adopt(&new, &oldest).unwrap();
    assert_eq!(disk.read(&new.settings_file()).unwrap(), b"new settings");
    assert_eq!(disk.read(&recent.settings_file()).unwrap(), b"old settings");
    assert_eq!(disk.read(&new.archive_db()).unwrap(), b"recent archive");
    assert_eq!(disk.read(&oldest.archive_db()).unwrap(), b"oldest archive");
}

#[test]
fn shared_config_and_state_directory_moves_once() {
    let (mut disk, _) = installed("/tmp/shared");
    let root = at("/tmp/shared");
    let old = AppDirs {
        config: root.join("old/data"),
        state: root.join("old/data"),
        cache: root.join("old/cache"),
        custom_media: None,
    };
    let new = AppDirs {
        config: root.join("new/data"),
        state: root.join("new/data"),
        cache: root.join("new/cache"),
        custom_media: None,
    };
    disk.ensure(&old).unwrap();
    disk.write(&old.session_db(), b"session");
    disk.adopt(&new, &old).unwrap();
    assert_eq!(disk.read(&new.session_db()).unwrap(), b"session");
    let renames = disk.asked.iter().filter(|asked| is_kind(asked, "Rename")).count();
    assert_eq!(renames, 2);
}

#[test]
fn failed_migration_leaves_source_available_for_retry() {
    let (mut disk, _) = installed("/tmp/failure");
    let root = at("/tmp/failure");
    let old = AppDirs::under(&root.join("old"));
    let new = AppDirs::under(&root.join("blocked/new"));
    disk.ensure(&old).unwrap();
    disk.write(&old.session_db(), b"session");
    disk.write(&root.join("blocked"), b"not a directory");
    assert!(disk.adopt(&new, &old).is_err());
    assert_eq!(disk.read(&old.session_db()).unwrap(), b"session");
    disk.remove_tree(&root.join("blocked"));
    disk.adopt(&new, &old).unwrap();
    assert_eq!(disk.read(&new.session_db()).unwrap(), b"session");
}

#[test]
fn a_move_asks_for_each_step_in_turn() {
    let new = AppDirs::under(&at("/new"));
    let old = AppDirs::under(&at("/old"));
    let Step::Ask(job) = new.adopt(&old) else { panic!("nothing is asked") };
    assert!(matches!(job.request(), Request::IsDir(p) if text(&p) == "/old/config"));
    // A reply that does not fit is no answer.
    let Step::Ask(job) = job.resume(Reply::Done) else { panic!("nothing is asked") };
    assert!(matches!(job.request(), Request::IsDir(p) if text(&p) == "/old/config"));
    let Step::Ask(job) = job.resume(Reply::Flag(true)) else { panic!("nothing is asked") };
    assert!(matches!(job.request(), Request::TryExists(p) if text(&p) == "/new/config"));
    let Step::Ask(job) = job.resume(Reply::Flag(false)) else { panic!("nothing is asked") };
    assert!(matches!(job.request(), Request::CreateDirAll(p) if text(&p) == "/new"));
    let Step::Ask(job) = job.resume(Reply::Done) else { panic!("nothing is asked") };
    assert!(matches!(job.request(), Request::Rename { from, to }
        if text(&from) == "/old/config" && text(&to) == "/new/config"));
    let Step::Failed(failure) = job.resume(Reply::Failed(other("busy"))) else {
        panic!("the failure is lost")
    };
    assert_eq!(failure.message(), "busy");
}

#[test]
fn custom_media_validation_handles_missing_children_and_default_aliases() {
    let root = tempfile::tempdir().unwrap();
    let plain = |path: &std::path::Path| FilePath::new(path.as_os_str().as_encoded_bytes().to_vec());
    let dirs = AppDirs::under(&plain(root.path()));
    let mut made = Vec::new();
    for name in ["config", "state", "cache"] {
        let dir = tempfile::Builder::new().prefix(name).rand_bytes(0).tempdir_in(root.path());
        made.push(dir.unwrap());
    }
    let validate = |path: &FilePath| {
        let mut job = dirs.validate_custom_media_dir(path);
        loop {
            let reply = match job.request() {
                Request::Canonicalize(path) => {
                    match std::path::Path::new(&text(&path)).canonicalize() {
                        Ok(found) => Reply::Path(plain(&found)),
                        Err(error) => Reply::Failed(Failure::Other(error.to_string())),
                    }
                }
                request => panic!("{request:?} is not needed for an absolute path"),
            };
            match job.resume(reply) {
                Step::Ask(next) => job = next,
                Step::Done(dir) => break Ok(dir),
                Step::Failed(error) => break Err(error),
            }
        }
    };
    assert!(validate(&dirs.cache.join("unused/../media")).unwrap().is_none());
    for boundary in [&dirs.cache, &dirs.state, &dirs.config] {
        assert!(validate(&boundary.join("missing/child")).is_err());
        assert!(!std::path::Path::new(&text(&boundary.join("missing"))).exists());
    }
    assert_eq!(
        validate(&plain(root.path())).unwrap().unwrap().as_bytes(),
        plain(&root.path().canonicalize().unwrap()).as_bytes()
    );
}

#[test]
fn custom_media_validation_resolves_symlinks_before_missing_children_and_parent_steps() {
    let (mut disk, worker) = installed("/tmp/links");
    let root = at("/tmp/links");
    let dirs = worker.dirs;
    disk.ensure(&dirs).unwrap();
    let link = root.join("alias");
    disk.nodes.insert(text(&link), Node::Link(text(&dirs.state)));
    assert!(disk.validate(&dirs, &link.join("missing")).is_err());
    let nested = dirs.state.join("nested");
    disk.create_dir_all(&nested, 0o755).unwrap();
    let nested_link = root.join("nested-alias");
    disk.nodes.insert(text(&nested_link), Node::Link(text(&nested)));
    let error = disk.validate(&dirs, &nested_link.join("../missing")).unwrap_err();
    assert_eq!(
        error.message(),
        "Custom attachment folder cannot be inside the app data folders"
    );
}

#[test]
fn validation_gives_each_verdict_and_changes_nothing() {
    let (mut disk, worker) = installed("/work/app");
    let dirs = worker.dirs;
    disk.ensure(&dirs).unwrap();
    disk.asked.clear();
    let before = disk.nodes.clone();
    let inside = disk.validate(&dirs, &at("/work/app/cache/media/sub")).unwrap_err();
    assert_eq!(
        inside.message(),
        "Custom attachment folder cannot be inside the cache directory"
    );
    assert!(matches!(
        disk.validate(&dirs, &at("/work/app/config")),
        Err(MediaDirError::InsideAppData)
    ));
    assert!(disk.validate(&dirs, &at("app/cache/./media")).unwrap().is_none());
    let accepted = disk.validate(&dirs, &at("/mnt/usb/photos")).unwrap().unwrap();
    assert_eq!(text(&accepted), "/mnt/usb/photos");
    let relative = disk.validate(&dirs, &at("x/../photos")).unwrap().unwrap();
    assert_eq!(text(&relative), "/work/photos");
    let climbing = disk.validate(&dirs, &at("/../../photos")).unwrap().unwrap();
    assert_eq!(text(&climbing), "/photos");
    assert_eq!(before, disk.nodes);
    for asked in &disk.asked {
        assert!(is_kind(asked, "Canonicalize") || is_kind(asked, "CurrentDir"), "{asked}");
    }
    let job = dirs.validate_custom_media_dir(&at("photos"));
    assert!(matches!(job.request(), Request::CurrentDir));
    let Step::Failed(error) = job.resume(Reply::Failed(other("no directory"))) else {
        panic!("the failure is lost")
    };
    assert_eq!(error.message(), "no directory");
}

#[test]
fn opening_media_folder_creates_it_before_and_after_cache_cleanup() {
    let (mut disk, worker) = installed("/tmp/opening");
    let root = at("/tmp/opening");
    let mut dirs = worker.dirs;
    disk.ensure(&dirs).unwrap();
    assert!(!disk.is_there(&dirs.media_dir()));
    let dir = disk.ensure_media_dir(&dirs).unwrap();
    assert!(disk.is_dir(&dir));
    disk.remove_tree(&dirs.media_cache_dir());
    let dir = disk.ensure_media_dir(&dirs).unwrap();
    assert!(disk.is_dir(&dir));

    dirs.custom_media = Some(root.join("custom"));
    let dir = disk.ensure_media_dir(&dirs).unwrap();
    assert!(disk.is_dir(&dir));
    assert_eq!(text(&dir), "/tmp/opening/custom");
    let blocked = root.join("file");
    disk.write(&blocked, b"fixture");
    dirs.custom_media = Some(blocked.clone());
    assert!(disk.ensure_media_dir(&dirs).is_err());
    assert_eq!(disk.read(&blocked).unwrap(), b"fixture");
}

#[test]
fn folder_changes_copy_existing_files_update_rows_and_survive_unlink_cleanup() {
    let (mut disk, mut worker) = installed("/tmp/changes");
    let root = at("/tmp/changes");
    let old = disk.ensure_media_dir(&worker.dirs).unwrap().join("photo.jpg");
    disk.write(&old, b"fixture");
    disk.attach("image", &old);
    // Multiple forwarded rows can reference the same file.
    disk.attach("forward", &old);
    let missing = old.with_file_name(b"missing.jpg");
    disk.attach("missing", &missing);

    let custom = root.join("downloads");
    let event = disk.change(&mut worker, Some(custom.clone()));
    let path = at(&disk.archived("image").unwrap());
    assert_eq!(text(&path.parent().unwrap()), disk.canonical(&text(&custom)).unwrap());
    assert_eq!(disk.read(&path).unwrap(), b"fixture");
    assert_eq!(disk.archived("forward"), Some(text(&path)));
    assert_eq!(disk.archived("missing"), None);
    assert_eq!(told(&event, &old), Some(Some(text(&path))));
    assert_eq!(told(&event, &missing), Some(None));
    assert_eq!(told(&event, &root), None);
    assert_eq!(disk.entries(&custom), 1);
    disk.remove_tree(&worker.dirs.media_cache_dir());
    assert!(!disk.is_there(&old));
    assert!(disk.is_there(&path));

    disk.change(&mut worker, None);
    assert!(worker.dirs.custom_media.is_none());
    let reset = at(&disk.archived("image").unwrap());
    assert_eq!(
        text(&reset.parent().unwrap()),
        disk.canonical(&text(&worker.dirs.media_cache_dir())).unwrap()
    );
    assert_eq!(disk.read(&reset).unwrap(), b"fixture");
    assert!(disk.is_there(&path), "reset preserves the user's custom folder files");
}

#[test]
fn collisions_preserve_unrelated_files_and_report_the_actual_new_path() {
    let (mut disk, mut worker) = installed("/tmp/collisions");
    let old = disk.ensure_media_dir(&worker.dirs).unwrap().join("photo.jpg");
    disk.write(&old, b"fixture");
    disk.attach("image", &old);
    let custom = at("/tmp/collisions/downloads");
    disk.create_dir_all(&custom, 0o755).unwrap();
    let existing = custom.join("photo.jpg");
    disk.write(&existing, b"unrelated");

    let event = disk.change(&mut worker, Some(custom));
    let path = at(&disk.archived("image").unwrap());
    assert_eq!(disk.read(&existing).unwrap(), b"unrelated");
    assert_eq!(disk.read(&path).unwrap(), b"fixture");
    assert!(text(&path).ends_with(".jpg"));
    let name = String::from_utf8(path.file_name().unwrap()).unwrap();
    assert!(name.ends_with("-photo.jpg"));
    assert_eq!(name.len(), 16 + "-photo.jpg".len());
    assert!(name[..16].chars().all(|c| matches!(c, '0'..='9' | 'a'..='f')));
    assert_eq!(told(&event, &old), Some(Some(text(&path))));
    assert!(disk.is_there(&old));
}

#[test]
fn failed_copy_keeps_the_previous_folder_and_archive_paths() {
    let (mut disk, mut worker) = installed("/tmp/failed");
    let old = disk.ensure_media_dir(&worker.dirs).unwrap().join("photo.jpg");
    disk.write(&old, b"fixture");
    disk.attach("image", &old);
    let invalid = old.with_file_name(b"directory.jpg");
    disk.create_dir_all(&invalid, 0o755).unwrap();
    disk.attach("invalid", &invalid);

    let custom = at("/tmp/failed/downloads");
    let event = disk.change(&mut worker, Some(custom.clone()));
    assert!(worker.dirs.custom_media.is_none());
    assert_eq!(disk.archived("image"), Some(text(&old)));
    assert_eq!(disk.archived("invalid"), Some(text(&invalid)));
    assert_eq!(disk.read(&old).unwrap(), b"fixture");
    assert_eq!(disk.entries(&custom), 0);
    match event {
        Event::Error(message) => {
            assert_eq!(message, "Could not change attachment folder: is a directory");
        }
        event => panic!("{event:?}"),
    }
    let removals = disk.asked.iter().filter(|asked| is_kind(asked, "Remove")).count();
    assert_eq!(removals, 1);
}

#[test]
fn invalid_or_cache_folders_are_rejected_and_default_selection_resets() {
    let (mut disk, mut worker) = installed("/tmp/invalid");
    let root = at("/tmp/invalid");
    disk.ensure(&worker.dirs).unwrap();
    let blocked = root.join("file");
    disk.write(&blocked, b"fixture");
    for path in [blocked, worker.dirs.cache.join("nested/../forbidden")] {
        let event = disk.change(&mut worker, Some(path));
        assert!(matches!(event, Event::Error(_)));
        assert!(worker.dirs.custom_media.is_none());
    }
    disk.change(&mut worker, Some(root.join("downloads")));
    assert!(worker.dirs.custom_media.is_some());
    let default = worker.dirs.media_cache_dir();
    let event = disk.change(&mut worker, Some(default));
    assert!(worker.dirs.custom_media.is_none());
    assert!(matches!(event, Event::MediaDirChanged { custom: None, .. }));
}

#[test]
fn folders_in_the_cache_are_refused_before_the_archive_is_read() {
    let (mut disk, mut worker) = installed("/tmp/inside");
    disk.ensure(&worker.dirs).unwrap();
    let custom = worker.dirs.cache.join("mine");
    let event = disk.change(&mut worker, Some(custom));
    match event {
        Event::Error(message) => assert_eq!(
            message,
            "Could not change attachment folder: Custom attachment folder cannot be inside the cache directory"
        ),
        event => panic!("{event:?}"),
    }
    assert!(!disk.asked.iter().any(|asked| is_kind(asked, "LoadRows")));
}

#[test]
fn an_empty_archive_does_not_accept_an_unwritable_folder() {
    let (mut disk, mut worker) = installed("/tmp/closed");
    let custom = at("/tmp/closed/downloads");
    disk.closed.push(text(&custom));
    let event = disk.change(&mut worker, Some(custom.clone()));
    match event {
        Event::Error(message) => {
            assert_eq!(message, "Could not change attachment folder: read-only folder");
        }
        event => panic!("{event:?}"),
    }
    assert!(worker.dirs.custom_media.is_none());
    disk.closed.clear();
    let event = disk.change(&mut worker, Some(custom));
    match event {
        Event::MediaDirChanged { custom: Some(custom), paths } => {
            assert_eq!(text(&custom), "/tmp/closed/downloads");
            assert!(paths.entries().is_empty());
        }
        event => panic!("{event:?}"),
    }
    assert_eq!(text(&worker.dirs.media_dir()), "/tmp/closed/downloads");
}

#[test]
fn an_archive_failure_removes_the_new_copies_and_nothing_else() {
    let (mut disk, mut worker) = installed("/tmp/rollback");
    let media = disk.ensure_media_dir(&worker.dirs).unwrap();
    for name in ["a.jpg", "b.jpg"] {
        disk.write(&media.join(name), b"fixture");
        disk.attach(name, &media.join(name));
    }
    let custom = at("/tmp/rollback/downloads");
    disk.write(&custom.join("mine.jpg"), b"mine");
    // This one is in the folder already and stays.
    disk.attach("mine", &custom.join("mine.jpg"));
    disk.archive_fails = true;
    let event = disk.change(&mut worker, Some(custom.clone()));
    assert!(matches!(event, Event::Error(_)));
    assert_eq!(disk.entries(&custom), 1);
    assert_eq!(disk.read(&custom.join("mine.jpg")).unwrap(), b"mine");
    assert_eq!(disk.read(&media.join("a.jpg")).unwrap(), b"fixture");
    assert_eq!(disk.archived("a.jpg"), Some(text(&media.join("a.jpg"))));

    disk.archive_fails = false;
    let event = disk.change(&mut worker, Some(custom.clone()));
    assert_eq!(told(&event, &custom.join("mine.jpg")), Some(Some(text(&custom.join("mine.jpg")))));
    assert_eq!(disk.entries(&custom), 3);
    assert_eq!(disk.archived("b.jpg"), Some(text(&custom.join("b.jpg"))));
}

#[test]
fn rows_that_spell_one_file_differently_share_its_copy() {
    let (mut disk, mut worker) = installed("/tmp/spelling");
    let media = disk.ensure_media_dir(&worker.dirs).unwrap();
    disk.write(&media.join("a.jpg"), b"fixture");
    disk.attach("one", &media.join("a.jpg"));
    disk.attach("two", &at("/tmp/spelling//cache/./media/a.jpg"));
    let custom = at("/tmp/spelling/downloads");
    disk.change(&mut worker, Some(custom.clone()));
    assert_eq!(disk.archived("one"), disk.archived("two"));
    assert_eq!(disk.entries(&custom), 1);
    let copies = disk.asked.iter().filter(|asked| is_kind(asked, "StageCopy")).count();
    assert_eq!(copies, 1);
}

#[test]
fn a_broken_task_fails_the_change_and_removes_the_copies() {
    let (mut disk, mut worker) = installed("/tmp/broken");
    let media = disk.ensure_media_dir(&worker.dirs).unwrap();
    for name in ["a.jpg", "b.jpg"] {
        disk.write(&media.join(name), b"fixture");
        disk.attach(name, &media.join(name));
    }
    let custom = at("/tmp/broken/downloads");
    let mut job = worker.change_media_dir(Some(custom.clone()));
    let mut looked = 0;
    let error = loop {
        let mut reply = disk.answer_change(&job);
        if is_kind(disk.asked.last().unwrap(), "TryExists") {
            looked += 1;
            if looked == 2 {
                reply = Reply::TaskFailed;
            }
        }
        match job.resume(reply) {
            Step::Ask(next) => job = next,
            Step::Done(_) => panic!("the change goes on"),
            Step::Failed(error) => break error,
        }
    };
    assert_eq!(error.message(), "Attachment copy task failed");
    assert_eq!(disk.entries(&custom), 0);
    let event = worker.finish_media_dir_change(Err(error));
    assert!(matches!(event, Event::Error(message)
        if message == "Could not change attachment folder: Attachment copy task failed"));
    assert_eq!(text(&worker.dirs.media_dir()), "/tmp/broken/cache/media");
}

#[test]
fn a_second_change_to_the_same_folder_changes_nothing() {
    let (mut disk, mut worker) = installed("/tmp/second");
    let media = disk.ensure_media_dir(&worker.dirs).unwrap();
    disk.write(&media.join("a.jpg"), b"fixture");
    disk.attach("a", &media.join("a.jpg"));
    disk.attach("gone", &media.join("gone.jpg"));
    let custom = at("/tmp/second/x/../downloads");
    disk.change(&mut worker, Some(custom.clone()));
    let before = (disk.nodes.clone(), disk.archived("a"));
    let chosen = text(worker.dirs.custom_media.as_ref().unwrap());
    let event = disk.change(&mut worker, Some(custom));
    assert_eq!(before, (disk.nodes.clone(), disk.archived("a")));
    assert_eq!(text(worker.dirs.custom_media.as_ref().unwrap()), chosen);
    let path = at(&disk.archived("a").unwrap());
    assert_eq!(told(&event, &path), Some(Some(text(&path))));
}

#[test]
fn a_choice_behind_a_link_counts_alike_each_time() {
    for there in [true, false] {
        let (mut disk, mut worker) = installed("/r");
        disk.ensure(&worker.dirs).unwrap();
        disk.create_dir_all(&at("/s/t"), 0o755).unwrap();
        disk.nodes.insert("/r/cache/link".to_owned(), Node::Link("/s/t".to_owned()));
        if there {
            disk.create_dir_all(&at("/s/media"), 0o755).unwrap();
        }
        disk.write(&at("/r/old/a.jpg"), b"fixture");
        disk.attach("a", &at("/r/old/a.jpg"));
        assert!(!disk.is_there(&at("/r/cache/media")));
        for _ in 0..2 {
            let event = disk.change(&mut worker, Some(at("/r/cache/link/../media")));
            assert!(matches!(event, Event::MediaDirChanged { custom: Some(_), .. }));
            assert_eq!(text(worker.dirs.custom_media.as_ref().unwrap()), "/s/media");
            assert_eq!(disk.archived("a").unwrap(), "/s/media/a.jpg");
            assert_eq!(disk.entries(&at("/s/media")), 1);
        }
    }
}

#[test]
fn the_default_folder_behind_a_link_counts_as_the_default_each_time() {
    let (mut disk, mut worker) = installed("/r");
    disk.ensure(&worker.dirs).unwrap();
    disk.create_dir_all(&at("/r/cache/t"), 0o755).unwrap();
    disk.nodes.insert("/s".to_owned(), Node::Link("/r/cache/t".to_owned()));
    assert!(!disk.is_there(&at("/r/cache/media")));
    for _ in 0..2 {
        let event = disk.change(&mut worker, Some(at("/s/x/../../media")));
        assert!(matches!(event, Event::MediaDirChanged { custom: None, .. }));
        assert!(worker.dirs.custom_media.is_none());
        assert!(disk.is_dir(&at("/r/cache/media")));
    }
}

#[test]
fn existing_paths_resolve_to_their_canonical_form() {
    let (mut disk, _) = installed("/work/app");
    disk.create_dir_all(&at("/mnt/usb/deep"), 0o755).unwrap();
    disk.nodes.insert("/work/link".to_owned(), Node::Link("/mnt/usb/deep".to_owned()));
    for path in ["/", "/..", "link", "/work/link/../deep/.", "./app", "../mnt/usb/", "/work//app"] {
        let canonical = disk.canonical(path).unwrap();
        assert!(disk.resolve(&at(path)).unwrap().same_as(&at(&canonical)), "{path}");
        assert_eq!(text(&disk.locate(&at(path)).unwrap()), canonical);
    }
    for (path, form) in [
        ("link/new/../other", "/mnt/usb/deep/other"),
        ("/work/link/../new", "/mnt/usb/new"),
        ("missing/../x", "/work/x"),
    ] {
        assert_eq!(text(&disk.locate(&at(path)).unwrap()), form);
        assert_eq!(text(&disk.resolve(&at(path)).unwrap()), form);
        disk.create_dir_all(&at(path), 0o755).unwrap();
        assert_eq!(text(&disk.locate(&at(path)).unwrap()), form);
    }
    assert!(!disk.asked.iter().any(|asked| is_kind(asked, "CreateDirAll")));
}

#[test]
fn locating_goes_on_with_each_reply() {
    let job = Locator::start(at("a/b"));
    assert!(matches!(job.request(), Request::Canonicalize(p) if text(&p) == "a/b"));
    let Step::Ask(job) = job.resume(Reply::Flag(true)) else { unreachable!() };
    assert!(matches!(job.request(), Request::Canonicalize(_)));
    let Step::Ask(job) = job.resume(Reply::Failed(other("not found"))) else { unreachable!() };
    assert!(matches!(job.request(), Request::CurrentDir));
    let step = job.resume(Reply::Failed(other("no working directory")));
    assert!(matches!(step, Step::Failed(Failure::Other(message)) if message == "no working directory"));
    let found = Locator::start(at("a")).resume(Reply::Path(at("/x")));
    assert!(matches!(found, Step::Done(form) if text(&form) == "/x"));
}

#[test]
fn roots_may_be_spelled_with_parent_steps() {
    for (old, new) in [
        ("/tmp/up/keep/../old", "/tmp/up/keep/../new"),
        ("/tmp/up/./old", "/tmp/up/fresh/../new"),
        ("/tmp/up/old/cache/..", "/tmp/up/new"),
        ("/tmp/up/old", "/tmp/up/old/inner/../below"),
        ("/tmp/up/old", "/tmp/up/new/config/.."),
    ] {
        let (mut disk, _) = installed("/tmp/up");
        disk.create_dir_all(&at("/tmp/up/keep"), 0o755).unwrap();
        let before = AppDirs::under(&at("/tmp/up/old"));
        disk.ensure(&before).unwrap();
        disk.write(&before.settings_file(), b"settings");
        disk.write(&before.archive_db(), b"archive");
        disk.write(&before.media_cache_dir().join("a.jpg"), b"picture");
        let (from, to) = (AppDirs::under(&at(old)), AppDirs::under(&at(new)));
        disk.adopt(&to, &from).unwrap();
        assert_eq!(disk.read(&to.settings_file()).unwrap(), b"settings", "{new}");
        assert_eq!(disk.read(&to.archive_db()).unwrap(), b"archive", "{new}");
        assert_eq!(disk.read(&to.media_cache_dir().join("a.jpg")).unwrap(), b"picture", "{new}");
        for dir in [&before.config, &before.state, &before.cache] {
            assert!(!disk.is_there(dir), "{new}");
        }
        let adopted = disk.nodes.clone();
        disk.adopt(&to, &from).unwrap();
        assert_eq!(disk.nodes, adopted, "{new}");
    }
}

#[test]
fn accepted_folders_are_accepted_again() {
    let (mut disk, worker) = installed("/work/accepted");
    let dirs = worker.dirs;
    disk.ensure(&dirs).unwrap();
    disk.create_dir_all(&at("/mnt/usb"), 0o755).unwrap();
    disk.nodes.insert("/work/link".to_owned(), Node::Link("/mnt/usb".to_owned()));
    for path in ["link/../usb/./a", "/work/link/new/../b", "/nowhere/c", ".."] {
        let accepted = disk.validate(&dirs, &at(path)).unwrap().unwrap();
        assert!(accepted.is_absolute());
        assert!(!text(&accepted).contains("/."));
        let again = disk.validate(&dirs, &accepted).unwrap().unwrap();
        assert_eq!(text(&again), text(&accepted), "{path}");
    }
    let linked = disk.validate(&dirs, &at("link/../usb/./a")).unwrap().unwrap();
    assert_eq!(text(&linked), "/mnt/usb/a");
}

#[test]
fn the_oldest_data_is_adopted_where_nothing_newer_stands() {
    let (mut disk, _) = installed("/tmp/oldest");
    let root = at("/tmp/oldest");
    let new = AppDirs::under(&root.join("zapfast"));
    let recent = AppDirs::under(&root.join("fastsapp"));
    let oldest = AppDirs::under(&root.join("fastwhatsapp"));
    disk.ensure(&oldest).unwrap();
    disk.write(&oldest.settings_file(), b"oldest settings");
    disk.write(&oldest.archive_db(), b"oldest archive");
    disk.write(&recent.archive_db(), b"recent archive");
    disk.write(&root.join("old-storage/app.ron"), b"window");
    let mut step = new.adopt_found(
        Some(recent),
        None,
        Some(oldest.clone()),
        Some(root.join("old-storage")),
        Some(root.join("storage")),
    );
    while let Step::Ask(job) = step {
        let reply = disk.perform(job.request());
        step = job.resume(reply);
    }
    assert!(matches!(step, Step::Done(())));
    assert_eq!(disk.read(&new.settings_file()).unwrap(), b"oldest settings");
    assert_eq!(disk.read(&new.archive_db()).unwrap(), b"recent archive");
    assert_eq!(disk.read(&oldest.archive_db()).unwrap(), b"oldest archive");
    assert_eq!(disk.read(&root.join("storage/app.ron")).unwrap(), b"window");
    assert!(!disk.is_there(&oldest.config));
}

#[test]
fn a_taken_name_is_followed_by_the_given_number() {
    let (mut disk, worker) = installed("/tmp/numbers");
    let media = disk.ensure_media_dir(&worker.dirs).unwrap();
    disk.write(&media.join("a.jpg"), b"fixture");
    disk.attach("a", &media.join("a.jpg"));
    let custom = at("/tmp/numbers/downloads");
    disk.write(&custom.join("a.jpg"), b"taken");
    let mut job = worker.change_media_dir(Some(custom.clone()));
    let changed = loop {
        let reply = disk.answer_change(&job);
        match job.resume_with(reply, 0x0123_4567_89ab_cdef) {
            Step::Ask(next) => job = next,
            Step::Done(changed) => break changed,
            Step::Failed(error) => panic!("{error:?}"),
        }
    };
    let found = changed.paths.find(&media.join("a.jpg")).unwrap().unwrap();
    assert_eq!(text(&found), "/tmp/numbers/downloads/0123456789abcdef-a.jpg");
    assert_eq!(text(&changed.custom.unwrap()), "/tmp/numbers/downloads");
}

#[test]
fn a_download_started_in_the_old_folder_finishes_in_the_current_folder() {
    let (mut disk, mut worker) = installed("/tmp/late");
    let old = disk.ensure_media_dir(&worker.dirs).unwrap().join("late.jpg");
    disk.attach("image", &old);
    disk.change(&mut worker, Some(at("/tmp/late/downloads")));
    disk.write(&old, b"fixture");
    let path = disk.keep(&worker, &old).unwrap();
    assert_eq!(text(&path.parent().unwrap()), text(&worker.dirs.media_dir()));
    disk.remove_tree(&worker.dirs.media_cache_dir());
    assert_eq!(disk.read(&path).unwrap(), b"fixture");
    // What is there already stays where it is.
    assert_eq!(text(&disk.keep(&worker, &path).unwrap()), text(&path));
    assert_eq!(disk.entries(&worker.dirs.media_dir()), 1);
    let failure = disk.keep(&worker, &at("/tmp/late/..")).unwrap_err();
    assert_eq!(failure.message(), "invalid input parameter");
}

#[test]
fn failed_operation_removes_only_new_copies() {
    let (mut disk, mut worker) = installed("/tmp/only-new");
    let source = at("/tmp/only-new/source.jpg");
    disk.write(&source, b"fixture");
    let dir = at("/tmp/only-new/target");
    disk.create_dir_all(&dir, 0o755).unwrap();
    let copy = disk.copy(&source, &dir).unwrap();
    assert!(copy.is_new);
    assert!(disk.is_there(&copy.path));
    disk.remove_tree(&copy.path);

    disk.attach("image", &source);
    disk.archive_fails = true;
    let event = disk.change(&mut worker, Some(dir.clone()));
    assert!(matches!(event, Event::Error(_)));
    let made = disk.asked.iter().filter(|asked| is_kind(asked, "Persist")).count();
    assert_eq!(made, 2);
    assert!(!disk.is_there(&copy.path));
    assert_eq!(disk.entries(&dir), 0);
    assert!(disk.is_there(&source));
}

#[test]
fn copying_reports_what_it_cannot_do() {
    let (mut disk, _) = installed("/tmp/copying");
    let dir = at("/tmp/copying/target");
    disk.create_dir_all(&dir, 0o755).unwrap();
    assert!(matches!(disk.copy(&at("/tmp/copying/.."), &dir), Err(Failure::InvalidInput)));
    let failure = disk.copy(&at("/tmp/copying/none.jpg"), &dir).unwrap_err();
    assert_eq!(failure.message(), "not found");
    disk.write(&dir.join("here.jpg"), b"fixture");
    let copy = disk.copy(&at("/tmp/copying/./target//here.jpg"), &dir).unwrap();
    assert!(!copy.is_new);
    assert_eq!(text(&copy.path), "/tmp/copying/./target//here.jpg");
    let failure = disk.copy(&dir.join("here.jpg"), &at("/tmp/copying/gone")).unwrap_err();
    assert_eq!(failure.message(), "not found");
}

#[test]
fn new_downloads_do_not_overwrite_existing_files() {
    let (mut disk, _) = installed("/tmp/saving");
    let preferred = at("/tmp/saving").join("downloads/photo.jpg");
    let first = disk.save(&preferred, b"first").unwrap();
    let second = disk.save(&preferred, b"second").unwrap();
    assert_eq!(text(&first), text(&preferred));
    assert_ne!(text(&first), text(&second));
    assert_eq!(disk.read(&first).unwrap(), b"first");
    assert_eq!(disk.read(&second).unwrap(), b"second");
    let third = disk.save(&preferred, b"third").unwrap();
    assert_ne!(text(&second), text(&third));
    assert_eq!(text(&third.parent().unwrap()), "/tmp/saving/downloads");
}

#[test]
fn saving_on_the_real_file_system_does_not_overwrite() {
    let root = tempfile::tempdir().unwrap();
    let plain = |path: &std::path::Path| FilePath::new(path.as_os_str().as_encoded_bytes().to_vec());
    let preferred = plain(&root.path().join("photo.jpg"));
    let mut saved = Vec::new();
    for bytes in [b"first", b"again"] {
        let mut staged = None;
        let mut step = save(preferred.clone(), bytes.to_vec());
        let path = loop {
            let job = match step {
                Step::Ask(job) => job,
                Step::Done(path) => break path,
                Step::Failed(error) => panic!("{error:?}"),
            };
            let reply = match job.request() {
                Request::CreateDirAll(dir) => {
                    assert_eq!(dir.as_bytes(), plain(root.path()).as_bytes());
                    Reply::Done
                }
                Request::StageBytes(dir) => {
                    let mut file = tempfile::NamedTempFile::new_in(text(&dir)).unwrap();
                    std::io::Write::write_all(&mut file, job.bytes().unwrap()).unwrap();
                    staged = Some(file);
                    Reply::Done
                }
                Request::Persist(target) => {
                    match staged.take().unwrap().persist_noclobber(text(&target)) {
                        Ok(_) => Reply::Done,
                        Err(error) if error.error.kind() == std::io::ErrorKind::AlreadyExists => {
                            staged = Some(error.file);
                            Reply::Failed(Failure::AlreadyExists(error.error.to_string()))
                        }
                        Err(error) => Reply::Failed(Failure::Other(error.error.to_string())),
                    }
                }
                request => panic!("{request:?}"),
            };
            step = job.resume(reply);
        };
        saved.push(text(&path));
    }
    assert_eq!(saved[0], text(&preferred));
    assert_ne!(saved[0], saved[1]);
    assert!(saved.iter().all(|path| std::path::Path::new(path).is_file()));
}

#[test]
fn saving_reports_what_it_cannot_do() {
    let (mut disk, _) = installed("/tmp/unsaved");
    for path in ["/", ""] {
        let error = disk.save(&at(path), b"x").unwrap_err();
        assert_eq!(error.message(), "invalid input parameter");
    }
    assert!(matches!(
        disk.save(&at("/tmp/unsaved/.."), b"x"),
        Err(SaveError::Failure(Failure::InvalidInput))
    ));
    disk.write(&at("/tmp/unsaved/file"), b"x");
    assert!(disk.save(&at("/tmp/unsaved/file/photo.jpg"), b"x").is_err());
    let Step::Ask(job) = save(at("/tmp/unsaved/a.jpg"), b"x".to_vec()) else {
        panic!("nothing is asked")
    };
    let Step::Failed(error) = job.resume(Reply::TaskFailed) else { panic!("the failure is lost") };
    assert_eq!(error.message(), "Attachment save task failed");
}
