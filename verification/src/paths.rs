//! Where ZapFast keeps its files.
//!
//! Configuration, session state, and caches use separate standard platform
//! directories. Clearing a cache does not remove device keys.

use vstd::prelude::*;
use crate::file_path::FilePath;
use crate::path;
use crate::platform;
use crate::platform::{ProjectPaths, ProjectPathsView};

verus! {

/// The directories of one installation.
#[derive(Debug)]
pub struct AppDirs {
    pub config: FilePath,
    pub state: FilePath,
    pub cache: FilePath,
    pub custom_media: Option<FilePath>,
}

/// The texts of the directories of one installation.
pub ghost struct Layout {
    pub config: Seq<u8>,
    pub state: Seq<u8>,
    pub cache: Seq<u8>,
    pub custom_media: Option<Seq<u8>>,
}

impl View for AppDirs {
    type V = Layout;

    open spec fn view(&self) -> Layout {
        Layout {
            config: self.config@,
            state: self.state@,
            cache: self.cache@,
            custom_media: self.custom_media.deep_view(),
        }
    }
}

impl DeepView for AppDirs {
    type V = Layout;

    open spec fn deep_view(&self) -> Layout {
        self@
    }
}

impl Clone for AppDirs {
    fn clone(&self) -> (res: Self)
        ensures
            res@ == self@,
    {
        AppDirs {
            config: self.config.clone(),
            state: self.state.clone(),
            cache: self.cache.clone(),
            custom_media: match &self.custom_media {
                Some(dir) => Some(dir.clone()),
                None => None,
            },
        }
    }
}

/// Whether a character is an ASCII letter or digit.
pub open spec fn is_ascii_alphanumeric(c: char) -> bool {
    ||| 'a' <= c <= 'z'
    ||| 'A' <= c <= 'Z'
    ||| '0' <= c <= '9'
}

/// The byte that stands for a character of a chat id in a file name.
pub open spec fn stem_byte(c: char) -> u8 {
    if is_ascii_alphanumeric(c) {
        c as u8
    } else {
        95
    }
}

/// The name of the cached profile picture of a chat.
pub open spec fn avatar_name(id: Seq<char>, full: bool) -> Seq<u8> {
    let stem = id.map_values(|c: char| stem_byte(c));
    stem + (if full {
        path::text("-full")
    } else {
        Seq::empty()
    }) + path::text(".jpg")
}

/// Whether `child` is `dir` or stands below it, given what the file system makes
/// of the two paths: judged by that where it is known of both, by the paths as
/// they are spelled where it is known of `child` alone, and by where their
/// spelling leads otherwise.
pub open spec fn is_subpath(
    child: Seq<u8>,
    dir: Seq<u8>,
    child_form: Option<Seq<u8>>,
    dir_form: Option<Seq<u8>>,
) -> bool {
    match (child_form, dir_form) {
        (Some(c), Some(d)) => path::starts_with(c, d),
        (Some(_), None) => path::starts_with(child, dir),
        (None, _) => path::lies_within(child, dir),
    }
}

/// Whether two paths are the same, given what the file system makes of them:
/// judged by that where it is known of both, by the paths as they are spelled
/// where it is known of `a` alone, and by where their spelling leads otherwise.
pub open spec fn resolves_to(
    a: Seq<u8>,
    b: Seq<u8>,
    a_form: Option<Seq<u8>>,
    b_form: Option<Seq<u8>>,
) -> bool {
    match (a_form, b_form) {
        (Some(c), Some(d)) => path::same_path(c, d),
        (Some(_), None) => path::same_path(a, b),
        (None, _) => path::same_place(a, b),
    }
}

impl Layout {
    /// Everything under one directory.
    pub open spec fn under(root: Seq<u8>) -> Layout {
        Layout {
            config: path::join(root, path::text("config")),
            state: path::join(root, path::text("state")),
            cache: path::join(root, path::text("cache")),
            custom_media: None,
        }
    }

    /// The standard directories; what has no place of its own on a platform
    /// goes with the local data.
    pub open spec fn standard(project: ProjectPathsView) -> Layout {
        Layout {
            config: project.config,
            state: match project.state {
                Some(state) => state,
                None => project.data_local,
            },
            cache: project.cache,
            custom_media: None,
        }
    }

    /// The standard directories, if there are any.
    pub open spec fn of(project: Option<ProjectPathsView>) -> Option<Layout> {
        match project {
            Some(paths) => Some(Layout::standard(paths)),
            None => None,
        }
    }

    /// Directories of last resort.
    pub open spec fn beside(current_dir: Seq<u8>) -> Layout {
        Layout {
            config: path::join(current_dir, path::text("zapfast-config")),
            state: path::join(current_dir, path::text("zapfast-state")),
            cache: path::join(current_dir, path::text("zapfast-cache")),
            custom_media: None,
        }
    }

    /// The directories that were found, or those of last resort.
    pub open spec fn discovered(found: Option<Layout>, current_dir: Seq<u8>) -> Layout {
        match found {
            Some(dirs) => dirs,
            None => Layout::beside(current_dir),
        }
    }

    pub open spec fn media_cache_dir(self) -> Seq<u8> {
        path::join(self.cache, path::text("media"))
    }

    pub open spec fn avatar_cache_dir(self) -> Seq<u8> {
        path::join(self.cache, path::text("avatars"))
    }

    pub open spec fn media_dir(self) -> Seq<u8> {
        match self.custom_media {
            Some(dir) => dir,
            None => self.media_cache_dir(),
        }
    }
}

fn stem(id: &str) -> (res: Vec<u8>)
    ensures
        res@ == id@.map_values(|c: char| stem_byte(c)),
{
    let mut out: Vec<u8> = Vec::new();
    for c in it: id.chars()
        invariant
            it.seq() == id@,
            out@ == id@.take(it.index()).map_values(|c: char| stem_byte(c)),
    {
        let ghost i = it.index();
        let b: u8 = if ('a' <= c && c <= 'z') || ('A' <= c && c <= 'Z') || ('0' <= c && c <= '9') {
            c as u8
        } else {
            95
        };
        out.push(b);
        assert(id@.take(i + 1) =~= id@.take(i).push(c));
        assert(out@ =~= id@.take(i + 1).map_values(|c: char| stem_byte(c)));
    }
    assert(id@.take(id@.len() as int) =~= id@);
    out
}

impl AppDirs {
    /// The directories of this application. Where the platform has none, they
    /// stand beside each other in `current_dir`.
    pub fn discover(current_dir: &FilePath) -> (res: AppDirs)
        ensures
            exists|project: Option<ProjectPathsView>|
                {
                    &&& #[trigger] Layout::discovered(Layout::of(project), current_dir@) == res@
                    &&& project matches Some(paths) ==> paths.belongs_to(path::text("zapfast"))
                },
    {
        proof {
            reveal_strlit("zapfast");
        }
        let found = AppDirs::of("zapfast");
        let ghost project = choose|project: Option<ProjectPathsView>|
            {
                &&& #[trigger] Layout::of(project) == found.deep_view()
                &&& project matches Some(paths) ==> paths.belongs_to(path::text("zapfast"))
            };
        let res = AppDirs::discover_from(found, current_dir);
        assert(Layout::discovered(Layout::of(project), current_dir@) == res@);
        res
    }

    /// The directories that were found, or those of last resort.
    pub fn discover_from(found: Option<AppDirs>, current_dir: &FilePath) -> (res: AppDirs)
        ensures
            res@ == Layout::discovered(found.deep_view(), current_dir@),
            found matches Some(dirs) ==> res@ == dirs@,
            found is None ==> {
                &&& res.config@ == path::join(current_dir@, path::text("zapfast-config"))
                &&& res.state@ == path::join(current_dir@, path::text("zapfast-state"))
                &&& res.cache@ == path::join(current_dir@, path::text("zapfast-cache"))
                &&& res.custom_media is None
            },
    {
        match found {
            Some(dirs) => dirs,
            None => AppDirs {
                config: current_dir.join("zapfast-config"),
                state: current_dir.join("zapfast-state"),
                cache: current_dir.join("zapfast-cache"),
                custom_media: None,
            },
        }
    }

    /// Standard platform directories for the app.
    pub fn of(name: &str) -> (res: Option<AppDirs>)
        ensures
            exists|project: Option<ProjectPathsView>|
                {
                    &&& #[trigger] Layout::of(project) == res.deep_view()
                    &&& platform::is_app_name(name@) ==> (project matches Some(paths)
                        ==> paths.belongs_to(path::text(name)))
                },
    {
        let project = platform::project_dirs("me", "paolino", name);
        let ghost found = project.deep_view();
        let res = match project {
            Some(paths) => Some(AppDirs::standard(paths)),
            None => None,
        };
        assert(Layout::of(found) == res.deep_view());
        res
    }

    /// The directories that the platform has for the app.
    pub fn standard(paths: ProjectPaths) -> (res: AppDirs)
        ensures
            res@ == Layout::standard(paths.deep_view()),
            res.config@ == paths.config@,
            paths.state matches Some(state) ==> res.state@ == state@,
            paths.state is None ==> res.state@ == paths.data_local@,
            res.cache@ == paths.cache@,
            res.custom_media is None,
    {
        AppDirs {
            config: paths.config,
            state: match paths.state {
                Some(state) => state,
                None => paths.data_local,
            },
            cache: paths.cache,
            custom_media: None,
        }
    }

    /// Places all data under one directory for tests and temporary runs.
    pub fn under(root: &FilePath) -> (res: AppDirs)
        ensures
            res@ == Layout::under(root@),
            res.config@ == path::join(root@, path::text("config")),
            res.state@ == path::join(root@, path::text("state")),
            res.cache@ == path::join(root@, path::text("cache")),
            res.custom_media is None,
    {
        AppDirs {
            config: root.join("config"),
            state: root.join("state"),
            cache: root.join("cache"),
            custom_media: None,
        }
    }

    pub fn settings_file(&self) -> (res: FilePath)
        ensures
            res@ == path::join(self.config@, path::text("settings.json")),
    {
        self.config.join("settings.json")
    }

    /// Device identity, sessions, and state keys. Deleting this database
    /// unlinks the computer.
    pub fn session_db(&self) -> (res: FilePath)
        ensures
            res@ == path::join(self.state@, path::text("session.db")),
    {
        self.state.join("session.db")
    }

    /// Local message archive.
    pub fn archive_db(&self) -> (res: FilePath)
        ensures
            res@ == path::join(self.state@, path::text("archive.db")),
    {
        self.state.join("archive.db")
    }

    /// Current-run log, replaced at startup.
    pub fn log_file(&self) -> (res: FilePath)
        ensures
            res@ == path::join(self.state@, path::text("zapfast.log")),
    {
        self.state.join("zapfast.log")
    }

    /// Panic log written before process exit.
    pub fn panic_log(&self) -> (res: FilePath)
        ensures
            res@ == path::join(self.state@, path::text("panic.log")),
    {
        self.state.join("panic.log")
    }

    /// Downloaded attachments keyed by message id.
    pub fn media_cache_dir(&self) -> (res: FilePath)
        ensures
            res@ == self@.media_cache_dir(),
            res@ == path::join(self.cache@, path::text("media")),
    {
        self.cache.join("media")
    }

    /// Effective attachment directory, using a custom path when configured.
    pub fn media_dir(&self) -> (res: FilePath)
        ensures
            res@ == self@.media_dir(),
            self.custom_media matches Some(dir) ==> res@ == dir@,
            self.custom_media is None ==> res@ == path::join(self.cache@, path::text("media")),
    {
        match &self.custom_media {
            Some(dir) => dir.clone(),
            None => self.media_cache_dir(),
        }
    }

    /// Returns true if `path` resolves to the default media cache directory.
    /// `form` and `default_form` are what the file system makes of the two paths,
    /// as a [`crate::locate::Locator`] finds it.
    pub fn is_default_media_dir(
        &self,
        path: &FilePath,
        form: &Option<FilePath>,
        default_form: &Option<FilePath>,
    ) -> (res: bool)
        ensures
            res == resolves_to(
                path@,
                self@.media_cache_dir(),
                form.deep_view(),
                default_form.deep_view(),
            ),
    {
        match (form, default_form) {
            (Some(p), Some(d)) => p.same_as(d),
            (Some(_), None) => path.same_as(&self.media_cache_dir()),
            (None, _) => path.same_place_as(&self.media_cache_dir()),
        }
    }

    /// Returns true if `path` is equal to or contained within the cache. `form`
    /// and `cache_form` are what the file system makes of the two paths, as a
    /// [`crate::locate::Locator`] finds it.
    pub fn is_cache_path(
        &self,
        path: &FilePath,
        form: &Option<FilePath>,
        cache_form: &Option<FilePath>,
    ) -> (res: bool)
        ensures
            res == is_subpath(path@, self.cache@, form.deep_view(), cache_form.deep_view()),
    {
        AppDirs::is_subpath(path, &self.cache, form, cache_form)
    }

    /// Checks whether `child` is equal to or located within `parent`.
    /// `child_form` and `parent_form` are what the file system makes of the two
    /// paths, as a [`crate::locate::Locator`] finds it.
    pub fn is_subpath(
        child: &FilePath,
        parent: &FilePath,
        child_form: &Option<FilePath>,
        parent_form: &Option<FilePath>,
    ) -> (res: bool)
        ensures
            res == is_subpath(
                child@,
                parent@,
                child_form.deep_view(),
                parent_form.deep_view(),
            ),
    {
        match (child_form, parent_form) {
            (Some(c), Some(p)) => c.starts_with(p),
            (Some(_), None) => child.starts_with(parent),
            (None, _) => child.lies_within(parent),
        }
    }

    /// Profile pictures keyed by chat.
    pub fn avatar_cache_dir(&self) -> (res: FilePath)
        ensures
            res@ == self@.avatar_cache_dir(),
            res@ == path::join(self.cache@, path::text("avatars")),
    {
        self.cache.join("avatars")
    }

    /// Recent phone stickers keyed by file hash.
    pub fn sticker_cache_dir(&self) -> (res: FilePath)
        ensures
            res@ == path::join(self.cache@, path::text("stickers")),
    {
        self.cache.join("stickers")
    }

    /// Saved stickers keyed by content hash. These are user data, not cache.
    pub fn saved_sticker_dir(&self) -> (res: FilePath)
        ensures
            res@ == path::join(self.state@, path::text("stickers")),
    {
        self.state.join("stickers")
    }

    /// Cached profile-picture path. `full` selects the info-dialog size.
    pub fn avatar_file(&self, id: &str, full: bool) -> (res: FilePath)
        ensures
            res@ == path::join(self@.avatar_cache_dir(), avatar_name(id@, full)),
    {
        let mut name = stem(id);
        if full {
            name.extend_from_slice("-full".as_bytes());
        }
        name.extend_from_slice(".jpg".as_bytes());
        assert(name@ =~= avatar_name(id@, full));
        self.avatar_cache_dir().join_bytes(name.as_slice())
    }
}

} // verus!
