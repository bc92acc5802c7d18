//! Paths as text, and where files are kept.

use std::path::{Component as StdComponent, Path};

use zapfast::adopt::Move;
use zapfast::file_path::FilePath;
use zapfast::io::{Request, Step};
use zapfast::path::Component;
use zapfast::paths::AppDirs;
use zapfast::platform::ProjectPaths;

fn text(path: &FilePath) -> &str {
    std::str::from_utf8(path.as_bytes()).unwrap()
}

fn at(text: &str) -> FilePath {
    FilePath::from_text(text)
}

fn plain(path: &Path) -> FilePath {
    FilePath::new(path.as_os_str().as_encoded_bytes().to_vec())
}

/// Every text over a small alphabet up to a length, and some ordinary paths.
fn samples() -> Vec<String> {
    let mut all = vec![String::new()];
    let mut last = all.clone();
    for _ in 0..5 {
        let mut next = Vec::new();
        for text in &last {
            for c in ["/", ".", "a"] {
                next.push(format!("{text}{c}"));
            }
        }
        all.extend(next.iter().cloned());
        last = next;
    }
    for text in ["/tmp/a/../b", "a/b/c.jpg", "/a//b///c/", "./a/./b/.", "a/..", "/..", "a.b/..c/...", "/é/ü"] {
        all.push(text.to_owned());
    }
    all
}

#[test]
fn paths_have_the_components_of_the_platform() {
    for sample in samples() {
        let ours = at(&sample).components();
        let theirs: Vec<StdComponent> = Path::new(&sample).components().collect();
        assert_eq!(ours.len(), theirs.len(), "{sample}");
        for (a, b) in ours.iter().zip(&theirs) {
            let same = match (a, b) {
                (Component::RootDir, StdComponent::RootDir) => true,
                (Component::CurDir, StdComponent::CurDir) => true,
                (Component::ParentDir, StdComponent::ParentDir) => true,
                (Component::Normal(name), StdComponent::Normal(other)) => {
                    name.as_slice() == other.as_encoded_bytes()
                }
                _ => false,
            };
            assert!(same, "{sample}");
        }
    }
}

#[test]
fn single_path_operations_agree_with_the_platform() {
    for sample in samples() {
        let ours = at(&sample);
        let theirs = Path::new(&sample);
        assert_eq!(ours.is_absolute(), theirs.is_absolute(), "{sample}");
        assert_eq!(
            ours.file_name(),
            theirs.file_name().map(|name| name.as_encoded_bytes().to_vec()),
            "{sample}"
        );
        assert_eq!(
            ours.parent().map(|parent| text(&parent).to_owned()),
            theirs.parent().map(|parent| parent.to_str().unwrap().to_owned()),
            "{sample}"
        );
        let mut popped = theirs.to_path_buf();
        popped.pop();
        assert_eq!(text(&ours.popped()), popped.to_str().unwrap(), "{sample}");
        assert_eq!(
            text(&ours.with_file_name(b"new.jpg")),
            theirs.with_file_name("new.jpg").to_str().unwrap(),
            "{sample}"
        );
    }
}

#[test]
fn operations_on_two_paths_agree_with_the_platform() {
    let some: Vec<String> = samples().into_iter().filter(|text| text.len() <= 4).collect();
    for a in &some {
        for b in &some {
            let (x, y) = (at(a), at(b));
            let (p, q) = (Path::new(a), Path::new(b));
            assert_eq!(text(&x.join(b)), p.join(q).to_str().unwrap(), "{a} {b}");
            assert_eq!(text(&x.join_path(&y)), p.join(q).to_str().unwrap(), "{a} {b}");
            assert_eq!(x.same_as(&y), p == q, "{a} {b}");
            assert_eq!(x.starts_with(&y), p.starts_with(q), "{a} {b}");
        }
    }
}

#[test]
fn media_dir_uses_custom_path_when_configured() {
    let root = at("/tmp/zapfast-paths-custom-media");
    let mut dirs = AppDirs::under(&root);
    assert_eq!(dirs.media_dir().as_bytes(), dirs.media_cache_dir().as_bytes());
    let custom = root.join("my-custom-media");
    dirs.custom_media = Some(custom.clone());
    assert_eq!(dirs.media_dir().as_bytes(), custom.as_bytes());
}

#[test]
fn cache_path_detection_identifies_subpaths() {
    let root = tempfile::Builder::new().prefix("cache-detection").tempdir().unwrap();
    let dirs = AppDirs::under(&plain(root.path()));
    let mut made = Vec::new();
    for name in ["config", "state", "cache"] {
        let dir = tempfile::Builder::new().prefix(name).rand_bytes(0).tempdir_in(root.path());
        made.push(dir.unwrap());
    }
    let canonical = |path: &FilePath| Path::new(text(path)).canonicalize().ok().map(|p| plain(&p));
    let is_cache_path =
        |path: &FilePath| dirs.is_cache_path(path, &canonical(path), &canonical(&dirs.cache));

    let media = dirs.media_cache_dir();
    assert!(canonical(&dirs.cache).is_some());
    assert!(dirs.is_default_media_dir(&media, &canonical(&media), &canonical(&media)));
    assert!(is_cache_path(&dirs.media_cache_dir()));
    assert!(is_cache_path(&dirs.media_cache_dir().join("subfolder")));
    assert!(!is_cache_path(&plain(root.path()).join("external-downloads")));
    assert!(is_cache_path(&dirs.cache));
}

#[test]
fn canonical_forms_decide_where_both_are_known() {
    let dirs = AppDirs::under(&at("/r"));
    let elsewhere = Some(at("/elsewhere"));
    let inside = Some(at("/real/cache/x"));
    let cache = Some(at("/real/cache"));
    assert!(dirs.is_cache_path(&at("/alias"), &inside, &cache));
    assert!(!dirs.is_cache_path(&at("/r/cache/link"), &elsewhere, &cache));
    assert!(dirs.is_cache_path(&at("/r/cache/link"), &elsewhere, &None));
    assert!(dirs.is_cache_path(&at("/r/cache/link"), &None, &cache));
    assert!(!AppDirs::is_subpath(&at("/r/cached"), &at("/r/cache"), &None, &None));
    assert!(AppDirs::is_subpath(&at("/r/./cache//a"), &at("/r/cache/"), &None, &None));
    let media = Some(at("/real/media"));
    assert!(dirs.is_default_media_dir(&at("/alias"), &media, &media));
    assert!(!dirs.is_default_media_dir(&at("/r/cache/media"), &elsewhere, &media));
    assert!(dirs.is_default_media_dir(&at("/r/cache//media/."), &None, &media));
    assert!(!dirs.is_default_media_dir(&at("/r/cache/media/x"), &None, &None));
}

#[test]
fn parent_steps_are_worked_in_where_a_path_is_not_there() {
    let within = |child: &str, parent: &str| {
        AppDirs::is_subpath(&at(child), &at(parent), &None, &Some(at("/real")))
    };
    assert!(!within("/r/cache/../x", "/r/cache"));
    assert!(within("/r/x/../cache/y", "/r/cache"));
    assert!(within("/r/cache/..", "/r"));
    assert!(within("/../r/cache", "/r"));
    assert!(within("./a/b", "a"));
    assert!(!within("../x", "."));
    assert!(within("../x", ".."));
    assert!(!within("../../x", ".."));
    let dirs = AppDirs::under(&at("/r"));
    assert!(!dirs.is_cache_path(&at("/r/cache/../x"), &None, &None));
    assert!(dirs.is_cache_path(&at("/r/state/../cache/x"), &None, &None));
    assert!(dirs.is_default_media_dir(&at("/r/cache/x/../media"), &None, &None));
    assert!(!dirs.is_default_media_dir(&at("/r/cache/media/.."), &None, &None));
}

#[test]
fn the_spelling_counts_where_only_the_path_itself_is_there() {
    let dirs = AppDirs::under(&at("/r"));
    let there = Some(at("/s/media"));
    let spelled = at("/r/cache/link/../media");
    assert!(!dirs.is_default_media_dir(&spelled, &there, &None));
    assert!(dirs.is_default_media_dir(&at("/r/cache//media/"), &there, &None));
    assert!(!dirs.is_default_media_dir(&spelled, &there, &Some(at("/r/cache/media"))));
    assert!(dirs.is_cache_path(&spelled, &there, &None));
    assert!(!dirs.is_cache_path(&at("/r/x/../cache/y"), &there, &None));
    assert!(!dirs.is_cache_path(&spelled, &there, &Some(at("/r/cache"))));
}

#[test]
fn places_are_what_paths_lead_to() {
    for (path, place) in [
        ("/a/../b", "/b"),
        ("/../a", "/a"),
        ("a/../../b", "../b"),
        ("./a/.", "a"),
        ("/a/b/../../c/d/..", "/c"),
    ] {
        assert!(at(path).same_place_as(&at(place)), "{path}");
        assert_eq!(at(path).place().len(), at(place).components().len(), "{path}");
    }
    assert!(!at("/a/../b").same_place_as(&at("b")));
    assert!(at("/a/../b/c").lies_within(&at("/b")));
    assert!(!at("/a").lies_within(&at("/a/b")));
    assert!(!at("/a").lies_within(&at("")));
}

#[test]
fn every_file_has_its_place_under_the_root() {
    let dirs = AppDirs::under(&at("/r"));
    assert_eq!(text(&dirs.config), "/r/config");
    assert_eq!(text(&dirs.state), "/r/state");
    assert_eq!(text(&dirs.cache), "/r/cache");
    assert!(dirs.custom_media.is_none());
    assert_eq!(text(&dirs.settings_file()), "/r/config/settings.json");
    assert_eq!(text(&dirs.session_db()), "/r/state/session.db");
    assert_eq!(text(&dirs.archive_db()), "/r/state/archive.db");
    assert_eq!(text(&dirs.log_file()), "/r/state/zapfast.log");
    assert_eq!(text(&dirs.panic_log()), "/r/state/panic.log");
    assert_eq!(text(&dirs.media_cache_dir()), "/r/cache/media");
    assert_eq!(text(&dirs.avatar_cache_dir()), "/r/cache/avatars");
    assert_eq!(text(&dirs.sticker_cache_dir()), "/r/cache/stickers");
    assert_eq!(text(&dirs.saved_sticker_dir()), "/r/state/stickers");
    for kept in [dirs.settings_file(), dirs.session_db(), dirs.archive_db(), dirs.saved_sticker_dir()] {
        assert!(kept.starts_with(&at("/r")));
        assert!(!kept.starts_with(&dirs.cache));
    }
    for cached in [dirs.media_cache_dir(), dirs.avatar_cache_dir(), dirs.sticker_cache_dir()] {
        assert!(cached.starts_with(&dirs.cache));
    }
}

#[test]
fn avatar_names_hold_nothing_but_letters_digits_and_underscores() {
    let dirs = AppDirs::under(&at("/r"));
    let file = |id: &str, full: bool| text(&dirs.avatar_file(id, full)).to_owned();
    assert_eq!(file("1@s.whatsapp.net", false), "/r/cache/avatars/1_s_whatsapp_net.jpg");
    assert_eq!(file("1@s.whatsapp.net", true), "/r/cache/avatars/1_s_whatsapp_net-full.jpg");
    assert_eq!(file("", false), "/r/cache/avatars/.jpg");
    assert_eq!(file("../../state/session.db", false), "/r/cache/avatars/______state_session_db.jpg");
    assert_eq!(file("aZ09é-", true), "/r/cache/avatars/aZ09__-full.jpg");
    for id in ["/", "..", "a/b", "-full"] {
        let parent = dirs.avatar_file(id, false).parent().unwrap();
        assert!(parent.same_as(&dirs.avatar_cache_dir()));
        assert_ne!(file("x", true), file(id, false));
    }
}

#[test]
fn directories_of_the_platform_are_used() {
    let here = at("/here");
    let dirs = AppDirs::discover(&here);
    let found = AppDirs::of("zapfast");
    match directories::ProjectDirs::from("me", "paolino", "zapfast") {
        Some(project) => {
            let state = project.state_dir().unwrap_or(project.data_local_dir());
            assert_eq!(dirs.config.as_bytes(), plain(project.config_dir()).as_bytes());
            assert_eq!(dirs.state.as_bytes(), plain(state).as_bytes());
            assert_eq!(dirs.cache.as_bytes(), plain(project.cache_dir()).as_bytes());
            assert_eq!(found.unwrap().config.as_bytes(), dirs.config.as_bytes());
            assert_ne!(dirs.config.as_bytes(), dirs.cache.as_bytes());
        }
        None => {
            assert!(found.is_none());
            assert_eq!(text(&dirs.config), "/here/zapfast-config");
        }
    }
    assert!(dirs.custom_media.is_none());
    assert!(text(&dirs.cache).contains("zapfast"));
}

#[test]
fn directories_of_last_resort_stand_beside_each_other() {
    let dirs = AppDirs::discover_from(None, &at("/here"));
    assert_eq!(text(&dirs.config), "/here/zapfast-config");
    assert_eq!(text(&dirs.state), "/here/zapfast-state");
    assert_eq!(text(&dirs.cache), "/here/zapfast-cache");
    assert!(!dirs.session_db().starts_with(&dirs.cache));
    assert!(!dirs.settings_file().starts_with(&dirs.cache));
    assert!(dirs.media_cache_dir().starts_with(&dirs.cache));
    let relative = AppDirs::discover_from(None, &at(""));
    assert_eq!(text(&relative.config), "zapfast-config");
    let found = AppDirs::discover_from(Some(AppDirs::under(&at("/r"))), &at("/here"));
    assert_eq!(text(&found.config), "/r/config");
}

#[test]
fn state_goes_with_the_local_data_where_it_has_no_place() {
    let paths = |state: Option<FilePath>| ProjectPaths {
        config: at("/c"),
        state,
        data_local: at("/d"),
        cache: at("/x"),
    };
    assert_eq!(text(&AppDirs::standard(paths(Some(at("/s")))).state), "/s");
    let dirs = AppDirs::standard(paths(None));
    assert_eq!(text(&dirs.state), "/d");
    assert_eq!(text(&dirs.config), "/c");
    assert_eq!(text(&dirs.cache), "/x");
    assert!(dirs.custom_media.is_none());
}

fn texts(moves: &[Move<FilePath>]) -> Vec<(String, String)> {
    moves
        .iter()
        .map(|step| (text(&step.from).to_owned(), text(&step.to).to_owned()))
        .collect()
}

#[test]
fn earlier_names_are_adopted_newest_first() {
    let dirs = AppDirs::under(&at("/new"));
    let mut expected = Vec::new();
    for name in ["fastsapp", "fastwhatsapp"] {
        if let Some(project) = directories::ProjectDirs::from("me", "paolino", name) {
            let state = project.state_dir().unwrap_or(project.data_local_dir());
            for (from, to) in [
                (project.config_dir(), "/new/config"),
                (state, "/new/state"),
                (project.cache_dir(), "/new/cache"),
            ] {
                expected.push((from.to_str().unwrap().to_owned(), to.to_owned()));
            }
        }
        if let (Some(from), Some(to)) = (eframe::storage_dir(name), eframe::storage_dir("zapfast")) {
            expected.push((from.to_str().unwrap().to_owned(), to.to_str().unwrap().to_owned()));
        }
    }
    match dirs.adopt_previous_names() {
        Step::Ask(job) => {
            let mut moves = texts(&[Move { from: job.current.from.clone(), to: job.current.to.clone() }]);
            moves.extend(texts(&job.rest));
            assert_eq!(moves, expected);
            assert!(matches!(job.request(), Request::IsDir(p) if text(&p) == moves[0].0));
            assert!(moves[0].0.contains("fastsapp"));
        }
        Step::Done(()) => assert!(expected.is_empty()),
        Step::Failed(_) => unreachable!(),
    }
}

#[test]
fn what_was_found_of_both_names_is_taken_over_in_order() {
    let dirs = AppDirs::under(&at("/new"));
    let under = |root: &str| Some(AppDirs::under(&at(root)));
    let found = |step| match step {
        Step::Ask(job) => {
            let job: zapfast::adopt::Migration = job;
            let mut moves =
                texts(&[Move { from: job.current.from.clone(), to: job.current.to.clone() }]);
            moves.extend(texts(&job.rest));
            moves
        }
        _ => Vec::new(),
    };
    let both = found(dirs.adopt_found(
        under("/recent"),
        Some(at("/rs")),
        under("/oldest"),
        Some(at("/os")),
        Some(at("/s")),
    ));
    let expected = [
        ("/recent/config", "/new/config"),
        ("/recent/state", "/new/state"),
        ("/recent/cache", "/new/cache"),
        ("/rs", "/s"),
        ("/oldest/config", "/new/config"),
        ("/oldest/state", "/new/state"),
        ("/oldest/cache", "/new/cache"),
        ("/os", "/s"),
    ];
    let expected: Vec<(String, String)> =
        expected.iter().map(|(a, b)| ((*a).to_owned(), (*b).to_owned())).collect();
    assert_eq!(both, expected);
    let only = found(dirs.adopt_found(None, None, under("/oldest"), Some(at("/os")), None));
    assert_eq!(only, expected[4..7]);
    assert!(matches!(
        dirs.adopt_found(None, Some(at("/rs")), None, None, None),
        Step::Done(())
    ));
}

#[test]
fn moves_for_a_name_end_with_its_storage() {
    let dirs = AppDirs::under(&at("/new"));
    let old = AppDirs::under(&at("/old"));
    let moves = dirs.moves_for_name(Some(old), Some(at("/a")), Some(at("/b")));
    let expected = [
        ("/old/config", "/new/config"),
        ("/old/state", "/new/state"),
        ("/old/cache", "/new/cache"),
        ("/a", "/b"),
    ];
    let expected: Vec<(String, String)> =
        expected.iter().map(|(a, b)| ((*a).to_owned(), (*b).to_owned())).collect();
    assert_eq!(texts(&moves), expected);
    assert_eq!(texts(&dirs.moves_for_name(None, Some(at("/a")), Some(at("/b")))), expected[3..]);
    assert!(dirs.moves_for_name(None, Some(at("/a")), None).is_empty());
    assert!(dirs.moves_for_name(None, None, Some(at("/b"))).is_empty());
}
