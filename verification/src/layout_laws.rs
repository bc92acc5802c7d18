//! What holds of the places in which files are kept.

use vstd::prelude::*;
use vstd::utf8::{is_ascii_chars, is_ascii_chars_encode_utf8};
use crate::path;
use crate::path::Component;
use crate::paths;
use crate::paths::Layout;
use crate::platform::ProjectPathsView;

verus! {

/// Whether a text is a plain file name: no slash, and no dot in front.
spec fn is_plain_text(s: &str) -> bool {
    &&& is_ascii_chars(s@)
    &&& s@.len() > 0
    &&& s@[0] != '.'
    &&& forall|i: int| 0 <= i < s@.len() ==> s@[i] != '/'
}

proof fn lemma_plain_text(s: &str)
    requires
        is_plain_text(s),
    ensures
        path::is_plain_name(path::text(s)),
        path::text(s).len() == s@.len(),
        forall|i: int| 0 <= i < s@.len() ==> path::text(s)[i] == s@[i] as u8,
{
    is_ascii_chars_encode_utf8(s@);
    assert forall|i: int| 0 <= i < s@.len() implies path::text(s)[i] != path::SLASH by {
        assert(s@[i] as u8 == path::text(s)[i]);
        assert(s@[i] != '/');
    }
    assert(s@[0] as u8 == path::text(s)[0]);
}

/// What belongs to the cache is kept within it, what belongs to the state within
/// that, and the settings within the configuration.
pub proof fn law_every_file_is_kept_in_its_directory(dirs: Layout)
    ensures
        path::starts_with(dirs.media_cache_dir(), dirs.cache),
        path::starts_with(dirs.avatar_cache_dir(), dirs.cache),
        path::starts_with(path::join(dirs.cache, path::text("stickers")), dirs.cache),
        path::starts_with(path::join(dirs.state, path::text("session.db")), dirs.state),
        path::starts_with(path::join(dirs.state, path::text("archive.db")), dirs.state),
        path::starts_with(path::join(dirs.state, path::text("zapfast.log")), dirs.state),
        path::starts_with(path::join(dirs.state, path::text("panic.log")), dirs.state),
        path::starts_with(path::join(dirs.state, path::text("stickers")), dirs.state),
        path::starts_with(path::join(dirs.config, path::text("settings.json")), dirs.config),
{
    reveal_strlit("media");
    reveal_strlit("avatars");
    reveal_strlit("stickers");
    reveal_strlit("session.db");
    reveal_strlit("archive.db");
    reveal_strlit("zapfast.log");
    reveal_strlit("panic.log");
    reveal_strlit("settings.json");
    lemma_plain_text("media");
    lemma_plain_text("avatars");
    lemma_plain_text("stickers");
    lemma_plain_text("session.db");
    lemma_plain_text("archive.db");
    lemma_plain_text("zapfast.log");
    lemma_plain_text("panic.log");
    lemma_plain_text("settings.json");
    path::law_joined_name_is_within(dirs.cache, path::text("media"));
    path::law_joined_name_is_within(dirs.cache, path::text("avatars"));
    path::law_joined_name_is_within(dirs.cache, path::text("stickers"));
    path::law_joined_name_is_within(dirs.state, path::text("session.db"));
    path::law_joined_name_is_within(dirs.state, path::text("archive.db"));
    path::law_joined_name_is_within(dirs.state, path::text("zapfast.log"));
    path::law_joined_name_is_within(dirs.state, path::text("panic.log"));
    path::law_joined_name_is_within(dirs.state, path::text("stickers"));
    path::law_joined_name_is_within(dirs.config, path::text("settings.json"));
}

proof fn lemma_siblings(root: Seq<u8>, a: Seq<u8>, b: Seq<u8>, p: Seq<u8>)
    requires
        path::is_plain_name(a),
        path::is_plain_name(b),
        a != b,
        path::starts_with(p, path::join(root, a)),
    ensures
        path::starts_with(path::join(root, a), root),
        !path::starts_with(p, path::join(root, b)),
{
    path::law_joined_name_is_within(root, a);
    path::law_join_plain_name(root, a);
    path::law_join_plain_name(root, b);
    let n = path::components(root).len() as int;
    let c = path::components(p);
    assert(c[n] == Component::Normal(a)) by {
        assert(c.subrange(0, n + 1)[n] == path::components(path::join(root, a))[n]);
    }
    if path::starts_with(p, path::join(root, b)) {
        assert(c.subrange(0, n + 1)[n] == path::components(path::join(root, b))[n]);
    }
}

/// The names of the three directories are plain and differ.
pub proof fn lemma_directory_names()
    ensures
        path::is_plain_name(path::text("config")),
        path::is_plain_name(path::text("state")),
        path::is_plain_name(path::text("cache")),
        path::text("config") != path::text("state"),
        path::text("config") != path::text("cache"),
        path::text("state") != path::text("cache"),
{
    reveal_strlit("config");
    reveal_strlit("state");
    reveal_strlit("cache");
    lemma_plain_text("config");
    lemma_plain_text("state");
    lemma_plain_text("cache");
    assert("config"@[0] == 'c' && "state"@[0] == 's' && "cache"@[0] == 'c');
    assert(path::text("config").len() == 6 && path::text("state").len() == 5 && path::text(
        "cache",
    ).len() == 5);
    assert(path::text("state")[0] == 's' as u8 && path::text("cache")[0] == 'c' as u8);
}

/// Under one root, the three directories are apart: whatever lies within one of
/// them lies within the root and in no other. So clearing the cache removes
/// neither device keys nor settings nor anything else that is kept elsewhere.
pub proof fn law_directories_are_apart(root: Seq<u8>, p: Seq<u8>)
    ensures
        path::starts_with(Layout::under(root).config, root),
        path::starts_with(Layout::under(root).state, root),
        path::starts_with(Layout::under(root).cache, root),
        path::starts_with(p, Layout::under(root).state) ==> !path::starts_with(
            p,
            Layout::under(root).cache,
        ),
        path::starts_with(p, Layout::under(root).config) ==> !path::starts_with(
            p,
            Layout::under(root).cache,
        ),
        path::starts_with(p, Layout::under(root).config) ==> !path::starts_with(
            p,
            Layout::under(root).state,
        ),
{
    lemma_directory_names();
    let config = path::text("config");
    let state = path::text("state");
    let cache = path::text("cache");
    path::law_joined_name_is_within(root, config);
    path::law_joined_name_is_within(root, state);
    path::law_joined_name_is_within(root, cache);
    if path::starts_with(p, Layout::under(root).state) {
        lemma_siblings(root, state, cache, p);
    }
    if path::starts_with(p, Layout::under(root).config) {
        lemma_siblings(root, config, cache, p);
        lemma_siblings(root, config, state, p);
    }
}

/// The directories of last resort are apart in the same way.
pub proof fn law_directories_of_last_resort_are_apart(current_dir: Seq<u8>, p: Seq<u8>)
    ensures
        path::starts_with(p, Layout::beside(current_dir).state) ==> !path::starts_with(
            p,
            Layout::beside(current_dir).cache,
        ),
        path::starts_with(p, Layout::beside(current_dir).config) ==> !path::starts_with(
            p,
            Layout::beside(current_dir).cache,
        ),
        path::starts_with(p, Layout::beside(current_dir).config) ==> !path::starts_with(
            p,
            Layout::beside(current_dir).state,
        ),
{
    reveal_strlit("zapfast-config");
    reveal_strlit("zapfast-state");
    reveal_strlit("zapfast-cache");
    lemma_plain_text("zapfast-config");
    lemma_plain_text("zapfast-state");
    lemma_plain_text("zapfast-cache");
    let config = path::text("zapfast-config");
    let state = path::text("zapfast-state");
    let cache = path::text("zapfast-cache");
    assert("zapfast-state"@[8] == 's' && "zapfast-cache"@[8] == 'c');
    assert(config.len() == 14 && state.len() == 13 && cache.len() == 13);
    assert(state[8] == 's' as u8 && cache[8] == 'c' as u8);
    if path::starts_with(p, Layout::beside(current_dir).state) {
        lemma_siblings(current_dir, state, cache, p);
    }
    if path::starts_with(p, Layout::beside(current_dir).config) {
        lemma_siblings(current_dir, config, cache, p);
        lemma_siblings(current_dir, config, state, p);
    }
}

/// Whatever the id of a chat holds, its picture is a single plain name, directly
/// in the folder of the pictures, and no small picture has the name of a large
/// one.
pub proof fn law_avatars_stay_in_their_folder(
    dirs: Layout,
    id: Seq<char>,
    full: bool,
    other: Seq<char>,
)
    ensures
        path::is_plain_name(paths::avatar_name(id, full)),
        path::components(path::join(dirs.avatar_cache_dir(), paths::avatar_name(id, full)))
            == path::components(dirs.avatar_cache_dir()).push(
            Component::Normal(paths::avatar_name(id, full)),
        ),
        paths::avatar_name(id, true) != paths::avatar_name(other, false),
{
    reveal_strlit("-full");
    reveal_strlit(".jpg");
    is_ascii_chars_encode_utf8("-full"@);
    is_ascii_chars_encode_utf8(".jpg"@);
    let suffix = path::text("-full");
    let extension = path::text(".jpg");
    assert("-full"@[0] as u8 == suffix[0] && "-full"@[1] as u8 == suffix[1] && "-full"@[2] as u8
        == suffix[2] && "-full"@[3] as u8 == suffix[3] && "-full"@[4] as u8 == suffix[4]);
    assert(".jpg"@[0] as u8 == extension[0] && ".jpg"@[1] as u8 == extension[1] && ".jpg"@[2] as u8
        == extension[2] && ".jpg"@[3] as u8 == extension[3]);
    let name = paths::avatar_name(id, full);
    assert forall|i: int| 0 <= i < name.len() implies name[i] != path::SLASH by {
        if i < id.len() {
            assert(name[i] == paths::stem_byte(id[i]));
        }
    }
    assert(name.len() >= 4);
    path::law_join_plain_name(dirs.avatar_cache_dir(), name);
    let large = paths::avatar_name(id, true);
    let small = paths::avatar_name(other, false);
    if large == small {
        let i = id.len() as int;
        assert(large[i] == suffix[0]);
        assert(large.len() == id.len() + 9);
        assert(small.len() == other.len() + 4);
        assert(small[i] == paths::stem_byte(other[i]));
    }
}

/// Attachments are kept in the custom folder where there is one, wherever it lies,
/// and otherwise in the folder `media` of the cache. Where the other directories
/// lie makes no difference.
pub proof fn law_custom_folder_is_used(dirs: Layout, other: Layout)
    ensures
        dirs.custom_media matches Some(dir) ==> dirs.media_dir() == dir,
        dirs.custom_media is None ==> dirs.media_dir() == path::join(
            dirs.cache,
            path::text("media"),
        ),
        dirs.custom_media == other.custom_media && dirs.cache == other.cache ==> dirs.media_dir()
            == other.media_dir(),
        dirs.media_cache_dir() == path::join(dirs.cache, path::text("media")),
        dirs.avatar_cache_dir() == path::join(dirs.cache, path::text("avatars")),
{
}

/// Whether a character is one of the letters `a` to `z` and `A` to `Z` and the
/// digits `0` to `9`.
pub open spec fn is_letter_or_digit(c: char) -> bool {
    'a' <= c && c <= 'z' || 'A' <= c && c <= 'Z' || '0' <= c && c <= '9'
}

/// The name of a picture spells the id of its chat: every ASCII letter and digit
/// stands where it stands in the id, and an underscore stands for every other
/// character. What follows tells the size.
pub proof fn law_pictures_are_named_after_their_chat(id: Seq<char>, full: bool, i: int)
    ensures
        paths::avatar_name(id, full).len() == id.len() + (if full {
            9int
        } else {
            4int
        }),
        0 <= i < id.len() ==> paths::avatar_name(id, full)[i] == (if is_letter_or_digit(id[i]) {
            id[i] as u8
        } else {
            95u8
        }),
        paths::avatar_name(id, full).skip(id.len() as int) == (if full {
            path::text("-full") + path::text(".jpg")
        } else {
            path::text(".jpg")
        }),
{
    reveal_strlit("-full");
    reveal_strlit(".jpg");
    is_ascii_chars_encode_utf8("-full"@);
    is_ascii_chars_encode_utf8(".jpg"@);
    let name = paths::avatar_name(id, full);
    assert(name.skip(id.len() as int) =~= (if full {
        path::text("-full") + path::text(".jpg")
    } else {
        path::text(".jpg")
    }));
}

/// Two chats whose ids hold nothing but letters and digits have two pictures.
pub proof fn law_chats_do_not_share_a_picture(id: Seq<char>, other: Seq<char>, full: bool)
    requires
        id != other,
        forall|i: int| 0 <= i < id.len() ==> is_letter_or_digit(#[trigger] id[i]),
        forall|i: int| 0 <= i < other.len() ==> is_letter_or_digit(#[trigger] other[i]),
    ensures
        paths::avatar_name(id, full) != paths::avatar_name(other, full),
{
    if paths::avatar_name(id, full) == paths::avatar_name(other, full) {
        law_pictures_are_named_after_their_chat(id, full, 0);
        law_pictures_are_named_after_their_chat(other, full, 0);
        assert forall|i: int| 0 <= i < id.len() implies id[i] == other[i] by {
            law_pictures_are_named_after_their_chat(id, full, i);
            law_pictures_are_named_after_their_chat(other, full, i);
            assert(is_letter_or_digit(id[i]) && is_letter_or_digit(other[i]));
        }
        assert(id =~= other);
    }
}

/// A path lies within itself and resolves to itself, whatever the file system
/// makes of it; and what resolves to a directory lies within it.
pub proof fn law_subpaths(
    p: Seq<u8>,
    dir: Seq<u8>,
    p_form: Option<Seq<u8>>,
    dir_form: Option<Seq<u8>>,
)
    ensures
        paths::is_subpath(p, p, p_form, p_form),
        paths::resolves_to(p, p, p_form, p_form),
        paths::resolves_to(p, dir, p_form, dir_form) ==> paths::is_subpath(
            p,
            dir,
            p_form,
            dir_form,
        ),
{
    let k = path::place(p);
    assert(k =~= k.subrange(0, k.len() as int));
    path::law_starts_with_is_an_order(p, p, p);
    if let Some(c) = p_form {
        path::law_starts_with_is_an_order(c, c, c);
    }
}

/// Where the file system is known to make something of both paths, that alone decides:
/// one lies within the other exactly if its form has the components of the other's
/// form and then any others, and they are the same exactly if the forms are. Where
/// only the first is known, the spelled components decide; and where it is not, what
/// their spelling leads to does.
pub proof fn law_forms_decide(
    p: Seq<u8>,
    dir: Seq<u8>,
    p_form: Option<Seq<u8>>,
    dir_form: Option<Seq<u8>>,
)
    ensures
        p_form matches Some(c) ==> (dir_form matches Some(d) ==> {
            &&& paths::is_subpath(p, dir, p_form, dir_form) <==> path::components(d).is_prefix_of(
                path::components(c),
            )
            &&& paths::resolves_to(p, dir, p_form, dir_form) <==> path::components(c)
                == path::components(d)
        }),
        p_form is Some && dir_form is None ==> {
            &&& paths::is_subpath(p, dir, p_form, dir_form) <==> path::components(
                dir,
            ).is_prefix_of(path::components(p))
            &&& paths::resolves_to(p, dir, p_form, dir_form) <==> path::components(p)
                == path::components(dir)
        },
        p_form is None ==> {
            &&& paths::resolves_to(p, dir, p_form, dir_form) <==> path::place(p) == path::place(dir)
            &&& paths::is_subpath(p, dir, p_form, dir_form) <==> path::place(dir).is_prefix_of(
                path::place(p),
            ) && forall|i: int|
                path::place(dir).len() <= i < path::place(p).len()
                    ==> #[trigger] path::place(p)[i] is Normal
        },
{
}

/// The standard directories are those that the platform has: state goes with the
/// local data where the platform has no place for it. Where it has none at all, the
/// directories stand beside each other. No custom folder is in use to begin with.
pub proof fn law_standard_directories_are_used(
    project: ProjectPathsView,
    root: Seq<u8>,
    found: Layout,
)
    ensures
        Layout::of(Some(project)) matches Some(dirs) && {
            &&& dirs.config == project.config
            &&& dirs.cache == project.cache
            &&& project.state matches Some(state) ==> dirs.state == state
            &&& project.state is None ==> dirs.state == project.data_local
            &&& dirs.custom_media is None
        },
        Layout::of(None) is None,
        Layout::discovered(Some(found), root) == found,
        ({
            let dirs = Layout::discovered(None, root);
            &&& dirs.config == path::join(root, path::text("zapfast-config"))
            &&& dirs.state == path::join(root, path::text("zapfast-state"))
            &&& dirs.cache == path::join(root, path::text("zapfast-cache"))
            &&& dirs.custom_media is None
        }),
        ({
            let dirs = Layout::under(root);
            &&& dirs.config == path::join(root, path::text("config"))
            &&& dirs.state == path::join(root, path::text("state"))
            &&& dirs.cache == path::join(root, path::text("cache"))
            &&& dirs.custom_media is None
        }),
{
}

} // verus!
