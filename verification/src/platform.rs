//! What the platform tells: standard directories and random numbers.
//!
//! The functions here hand on what other crates return. What they return
//! depends on the environment or on chance, so little can be said of it.

use vstd::prelude::*;
use crate::file_path::FilePath;
use crate::path;

verus! {

/// The directories that the platform has for an application. Not every platform
/// has one for state.
#[derive(Debug)]
pub struct ProjectPaths {
    pub config: FilePath,
    pub state: Option<FilePath>,
    pub data_local: FilePath,
    pub cache: FilePath,
}

/// The texts of the directories that the platform has for an application.
pub ghost struct ProjectPathsView {
    pub config: Seq<u8>,
    pub state: Option<Seq<u8>>,
    pub data_local: Seq<u8>,
    pub cache: Seq<u8>,
}

impl DeepView for ProjectPaths {
    type V = ProjectPathsView;

    open spec fn deep_view(&self) -> ProjectPathsView {
        ProjectPathsView {
            config: self.config@,
            state: self.state.deep_view(),
            data_local: self.data_local@,
            cache: self.cache@,
        }
    }
}

/// A name that every platform spells alike: lower-case ASCII letters.
pub open spec fn is_app_name(name: Seq<char>) -> bool {
    &&& name.len() > 0
    &&& forall|i: int| 0 <= i < name.len() ==> 'a' <= #[trigger] name[i] <= 'z'
}

/// Whether the text `name` occurs in `p`.
pub open spec fn mentions(p: Seq<u8>, name: Seq<u8>) -> bool {
    exists|i: int|
        0 <= i <= p.len() - name.len() && #[trigger] p.subrange(i, i + name.len()) == name
}

impl ProjectPathsView {
    /// Whether every directory mentions the application.
    pub open spec fn belongs_to(self, name: Seq<u8>) -> bool {
        &&& mentions(self.config, name)
        &&& self.state matches Some(state) ==> mentions(state, name)
        &&& mentions(self.data_local, name)
        &&& mentions(self.cache, name)
    }
}

/// `directories::ProjectDirs::from` with its `config_dir`, `state_dir`,
/// `data_local_dir` and `cache_dir`. The platform is asked for the applications of
/// this organization alone. There may be no home directory to start
/// from. Where there is one, a name of lower-case ASCII letters occurs in the path
/// of each directory; other names are spelled as the platform demands. What else
/// the paths hold comes from the environment and is not stated, nor is what the
/// qualifier and the organization add to them, as some platforms use neither.
#[verifier::external_body]
pub(crate) fn project_dirs(qualifier: &str, organization: &str, name: &str) -> (res: Option<
    ProjectPaths,
>)
    requires
        qualifier@ == "me"@,
        organization@ == "paolino"@,
    ensures
        is_app_name(name@) ==> (res matches Some(paths) ==> paths.deep_view().belongs_to(
            path::text(name),
        )),
{
    let project = directories::ProjectDirs::from(qualifier, organization, name)?;
    let plain = |p: &std::path::Path| FilePath::new(p.as_os_str().as_encoded_bytes().to_vec());
    Some(ProjectPaths {
        config: plain(project.config_dir()),
        state: project.state_dir().map(plain),
        data_local: plain(project.data_local_dir()),
        cache: plain(project.cache_dir()),
    })
}

/// `eframe::storage_dir`. There may be no home directory to start from. Where
/// there is one, a name of lower-case ASCII letters occurs in the path; other
/// names are spelled as the platform demands. What else the path holds comes
/// from the environment and is not stated.
#[verifier::external_body]
pub(crate) fn storage_dir(name: &str) -> (res: Option<FilePath>)
    ensures
        is_app_name(name@) ==> (res matches Some(p) ==> mentions(p@, path::text(name))),
{
    eframe::storage_dir(name).map(|p| FilePath::new(p.into_os_string().into_encoded_bytes()))
}

/// `rand::random`. Any number can come, so nothing is stated of it. The call fails
/// only where the operating system has no random numbers to give.
#[verifier::external_body]
pub(crate) fn random_number() -> u64 {
    rand::random::<u64>()
}

} // verus!
