//! Where ZapFast keeps its files, and how its attachment folder moves.

pub mod adopt;
pub mod adopt_laws;
pub mod again_laws;
pub mod canonical_laws;
pub mod change_laws;
pub mod copying;
pub mod disk;
pub mod ensure;
pub mod file_path;
pub mod io;
pub mod layout_laws;
pub mod locate;
pub mod media_storage;
pub mod path;
pub mod path_laws;
pub mod paths;
pub mod platform;
pub mod publish;
pub mod relocations;
pub mod resolve;
pub mod save;
pub mod store;
pub mod store_laws;
pub mod takeover_laws;
pub mod validate;
pub mod worker;
