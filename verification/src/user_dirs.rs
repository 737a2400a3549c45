//! The well-known directories of the user.
use crate::unix_path::UnixPath;
use vstd::prelude::*;

verus! {

/// Calls `dirs::home_dir`. The answer comes from the environment and the user
/// database: nothing is claimed of it.
#[verifier::external_body]
pub(crate) fn home_dir() -> Option<UnixPath> {
    dirs::home_dir().map(|p| UnixPath { bytes: p.into_os_string().into_encoded_bytes() })
}

/// Calls `dirs::config_dir`. The answer comes from the environment: nothing is
/// claimed of it.
#[verifier::external_body]
pub(crate) fn config_dir() -> Option<UnixPath> {
    dirs::config_dir().map(|p| UnixPath { bytes: p.into_os_string().into_encoded_bytes() })
}

/// Calls `dirs::cache_dir`. The answer comes from the environment: nothing is
/// claimed of it.
#[verifier::external_body]
pub(crate) fn cache_dir() -> Option<UnixPath> {
    dirs::cache_dir().map(|p| UnixPath { bytes: p.into_os_string().into_encoded_bytes() })
}

/// Calls `dirs::data_local_dir`. The answer comes from the environment: nothing
/// is claimed of it.
#[verifier::external_body]
pub(crate) fn data_local_dir() -> Option<UnixPath> {
    dirs::data_local_dir().map(|p| UnixPath { bytes: p.into_os_string().into_encoded_bytes() })
}

/// The user's well-known directories, as far as they are set.
#[derive(Debug)]
pub struct UserDirs {
    pub home: Option<UnixPath>,
    pub desktop: Option<UnixPath>,
    pub documents: Option<UnixPath>,
    pub downloads: Option<UnixPath>,
    pub pictures: Option<UnixPath>,
    pub music: Option<UnixPath>,
    pub videos: Option<UnixPath>,
    pub templates: Option<UnixPath>,
    pub public: Option<UnixPath>,
}

/// The path of a directory that may not be set.
pub open spec fn opt_path(p: Option<UnixPath>) -> Option<Seq<u8>> {
    match p {
        Some(q) => Some(q@),
        None => None,
    }
}

} // verus!
