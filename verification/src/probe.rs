//! Trusted wrappers around the host environment and the filesystem.
//!
//! Everything the library learns about the outside world comes through these
//! functions. Their answers depend on the host environment and on what is on
//! disk, so none of them promises anything about the values it returns; the
//! verified code states what holds whatever comes back.

use vstd::prelude::*;

verus! {

/// Relies on `app_dirs2::get_data_root(AppDataType::UserConfig)`: the per-user
/// configuration directory, resolved from the host environment. `None` when it
/// cannot be resolved or is not valid Unicode; no claim is made about its value.
#[verifier::external_body]
pub(crate) fn data_root_user_config() -> Option<String> {
    match app_dirs2::get_data_root(app_dirs2::AppDataType::UserConfig) {
        Ok(p) => match p.to_str() {
            Some(s) => Some(s.to_string()),
            None => None,
        },
        Err(_) => None,
    }
}

/// Relies on `app_dirs2::get_data_root(AppDataType::UserData)`: the per-user
/// data directory, resolved from the host environment. `None` when it cannot
/// be resolved or is not valid Unicode; no claim is made about its value.
#[verifier::external_body]
pub(crate) fn data_root_user_data() -> Option<String> {
    match app_dirs2::get_data_root(app_dirs2::AppDataType::UserData) {
        Ok(p) => match p.to_str() {
            Some(s) => Some(s.to_string()),
            None => None,
        },
        Err(_) => None,
    }
}

/// Relies on `std::path::Path::is_dir`: whether `path` names an existing
/// directory on the host filesystem. The answer depends on what is on disk,
/// so no claim is made about it.
#[verifier::external_body]
pub(crate) fn path_is_dir(path: &str) -> bool {
    std::path::Path::new(path).is_dir()
}

/// Relies on `std::path::Path::is_file`: whether `path` names an existing
/// regular file on the host filesystem. The answer depends on what is on
/// disk, so no claim is made about it.
#[verifier::external_body]
pub(crate) fn path_is_file(path: &str) -> bool {
    std::path::Path::new(path).is_file()
}

/// Relies on `std::path::Path::read_dir`: the names of the entries directly
/// under `path`, in the order the filesystem yields them. `None` when the
/// directory cannot be read at all; entries that fail to resolve, or whose
/// names are not valid Unicode, are represented lossily or skipped by the
/// conversion. No claim is made about the listing.
#[verifier::external_body]
pub(crate) fn read_dir_names(path: &str) -> Option<Vec<String>> {
    match std::path::Path::new(path).read_dir() {
        Ok(entries) => {
            let mut names: Vec<String> = Vec::new();
            for entry in entries {
                if let Ok(e) = entry {
                    names.push(e.file_name().to_string_lossy().into_owned());
                }
            }
            Some(names)
        }
        Err(_) => None,
    }
}

} // verus!
