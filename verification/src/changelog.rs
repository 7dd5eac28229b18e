//! The installer's view of releases: the published changelog, the update
//! report shown to the user, and the game client version reported by the
//! game's settings service.
use vstd::prelude::*;

verus! {

/// Where the changelog is published.
pub const CHANGELOG_URL: &'static str = "https://raw.githubusercontent.com/daniil179828/Changelog/main/changelog.json";

/// The repository archive that an installation unpacks.
pub const REPO_ARCHIVE_URL: &'static str = "https://github.com/daniil179828/QWLEY-SHADE/archive/refs/heads/main.zip";

/// The Git LFS batch endpoint of the repository.
pub const LFS_ENDPOINT: &'static str = "https://github.com/daniil179828/QWLEY-SHADE.git/info/lfs/objects/batch";

/// The name of the installation folder on the desktop.
pub const INSTALL_DIR_NAME: &'static str = "QWLEY SHADE";

/// One release in the changelog, newest first.
pub struct ChangelogEntry {
    pub version: String,
    pub date: String,
    /// The game client version the release targets (empty when not given).
    pub roblox: String,
    pub is_new: bool,
    pub items: Vec<String>,
}

/// What the installer reports when asked for updates.
pub struct UpdateInfo {
    pub local: String,
    pub remote: String,
    pub needs_update: bool,
    pub installed: bool,
}

/// The update report for an installer of version `local`: the newest release
/// is the first changelog entry, and an update is always offered; an empty
/// changelog is an error.
pub fn check_update_info(local: String, changelog: &Vec<ChangelogEntry>, installed: bool) -> (r: Result<UpdateInfo, String>)
    ensures
        changelog@.len() == 0 ==> (r matches Err(e) && e@ == "changelog is empty"@),
        changelog@.len() > 0 ==> (r matches Ok(u) && u.local == local && u.remote@ == changelog@[0].version@ && u.needs_update && u.installed == installed),
{
    if changelog.len() == 0 {
        return Err("changelog is empty".to_owned());
    }
    Ok(UpdateInfo { needs_update: true, installed, local, remote: changelog[0].version.clone() })
}

/// The game client version as the settings service reports it.
pub struct RobloxVersion {
    pub version: String,
    pub client_version_upload: String,
}

/// The reported client version from the service's `version` and
/// `clientVersionUpload` fields: the first is required, the second defaults
/// to empty.
pub fn roblox_version_info(version: Option<String>, upload: Option<String>) -> (r: Result<RobloxVersion, String>)
    ensures
        version is None ==> (r matches Err(e) && e@ == "missing version"@),
        version matches Some(v) ==> (r matches Ok(rv) && rv.version == v && match upload {
            Some(u) => rv.client_version_upload == u,
            None => rv.client_version_upload@ == Seq::<char>::empty(),
        }),
{
    match version {
        None => Err("missing version".to_owned()),
        Some(v) => {
            let u = match upload {
                Some(u) => u,
                None => String::new(),
            };
            Ok(RobloxVersion { version: v, client_version_upload: u })
        },
    }
}

} // verus!
