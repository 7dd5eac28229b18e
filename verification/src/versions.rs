//! Choosing the installed game client version among the folders of the
//! client's `Versions` directory.
use vstd::prelude::*;
use crate::text::{chars_of, match_at, starts_with_seq};

verus! {

/// One entry of the client's `Versions` directory.
pub struct VersionFolder {
    /// The entry's name.
    pub name: String,
    /// Whether the entry holds `RobloxPlayerBeta.exe`.
    pub has_player: bool,
    /// The entry's modification time in nanoseconds from the Unix epoch,
    /// negative before it (the epoch itself when it cannot be read).
    pub modified_nanos: i128,
}

/// A folder that may hold the installed client: named `version-...` and
/// holding the player executable.
pub open spec fn is_candidate(f: VersionFolder) -> bool {
    starts_with_seq(f.name@, "version-"@) && f.has_player
}

/// Entry `k` is the one chosen: a candidate modified no earlier than any
/// other candidate and strictly later than every candidate before it.
pub open spec fn is_chosen(fs: Seq<VersionFolder>, k: int) -> bool {
    &&& 0 <= k < fs.len()
    &&& is_candidate(fs[k])
    &&& forall|j: int| 0 <= j < fs.len() && is_candidate(#[trigger] fs[j]) ==> fs[j].modified_nanos <= fs[k].modified_nanos
    &&& forall|j: int| 0 <= j < k && is_candidate(#[trigger] fs[j]) ==> fs[j].modified_nanos < fs[k].modified_nanos
}

fn is_version_folder(f: &VersionFolder) -> (r: bool)
    ensures
        r == is_candidate(*f),
{
    f.has_player && match_at(&chars_of(f.name.as_str()), &chars_of("version-"), 0)
}

/// The installed client version: the name of the most recently modified
/// `version-*` folder that holds the player (the first of equally recent
/// ones), or the error that none does.
pub fn select_roblox_version(folders: &Vec<VersionFolder>) -> (r: Result<String, String>)
    ensures
        r is Ok <==> exists|k: int| 0 <= k < folders@.len() && is_candidate(#[trigger] folders@[k]),
        r matches Ok(v) ==> exists|k: int| is_chosen(folders@, k) && v@ == #[trigger] folders@[k].name@,
        r matches Err(e) ==> e@ == "No Roblox version folder found with RobloxPlayerBeta.exe"@,
{
    let mut best: Option<usize> = None;
    let mut i: usize = 0;
    while i < folders.len()
        invariant
            i <= folders.len(),
            best is None <==> forall|j: int| 0 <= j < i ==> !is_candidate(#[trigger] folders@[j]),
            best matches Some(b) ==> {
                &&& b < i
                &&& is_candidate(folders@[b as int])
                &&& forall|j: int| 0 <= j < i && is_candidate(#[trigger] folders@[j]) ==> folders@[j].modified_nanos <= folders@[b as int].modified_nanos
                &&& forall|j: int| 0 <= j < b && is_candidate(#[trigger] folders@[j]) ==> folders@[j].modified_nanos < folders@[b as int].modified_nanos
            },
        decreases folders.len() - i,
    {
        if is_version_folder(&folders[i]) {
            match best {
                None => {
                    best = Some(i);
                },
                Some(b) => {
                    if folders[i].modified_nanos > folders[b].modified_nanos {
                        best = Some(i);
                    }
                },
            }
        }
        i = i + 1;
    }
    match best {
        Some(b) => {
            assert(is_chosen(folders@, b as int));
            Ok(folders[b].name.clone())
        },
        None => Err("No Roblox version folder found with RobloxPlayerBeta.exe".to_owned()),
    }
}

} // verus!
