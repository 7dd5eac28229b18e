//! Synchronising the installed files with the repository tree: which remote
//! entries are files to keep, where each is downloaded from, which local
//! files must be fetched, and which recorded files are gone.
use vstd::prelude::*;
use vstd::utf8::encode_utf8;
use crate::paths::{encode_path, is_lfs_path, is_safe_path, lfs, path_encode_bytes, safe_path};

verus! {

/// The repository tree listing.
pub const TREE_API: &'static str = "https://api.github.com/repos/daniil179828/QWLEY-SHADE/git/trees/main?recursive=1";

/// Where plain files are downloaded from.
pub const RAW_ROOT: &'static str = "https://raw.githubusercontent.com/daniil179828/QWLEY-SHADE/main/";

/// Where Git LFS files are downloaded from.
pub const MEDIA_ROOT: &'static str = "https://media.githubusercontent.com/media/daniil179828/QWLEY-SHADE/main/";

/// One entry of the repository tree.
pub struct TreeItem {
    pub path: String,
    /// `blob` for a file, `tree` for a folder.
    pub item_type: String,
    pub sha: String,
}

impl TreeItem {
    pub fn duplicate(&self) -> (r: TreeItem)
        ensures
            r == *self,
    {
        TreeItem { path: self.path.clone(), item_type: self.item_type.clone(), sha: self.sha.clone() }
    }
}

/// A tree entry that is synchronised: a file with a safe path.
pub open spec fn is_synced(item: TreeItem) -> bool {
    item.item_type@ == "blob"@ && is_safe_path(item.path@)
}

/// The synchronised entries of `items`, in order.
pub open spec fn synced_items(items: Seq<TreeItem>) -> Seq<TreeItem>
    decreases items.len(),
{
    if items.len() == 0 {
        seq![]
    } else {
        let rest = synced_items(items.drop_last());
        if is_synced(items.last()) {
            rest.push(items.last())
        } else {
            rest
        }
    }
}

/// The entries of the repository tree that are synchronised: files whose
/// paths are safe, in the order of the tree.
pub fn select_remote_files(items: &Vec<TreeItem>) -> (r: Vec<TreeItem>)
    ensures
        r@ == synced_items(items@),
{
    let mut r: Vec<TreeItem> = Vec::new();
    let mut i: usize = 0;
    while i < items.len()
        invariant
            i <= items.len(),
            r@ == synced_items(items@.take(i as int)),
        decreases items.len() - i,
    {
        let item = &items[i];
        let ghost t = items@.take(i + 1);
        assert(t.drop_last() =~= items@.take(i as int));
        assert(t.last() == items@[i as int]);
        if item.item_type == "blob".to_owned() && safe_path(item.path.as_str()) {
            r.push(item.duplicate());
        }
        i = i + 1;
    }
    assert(items@.take(items@.len() as int) =~= items@);
    r
}

/// The download address of the file at `path`.
pub open spec fn download_url_of(path: Seq<char>) -> Seq<char> {
    (if is_lfs_path(path) {
        MEDIA_ROOT@
    } else {
        RAW_ROOT@
    }) + path_encode_bytes(encode_utf8(path))
}

/// The download address of the file at `path`: LFS files from the media
/// host, others from the raw host, the path percent-encoded with its `/`
/// kept.
pub fn download_url(path: &str) -> (r: String)
    ensures
        r@ == download_url_of(path@),
{
    let mut r = if lfs(path) {
        MEDIA_ROOT.to_owned()
    } else {
        RAW_ROOT.to_owned()
    };
    let enc = encode_path(path);
    r.append(enc.as_str());
    r
}

/// What synchronising does with one remote file.
pub enum FileAction {
    /// The recorded hash matches and the file exists: nothing to do.
    UpToDate,
    /// The file is the running launcher itself: it is skipped, not fetched,
    /// and counted as changed.
    Running,
    /// Download the file from this address.
    Download(String),
}

/// A file needs nothing when the hash recorded for it is its current hash
/// and it exists.
pub open spec fn up_to_date(recorded_sha: Option<Seq<char>>, sha: Seq<char>, exists: bool) -> bool {
    recorded_sha == Some(sha) && exists
}

/// The text of an optional recorded hash.
pub open spec fn sha_view(recorded_sha: Option<&String>) -> Option<Seq<char>> {
    match recorded_sha {
        Some(s) => Some(s@),
        None => None,
    }
}

/// Decides what synchronising does with the remote file `item`, given the
/// hash recorded for its path at the last update, whether the file exists,
/// and whether it is the running launcher.
pub fn plan_file(item: &TreeItem, recorded_sha: Option<&String>, exists: bool, is_running_exe: bool) -> (r: FileAction)
    ensures
        up_to_date(sha_view(recorded_sha), item.sha@, exists) ==> r is UpToDate,
        !up_to_date(sha_view(recorded_sha), item.sha@, exists) && is_running_exe ==> r is Running,
        !up_to_date(sha_view(recorded_sha), item.sha@, exists) && !is_running_exe ==> (r matches FileAction::Download(u) && u@ == download_url_of(item.path@)),
{
    let same = match recorded_sha {
        Some(s) => *s == item.sha,
        None => false,
    };
    if same && exists {
        FileAction::UpToDate
    } else if is_running_exe {
        FileAction::Running
    } else {
        FileAction::Download(download_url(item.path.as_str()))
    }
}

/// Whether some remote item has the path `p`.
pub open spec fn in_remote(remote: Seq<TreeItem>, p: Seq<char>) -> bool {
    exists|i: int| 0 <= i < remote.len() && (#[trigger] remote[i]).path@ == p
}

/// The recorded paths, in order, that are no longer in the tree and are safe
/// to delete.
pub open spec fn stale_of(recorded: Seq<String>, remote: Seq<TreeItem>) -> Seq<String>
    decreases recorded.len(),
{
    if recorded.len() == 0 {
        seq![]
    } else {
        let rest = stale_of(recorded.drop_last(), remote);
        let p = recorded.last();
        if !in_remote(remote, p@) && is_safe_path(p@) {
            rest.push(p)
        } else {
            rest
        }
    }
}

fn has_path(remote: &Vec<TreeItem>, p: &String) -> (r: bool)
    ensures
        r == in_remote(remote@, p@),
{
    let mut i: usize = 0;
    while i < remote.len()
        invariant
            i <= remote.len(),
            forall|j: int| 0 <= j < i ==> (#[trigger] remote@[j]).path@ != p@,
        decreases remote.len() - i,
    {
        if remote[i].path == *p {
            return true;
        }
        i = i + 1;
    }
    false
}

/// The files recorded at the last update that the tree no longer holds and
/// whose paths are safe: these are deleted.
pub fn stale_paths(recorded: &Vec<String>, remote: &Vec<TreeItem>) -> (r: Vec<String>)
    ensures
        r@ == stale_of(recorded@, remote@),
{
    let mut r: Vec<String> = Vec::new();
    let mut i: usize = 0;
    while i < recorded.len()
        invariant
            i <= recorded.len(),
            r@ == stale_of(recorded@.take(i as int), remote@),
        decreases recorded.len() - i,
    {
        let ghost t = recorded@.take(i + 1);
        assert(t.drop_last() =~= recorded@.take(i as int));
        assert(t.last() == recorded@[i as int]);
        let p = &recorded[i];
        if !has_path(remote, p) && safe_path(p.as_str()) {
            r.push(p.clone());
        }
        i = i + 1;
    }
    assert(recorded@.take(recorded@.len() as int) =~= recorded@);
    r
}

/// Nothing that synchronising deletes is still in the tree, and everything
/// it deletes is a safe path that was recorded.
pub proof fn stale_paths_are_gone(recorded: Seq<String>, remote: Seq<TreeItem>)
    ensures
        forall|k: int| 0 <= k < stale_of(recorded, remote).len() ==> {
            let p = #[trigger] stale_of(recorded, remote)[k];
            &&& !in_remote(remote, p@)
            &&& is_safe_path(p@)
            &&& exists|j: int| 0 <= j < recorded.len() && recorded[j] == p
        },
    decreases recorded.len(),
{
    if recorded.len() > 0 {
        stale_paths_are_gone(recorded.drop_last(), remote);
        let rest = stale_of(recorded.drop_last(), remote);
        let s = stale_of(recorded, remote);
        assert forall|k: int| 0 <= k < s.len() implies {
            let p = #[trigger] s[k];
            &&& !in_remote(remote, p@)
            &&& is_safe_path(p@)
            &&& exists|j: int| 0 <= j < recorded.len() && recorded[j] == p
        } by {
            if k < rest.len() {
                assert(s[k] == rest[k]);
                let j = choose|j: int| 0 <= j < recorded.drop_last().len() && recorded.drop_last()[j] == rest[k];
                assert(recorded[j] == rest[k]);
            } else {
                assert(s[k] == recorded.last());
                assert(recorded[recorded.len() - 1] == s[k]);
            }
        }
    }
}

/// Every recorded path that no remote entry has and that is safe is
/// deleted: it occurs among the stale paths.
pub proof fn stale_paths_complete(recorded: Seq<String>, remote: Seq<TreeItem>)
    ensures
        forall|j: int|
            0 <= j < recorded.len() && !in_remote(remote, recorded[j]@) && is_safe_path(recorded[j]@)
                ==> exists|k: int| 0 <= k < stale_of(recorded, remote).len() && stale_of(recorded, remote)[k] == #[trigger] recorded[j],
    decreases recorded.len(),
{
    if recorded.len() > 0 {
        let prev = recorded.drop_last();
        stale_paths_complete(prev, remote);
        let rest = stale_of(prev, remote);
        let s = stale_of(recorded, remote);
        assert forall|j: int|
            0 <= j < recorded.len() && !in_remote(remote, recorded[j]@) && is_safe_path(recorded[j]@)
            implies exists|k: int| 0 <= k < s.len() && s[k] == #[trigger] recorded[j] by {
            if j < prev.len() {
                assert(prev[j] == recorded[j]);
                let k = choose|k: int| 0 <= k < rest.len() && rest[k] == #[trigger] prev[j];
                assert(s[k] == rest[k]);
            } else {
                assert(recorded[j] == recorded.last());
                assert(s[rest.len() as int] == recorded[j]);
            }
        }
    }
}

/// Every file of the tree whose path is safe is synchronised: it occurs
/// among the selected entries.
pub proof fn synced_items_complete(items: Seq<TreeItem>)
    ensures
        forall|i: int|
            0 <= i < items.len() && items[i].item_type@ == "blob"@ && is_safe_path(items[i].path@)
                ==> exists|j: int| 0 <= j < synced_items(items).len() && synced_items(items)[j] == #[trigger] items[i],
    decreases items.len(),
{
    if items.len() > 0 {
        let prev = items.drop_last();
        synced_items_complete(prev);
        let rest = synced_items(prev);
        let s = synced_items(items);
        assert forall|i: int|
            0 <= i < items.len() && items[i].item_type@ == "blob"@ && is_safe_path(items[i].path@)
            implies exists|j: int| 0 <= j < s.len() && s[j] == #[trigger] items[i] by {
            if i < prev.len() {
                assert(prev[i] == items[i]);
                let j = choose|j: int| 0 <= j < rest.len() && rest[j] == #[trigger] prev[i];
                assert(s[j] == rest[j]);
            } else {
                assert(items[i] == items.last());
                assert(s[rest.len() as int] == items[i]);
            }
        }
    }
}

/// The selection is the tree filtered, in order, down to the files whose
/// paths are safe: nothing is added, dropped, repeated or reordered.
pub proof fn synced_items_filter_the_tree(items: Seq<TreeItem>)
    ensures
        synced_items(items) == items.filter(|t: TreeItem| t.item_type@ == "blob"@ && is_safe_path(t.path@)),
    decreases items.len(),
{
    reveal(Seq::filter);
    if items.len() > 0 {
        synced_items_filter_the_tree(items.drop_last());
    }
}

/// The deletions are the recorded paths filtered, in order, down to those
/// that no remote entry has and that are safe.
pub proof fn stale_paths_filter_the_record(recorded: Seq<String>, remote: Seq<TreeItem>)
    ensures
        stale_of(recorded, remote) == recorded.filter(
            |p: String| (forall|i: int| 0 <= i < remote.len() ==> (#[trigger] remote[i]).path@ != p@) && is_safe_path(p@),
        ),
    decreases recorded.len(),
{
    reveal(Seq::filter);
    if recorded.len() > 0 {
        stale_paths_filter_the_record(recorded.drop_last(), remote);
    }
}

/// Every file that synchronising keeps is a file with a safe path.
pub proof fn synced_items_are_safe(items: Seq<TreeItem>)
    ensures
        forall|k: int| 0 <= k < synced_items(items).len() ==> is_synced(#[trigger] synced_items(items)[k]),
    decreases items.len(),
{
    if items.len() > 0 {
        synced_items_are_safe(items.drop_last());
        let rest = synced_items(items.drop_last());
        let s = synced_items(items);
        assert forall|k: int| 0 <= k < s.len() implies is_synced(#[trigger] s[k]) by {
            if k < rest.len() {
                assert(s[k] == rest[k]);
            }
        }
    }
}

/// The count of changed files after one remote file is handled: every
/// action but `UpToDate` counts (the count stops at `u32::MAX`).
pub fn count_change(changed: u32, action: &FileAction) -> (r: u32)
    ensures
        action is UpToDate ==> r == changed,
        !(action is UpToDate) ==> r == (if changed < u32::MAX {
            (changed + 1) as u32
        } else {
            changed
        }),
{
    match action {
        FileAction::UpToDate => changed,
        _ => if changed < u32::MAX {
            changed + 1
        } else {
            changed
        },
    }
}

/// Handling one stale path: it is removed when it exists and is not the
/// running launcher, and a removal counts as a change (the count stops at
/// `u32::MAX`). Returns whether to remove it and the new count.
pub fn stale_step(changed: u32, is_running_exe: bool, exists: bool) -> (r: (bool, u32))
    ensures
        r.0 == (!is_running_exe && exists),
        r.0 ==> r.1 == (if changed < u32::MAX {
            (changed + 1) as u32
        } else {
            changed
        }),
        !r.0 ==> r.1 == changed,
{
    if !is_running_exe && exists {
        (true, if changed < u32::MAX {
            changed + 1
        } else {
            changed
        })
    } else {
        (false, changed)
    }
}

/// Synchronising twice in a row changes nothing the second time: when the
/// recorded hashes are those of the synchronised files (as the first run
/// records them), every such file exists and none is the running launcher,
/// then every file is up to date and no recorded path is stale, so nothing
/// is fetched, nothing is deleted and the count of changes stays zero.
pub proof fn second_sync_changes_nothing(
    remote: Seq<TreeItem>,
    recorded: Seq<String>,
    shas: Map<Seq<char>, Seq<char>>,
)
    requires
        forall|k: int| 0 <= k < remote.len() ==> #[trigger] shas.dom().contains(remote[k].path@) && shas[remote[k].path@] == remote[k].sha@,
        forall|j: int| 0 <= j < recorded.len() ==> in_remote(remote, #[trigger] recorded[j]@),
    ensures
        forall|k: int| 0 <= k < remote.len() ==> up_to_date(Some(shas[(#[trigger] remote[k]).path@]), remote[k].sha@, true),
        stale_of(recorded, remote).len() == 0,
    decreases recorded.len(),
{
    if recorded.len() > 0 {
        let rest = recorded.drop_last();
        assert forall|j: int| 0 <= j < rest.len() implies in_remote(remote, #[trigger] rest[j]@) by {
            assert(rest[j] == recorded[j]);
        }
        second_sync_changes_nothing(remote, rest, shas);
        assert(in_remote(remote, recorded[recorded.len() - 1]@));
    }
    assert forall|k: int| 0 <= k < remote.len() implies up_to_date(Some(shas[(#[trigger] remote[k]).path@]), remote[k].sha@, true) by {
        assert(shas.dom().contains(remote[k].path@));
    }
}

/// The message that ends an update: whether any file changed.
pub fn update_summary(changed: u32) -> (r: String)
    ensures
        changed == 0 ==> r@ == "[OK] QWLEY SHADE is up to date."@,
        changed != 0 ==> r@ == "[OK] QWLEY SHADE files are ready."@,
{
    if changed == 0 {
        "[OK] QWLEY SHADE is up to date.".to_owned()
    } else {
        "[OK] QWLEY SHADE files are ready.".to_owned()
    }
}

} // verus!
