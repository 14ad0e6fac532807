//! Decisions about cataloged media: playing, merging duplicates, the
//! absolute location of an item, and the records of added or rebound roots.

use vstd::prelude::*;
use crate::models::{status_text, LibraryRoot, RootStatus};
use crate::paths::push_text;
use crate::text::{forward_slashes, normalize_separators, opt_view, owned, str_eq};

verus! {

/// The watch status an item takes when it is played, and whether its group
/// takes it too: an unwatched item becomes in progress, any other status stays.
pub open spec fn watch_after_play(current: Seq<char>) -> (Seq<char>, bool) {
    if current == "unwatched"@ {
        ("in_progress"@, true)
    } else {
        (current, false)
    }
}

/// The watch status after playing an item, and whether the item's group
/// must be set to it as well.
pub fn watch_status_after_play(current: &str) -> (res: (String, bool))
    ensures
        (res.0@, res.1) == watch_after_play(current@),
{
    if str_eq(current, "unwatched") {
        (owned("in_progress"), true)
    } else {
        (owned(current), false)
    }
}

/// `ids` without the occurrences of `x`, in order.
pub open spec fn without(ids: Seq<Seq<char>>, x: Seq<char>) -> Seq<Seq<char>>
    decreases ids.len(),
{
    if ids.len() == 0 {
        seq![]
    } else {
        let prev = without(ids.drop_last(), x);
        if ids.last() == x {
            prev
        } else {
            prev.push(ids.last())
        }
    }
}

pub open spec fn strings_view(v: Seq<String>) -> Seq<Seq<char>> {
    v.map_values(|s: String| s@)
}

/// The items a merge removes: `None` when nothing was discarded (the merge
/// does nothing at all), else the discarded ids other than the preferred one,
/// in the order given.
pub fn merge_targets(preferred_id: &str, discarded: &Vec<String>) -> (res: Option<Vec<String>>)
    ensures
        discarded@.len() == 0 <==> res is None,
        res matches Some(v) ==> strings_view(v@) == without(strings_view(discarded@), preferred_id@),
{
    if discarded.len() == 0 {
        return None;
    }
    let ghost dv = strings_view(discarded@);
    let mut out: Vec<String> = Vec::new();
    let mut i: usize = 0;
    while i < discarded.len()
        invariant
            dv == strings_view(discarded@),
            i <= discarded.len(),
            strings_view(out@) == without(dv.take(i as int), preferred_id@),
        decreases discarded.len() - i,
    {
        let ghost before = out@;
        if !str_eq(discarded[i].as_str(), preferred_id) {
            out.push(owned(discarded[i].as_str()));
        }
        proof {
            let t = dv.take(i + 1);
            assert(t.drop_last() =~= dv.take(i as int));
            assert(t.last() == discarded@[i as int]@);
            assert(strings_view(out@) =~= without(t, preferred_id@));
        }
        i += 1;
    }
    assert(dv.take(discarded.len() as int) =~= dv);
    Some(out)
}

/// A merge never removes the preferred item, and removes every other
/// discarded one.
pub proof fn law_merge_keeps_preferred(ids: Seq<Seq<char>>, preferred: Seq<char>)
    ensures
        !without(ids, preferred).contains(preferred),
        forall|i: int| 0 <= i < ids.len() && ids[i] != preferred ==> without(ids, preferred).contains(
            #[trigger] ids[i],
        ),
    decreases ids.len(),
{
    if ids.len() > 0 {
        law_merge_keeps_preferred(ids.drop_last(), preferred);
        let prev = without(ids.drop_last(), preferred);
        assert forall|i: int| 0 <= i < ids.len() && ids[i] != preferred implies without(
            ids,
            preferred,
        ).contains(#[trigger] ids[i]) by {
            if i < ids.len() - 1 {
                assert(ids.drop_last()[i] == ids[i]);
                let j = choose|j: int| 0 <= j < prev.len() && prev[j] == ids[i];
                assert(without(ids, preferred)[j] == ids[i]);
            } else {
                assert(without(ids, preferred).last() == ids[i]);
            }
        }
        if without(ids, preferred).contains(preferred) {
            let j = choose|j: int| 0 <= j < without(ids, preferred).len() && without(ids, preferred)[j] == preferred;
            if j < prev.len() {
                assert(prev[j] == preferred);
            }
        }
    }
}

/// The location of an item: its relative path joined to its root's folder.
pub open spec fn item_location(root_path: Seq<char>, relative_path: Seq<char>) -> Seq<char> {
    push_text(root_path, relative_path)
}

/// The location of an item (see `item_location`).
pub fn item_path(root_path: &str, relative_path: &str) -> (res: String)
    ensures
        res@ == item_location(root_path@, relative_path@),
{
    crate::paths::join_path(root_path, relative_path)
}

} // verus!

verus! {

/// The record of a root just added at `path`: status `new`, the mount point
/// of `path` (or `path` itself when it is unknown) as last known mount path.
pub fn new_library_root(
    id: String,
    label: String,
    path: &str,
    os_type: String,
    volume_uuid: Option<String>,
    mount_point: Option<String>,
    now: String,
) -> (res: LibraryRoot)
    ensures
        res.id == id,
        res.label == label,
        res.selected_path@ == path@,
        res.normalized_selected_path@ == forward_slashes(path@),
        res.os_type == os_type,
        res.volume_uuid == volume_uuid,
        res.volume_serial is None,
        res.volume_label is None,
        opt_view(res.last_known_mount_path) == Some(
            match mount_point {
                Some(m) => m@,
                None => path@,
            },
        ),
        res.root_status@ == status_text(RootStatus::New),
        res.last_seen_at is None,
        res.created_at == now,
        res.updated_at == now,
{
    let mount = match mount_point {
        Some(m) => m,
        None => owned(path),
    };
    let created = now.clone();
    LibraryRoot {
        id,
        label,
        selected_path: owned(path),
        normalized_selected_path: normalize_separators(path),
        os_type,
        volume_uuid,
        volume_serial: None,
        volume_label: None,
        last_known_mount_path: Some(mount),
        root_status: RootStatus::New.to_string(),
        last_seen_at: None,
        created_at: created,
        updated_at: now,
    }
}

/// The values stored when a root is rebound to a new folder.
#[derive(Debug)]
pub struct RootRebinding {
    pub selected_path: String,
    pub normalized_selected_path: String,
    /// The new volume UUID; `None` keeps the stored one.
    pub volume_uuid: Option<String>,
    pub last_known_mount_path: String,
}

/// What rebinding a root to `new_path` stores: the path, its normalized
/// form, the volume UUID if one was found, and the mount point of the new
/// path (or the path itself when it is unknown).
pub fn rebinding(new_path: &str, volume_uuid: Option<String>, mount_point: Option<String>) -> (res: RootRebinding)
    ensures
        res.selected_path@ == new_path@,
        res.normalized_selected_path@ == forward_slashes(new_path@),
        res.volume_uuid == volume_uuid,
        res.last_known_mount_path@ == match mount_point {
            Some(m) => m@,
            None => new_path@,
        },
{
    let mount = match mount_point {
        Some(m) => m,
        None => owned(new_path),
    };
    RootRebinding {
        selected_path: owned(new_path),
        normalized_selected_path: normalize_separators(new_path),
        volume_uuid,
        last_known_mount_path: mount,
    }
}

/// The volume UUID a root holds after a rebinding: the new one if found,
/// else the one it had.
pub open spec fn uuid_after_rebinding(stored: Option<Seq<char>>, found: Option<Seq<char>>) -> Option<Seq<char>> {
    match found {
        Some(u) => Some(u),
        None => stored,
    }
}

impl LibraryRoot {
    /// Applies a rebinding to the record, at time `now`: the status becomes
    /// `active`.
    pub fn rebind(&mut self, r: RootRebinding, now: String)
        ensures
            final(self).selected_path == r.selected_path,
            final(self).normalized_selected_path == r.normalized_selected_path,
            opt_view(final(self).volume_uuid) == uuid_after_rebinding(
                opt_view(old(self).volume_uuid),
                opt_view(r.volume_uuid),
            ),
            opt_view(final(self).last_known_mount_path) == Some(r.last_known_mount_path@),
            final(self).root_status@ == status_text(RootStatus::Active),
            final(self).updated_at == now,
            final(self).id == old(self).id,
            final(self).label == old(self).label,
            final(self).os_type == old(self).os_type,
            final(self).volume_serial == old(self).volume_serial,
            final(self).volume_label == old(self).volume_label,
            final(self).last_seen_at == old(self).last_seen_at,
            final(self).created_at == old(self).created_at,
    {
        self.selected_path = r.selected_path;
        self.normalized_selected_path = r.normalized_selected_path;
        if r.volume_uuid.is_some() {
            self.volume_uuid = r.volume_uuid;
        }
        self.last_known_mount_path = Some(r.last_known_mount_path);
        self.root_status = RootStatus::Active.to_string();
        self.updated_at = now;
    }
}

} // verus!
