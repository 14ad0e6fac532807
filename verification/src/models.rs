//! Catalog records and the lifecycle status of a library root.

use vstd::prelude::*;
use crate::text::{owned, str_eq};

verus! {

/// Lifecycle status of a library root.
#[derive(Debug, Clone, Copy, PartialEq, Eq, Structural)]
pub enum RootStatus {
    New,
    Active,
    Missing,
    Unresolved,
    Disabled,
}

/// The text stored in the database for each status.
pub open spec fn status_text(s: RootStatus) -> Seq<char> {
    match s {
        RootStatus::New => "new"@,
        RootStatus::Active => "active"@,
        RootStatus::Missing => "missing"@,
        RootStatus::Unresolved => "unresolved"@,
        RootStatus::Disabled => "disabled"@,
    }
}

/// The status that a stored text denotes; any unknown text denotes `New`.
pub open spec fn status_of_text(t: Seq<char>) -> RootStatus {
    if t == "new"@ {
        RootStatus::New
    } else if t == "active"@ {
        RootStatus::Active
    } else if t == "missing"@ {
        RootStatus::Missing
    } else if t == "unresolved"@ {
        RootStatus::Unresolved
    } else if t == "disabled"@ {
        RootStatus::Disabled
    } else {
        RootStatus::New
    }
}

impl From<String> for RootStatus {
    fn from(s: String) -> (res: RootStatus) {
        RootStatus::parse(s.as_str())
    }
}

impl vstd::std_specs::convert::FromSpecImpl<String> for RootStatus {
    open spec fn obeys_from_spec() -> bool {
        true
    }

    open spec fn from_spec(v: String) -> RootStatus {
        status_of_text(v@)
    }
}

impl RootStatus {
    /// Reads a stored status text; unknown texts read as `New`.
    pub fn parse(s: &str) -> (res: RootStatus)
        ensures
            res == status_of_text(s@),
    {
        if str_eq(s, "new") {
            RootStatus::New
        } else if str_eq(s, "active") {
            RootStatus::Active
        } else if str_eq(s, "missing") {
            RootStatus::Missing
        } else if str_eq(s, "unresolved") {
            RootStatus::Unresolved
        } else if str_eq(s, "disabled") {
            RootStatus::Disabled
        } else {
            RootStatus::New
        }
    }

    /// The text under which the status is stored.
    pub fn to_string(&self) -> (res: String)
        ensures
            res@ == status_text(*self),
    {
        match self {
            RootStatus::New => owned("new"),
            RootStatus::Active => owned("active"),
            RootStatus::Missing => owned("missing"),
            RootStatus::Unresolved => owned("unresolved"),
            RootStatus::Disabled => owned("disabled"),
        }
    }
}

/// Reading back the stored text of a status gives the same status.
pub proof fn lemma_status_text_roundtrip(s: RootStatus)
    ensures
        status_of_text(status_text(s)) == s,
{
    reveal_strlit("new");
    reveal_strlit("active");
    reveal_strlit("missing");
    reveal_strlit("unresolved");
    reveal_strlit("disabled");
    assert("new"@.len() == 3);
    assert("active"@.len() == 6);
    assert("missing"@.len() == 7);
    assert("unresolved"@.len() == 10);
    assert("disabled"@.len() == 8);
}

} // verus!

verus! {

/// A folder registered as part of the catalog, possibly on removable storage.
#[derive(Debug, Clone)]
pub struct LibraryRoot {
    pub id: String,
    pub label: String,
    pub selected_path: String,
    pub normalized_selected_path: String,
    pub os_type: String,
    pub volume_uuid: Option<String>,
    pub volume_serial: Option<String>,
    pub volume_label: Option<String>,
    pub last_known_mount_path: Option<String>,
    pub root_status: String,
    pub last_seen_at: Option<String>,
    pub created_at: String,
    pub updated_at: String,
}

/// A set of media items that hold the same content, with one watch state.
#[derive(Debug, Clone)]
pub struct MediaGroup {
    pub id: String,
    pub merged_watch_status: String,
    pub preferred_instance_id: Option<String>,
    pub created_at: String,
    pub updated_at: String,
}

/// The content fingerprint recorded for one media item.
#[derive(Debug, Clone)]
pub struct MediaFingerprint {
    pub id: String,
    pub media_item_id: String,
    pub fingerprint_hash: String,
    pub fingerprint_algo: String,
    pub fingerprint_mode: String,
    pub sample_chunk_bytes: i64,
    pub sample_count: i64,
    pub size_bytes: i64,
    pub mtime_utc: Option<String>,
    pub created_at: String,
}

impl LibraryRoot {
    /// The status denoted by the stored status text.
    pub fn get_status(&self) -> (res: RootStatus)
        ensures
            res == status_of_text(self.root_status@),
    {
        RootStatus::parse(self.root_status.as_str())
    }
}

} // verus!
