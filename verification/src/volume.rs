//! Volume identification from `findmnt` output, and the resolution and
//! relocation ("auto-healing") of library roots.

use vstd::prelude::*;
use crate::models::LibraryRoot;
use crate::text::{
    chars_of, fields, forward_slashes, lines_of, normalize_separators, owned, split_fields, split_lines,
    copy_opt, opt_view, str_eq, string_of, trim, trimmed, CharClass,
};

verus! {

/// Failures while identifying volumes or resolving a library root.
#[derive(Debug, Clone, PartialEq, Eq)]
pub enum VolumeError {
    /// `findmnt` exited unsuccessfully; holds its standard error text.
    FindmntFailed(String),
    EmptyUuid,
    EmptyMountPoint,
    UnsupportedOs,
    RootNotFound,
    /// The root is offline; holds its label.
    RootOffline(String),
}

/// What a `VolumeError` holds, as plain values.
pub enum VolumeErrorView {
    FindmntFailed(Seq<char>),
    EmptyUuid,
    EmptyMountPoint,
    UnsupportedOs,
    RootNotFound,
    RootOffline(Seq<char>),
}

impl View for VolumeError {
    type V = VolumeErrorView;

    open spec fn view(&self) -> VolumeErrorView {
        match self {
            VolumeError::FindmntFailed(s) => VolumeErrorView::FindmntFailed(s@),
            VolumeError::EmptyUuid => VolumeErrorView::EmptyUuid,
            VolumeError::EmptyMountPoint => VolumeErrorView::EmptyMountPoint,
            VolumeError::UnsupportedOs => VolumeErrorView::UnsupportedOs,
            VolumeError::RootNotFound => VolumeErrorView::RootNotFound,
            VolumeError::RootOffline(s) => VolumeErrorView::RootOffline(s@),
        }
    }
}

/// The user-facing text of each error.
pub open spec fn error_message(e: VolumeErrorView) -> Seq<char> {
    match e {
        VolumeErrorView::FindmntFailed(s) => "findmnt failed: "@ + s,
        VolumeErrorView::EmptyUuid => "findmnt returned empty UUID"@,
        VolumeErrorView::EmptyMountPoint => "findmnt returned empty mount point"@,
        VolumeErrorView::UnsupportedOs => "Unsupported operating system for volume UUID detection"@,
        VolumeErrorView::RootNotFound => "Library root not found"@,
        VolumeErrorView::RootOffline(label) => "Library root '"@ + label
            + "' is offline (path not found)"@,
    }
}

impl VolumeError {
    /// The user-facing text of the error.
    pub fn message(&self) -> (res: String)
        ensures
            res@ == error_message(self@),
    {
        match self {
            VolumeError::FindmntFailed(s) => {
                let mut m = owned("findmnt failed: ");
                m.append(s.as_str());
                m
            },
            VolumeError::EmptyUuid => owned("findmnt returned empty UUID"),
            VolumeError::EmptyMountPoint => owned("findmnt returned empty mount point"),
            VolumeError::UnsupportedOs => owned(
                "Unsupported operating system for volume UUID detection",
            ),
            VolumeError::RootNotFound => owned("Library root not found"),
            VolumeError::RootOffline(label) => {
                let mut m = owned("Library root '");
                m.append(label.as_str());
                m.append("' is offline (path not found)");
                m
            },
        }
    }
}

/// The outcome of a single-value `findmnt` query (`-n -o <FIELD> -T <path>`).
pub open spec fn findmnt_value_outcome(
    success: bool,
    stdout: Seq<char>,
    stderr: Seq<char>,
    empty: VolumeErrorView,
) -> Result<Seq<char>, VolumeErrorView> {
    if !success {
        Err(VolumeErrorView::FindmntFailed(stderr))
    } else if trimmed(stdout).len() == 0 {
        Err(empty)
    } else {
        Ok(trimmed(stdout))
    }
}

pub open spec fn result_view(r: Result<String, VolumeError>) -> Result<Seq<char>, VolumeErrorView> {
    match r {
        Ok(s) => Ok(s@),
        Err(e) => Err(e@),
    }
}

fn findmnt_value(success: bool, stdout: &str, stderr: &str, empty: VolumeError) -> (res: Result<
    String,
    VolumeError,
>)
    ensures
        result_view(res) == findmnt_value_outcome(success, stdout@, stderr@, empty@),
{
    if !success {
        return Err(VolumeError::FindmntFailed(owned(stderr)));
    }
    let value = trim(stdout);
    if value.as_str().is_empty() {
        Err(empty)
    } else {
        Ok(value)
    }
}

/// The volume UUID from the output of `findmnt -n -o UUID -T <path>`:
/// the trimmed standard output, which must not be empty.
pub fn volume_uuid_from_findmnt(success: bool, stdout: &str, stderr: &str) -> (res: Result<
    String,
    VolumeError,
>)
    ensures
        result_view(res) == findmnt_value_outcome(
            success,
            stdout@,
            stderr@,
            VolumeErrorView::EmptyUuid,
        ),
{
    findmnt_value(success, stdout, stderr, VolumeError::EmptyUuid)
}

/// The mount point from the output of `findmnt -n -o TARGET -T <path>`:
/// the trimmed standard output, which must not be empty.
pub fn mount_point_from_findmnt(success: bool, stdout: &str, stderr: &str) -> (res: Result<
    String,
    VolumeError,
>)
    ensures
        result_view(res) == findmnt_value_outcome(
            success,
            stdout@,
            stderr@,
            VolumeErrorView::EmptyMountPoint,
        ),
{
    findmnt_value(success, stdout, stderr, VolumeError::EmptyMountPoint)
}

} // verus!

verus! {

/// The `(target, uuid)` pair that one line of `findmnt -r -n -o TARGET,UUID`
/// contributes: the line must have exactly two white-space separated fields,
/// and the second must not be the placeholder `-`.
pub open spec fn mount_entry(line: Seq<char>) -> Option<(Seq<char>, Seq<char>)> {
    let w = fields(line, CharClass::WhiteSpace);
    if w.len() == 2 && w[1].len() > 0 && w[1] != seq!['-'] {
        Some((w[0], w[1]))
    } else {
        None
    }
}

/// The entries of a sequence of lines, in order.
pub open spec fn mount_entries(lines: Seq<Seq<char>>) -> Seq<(Seq<char>, Seq<char>)>
    decreases lines.len(),
{
    if lines.len() == 0 {
        seq![]
    } else {
        let prev = mount_entries(lines.drop_last());
        match mount_entry(lines.last()) {
            Some(e) => prev.push(e),
            None => prev,
        }
    }
}

/// The mounted volumes listed by a `findmnt -r -n -o TARGET,UUID` output.
pub open spec fn mount_table(text: Seq<char>) -> Seq<(Seq<char>, Seq<char>)> {
    mount_entries(lines_of(text))
}

pub open spec fn pairs_view(v: Seq<(String, String)>) -> Seq<(Seq<char>, Seq<char>)> {
    v.map_values(|p: (String, String)| (p.0@, p.1@))
}

/// Parses the output of `findmnt -r -n -o TARGET,UUID` into `(target, uuid)` pairs.
pub fn parse_mount_table(text: &str) -> (res: Vec<(String, String)>)
    ensures
        pairs_view(res@) == mount_table(text@),
{
    let cs = chars_of(text);
    let lines = split_lines(&cs);
    let ghost ls = lines_of(text@);
    let mut res: Vec<(String, String)> = Vec::new();
    let mut i: usize = 0;
    while i < lines.len()
        invariant
            cs@ == text@,
            lines@.len() == ls.len(),
            forall|j: int| 0 <= j < lines@.len() ==> #[trigger] lines@[j]@ == ls[j],
            i <= lines.len(),
            pairs_view(res@) == mount_entries(ls.take(i as int)),
        decreases lines.len() - i,
    {
        let words = split_fields(&lines[i], CharClass::WhiteSpace);
        let ghost before = res@;
        if words.len() == 2 && words[1].len() > 0 && !(words[1].len() == 1 && words[1][0] == '-') {
            let target = string_of(words[0].as_slice());
            let uuid = string_of(words[1].as_slice());
            res.push((target, uuid));
            proof {
                assert(words@[1]@ != seq!['-']) by {
                    if words@[1]@ =~= seq!['-'] {
                        assert(words@[1]@[0] == '-');
                    }
                }
            }
        } else {
            proof {
                if words@.len() == 2 && words@[1]@.len() > 0 {
                    assert(words@[1]@ =~= seq!['-']);
                }
            }
        }
        proof {
            let t = ls.take(i + 1);
            assert(t.drop_last() =~= ls.take(i as int));
            assert(t.last() == ls[i as int]);
            assert(pairs_view(res@) =~= mount_entries(t));
        }
        i += 1;
    }
    assert(ls.take(lines.len() as int) =~= ls);
    res
}

/// The mounted volumes from a `findmnt -r -n -o TARGET,UUID` run.
pub fn mounted_volumes_from_findmnt(success: bool, stdout: &str, stderr: &str) -> (res: Result<
    Vec<(String, String)>,
    VolumeError,
>)
    ensures
        !success ==> (res matches Err(e) && e@ == VolumeErrorView::FindmntFailed(stderr@)),
        success ==> (res matches Ok(v) && pairs_view(v@) == mount_table(stdout@)),
{
    if !success {
        return Err(VolumeError::FindmntFailed(owned(stderr)));
    }
    Ok(parse_mount_table(stdout))
}

} // verus!

verus! {

/// What resolving a root needs to know of its stored record.
#[derive(Debug)]
pub struct RootFacts {
    pub label: String,
    pub selected_path: String,
    pub root_status: String,
    pub volume_uuid: Option<String>,
    pub last_known_mount_path: Option<String>,
}

pub struct RootFactsView {
    pub label: Seq<char>,
    pub selected_path: Seq<char>,
    pub root_status: Seq<char>,
    pub volume_uuid: Option<Seq<char>>,
    pub last_known_mount_path: Option<Seq<char>>,
}

impl View for RootFacts {
    type V = RootFactsView;

    open spec fn view(&self) -> RootFactsView {
        RootFactsView {
            label: self.label@,
            selected_path: self.selected_path@,
            root_status: self.root_status@,
            volume_uuid: opt_view(self.volume_uuid),
            last_known_mount_path: opt_view(self.last_known_mount_path),
        }
    }
}

pub open spec fn facts_of(root: LibraryRoot) -> RootFactsView {
    RootFactsView {
        label: root.label@,
        selected_path: root.selected_path@,
        root_status: root.root_status@,
        volume_uuid: opt_view(root.volume_uuid),
        last_known_mount_path: opt_view(root.last_known_mount_path),
    }
}

impl RootFacts {
    /// The facts of a stored root.
    pub fn of_root(root: &LibraryRoot) -> (res: RootFacts)
        ensures
            res@ == facts_of(*root),
    {
        RootFacts {
            label: owned(root.label.as_str()),
            selected_path: owned(root.selected_path.as_str()),
            root_status: owned(root.root_status.as_str()),
            volume_uuid: copy_opt(&root.volume_uuid),
            last_known_mount_path: copy_opt(&root.last_known_mount_path),
        }
    }
}

/// Where a resolution stands: which answer it waits for.
#[derive(Debug)]
pub enum ResolveStage {
    AwaitRoot,
    AwaitSelected(RootFacts),
    AwaitVolumes(RootFacts),
    /// Waits to learn whether the relocated folder (`candidate`) exists on `mount`.
    AwaitCandidate(RootFacts, String, String),
    AwaitWrite(Result<String, VolumeError>),
    Done,
}

pub enum ResolveStageView {
    AwaitRoot,
    AwaitSelected(RootFactsView),
    AwaitVolumes(RootFactsView),
    AwaitCandidate(RootFactsView, Seq<char>, Seq<char>),
    AwaitWrite(Result<Seq<char>, VolumeErrorView>),
    Done,
}

impl View for ResolveStage {
    type V = ResolveStageView;

    open spec fn view(&self) -> ResolveStageView {
        match self {
            ResolveStage::AwaitRoot => ResolveStageView::AwaitRoot,
            ResolveStage::AwaitSelected(f) => ResolveStageView::AwaitSelected(f@),
            ResolveStage::AwaitVolumes(f) => ResolveStageView::AwaitVolumes(f@),
            ResolveStage::AwaitCandidate(f, c, m) => ResolveStageView::AwaitCandidate(f@, c@, m@),
            ResolveStage::AwaitWrite(r) => ResolveStageView::AwaitWrite(result_view(*r)),
            ResolveStage::Done => ResolveStageView::Done,
        }
    }
}

/// What the outside world reports back.
pub enum ResolveEvent {
    /// The stored root with the requested id, if there is one.
    RootLoaded(Option<LibraryRoot>),
    /// Whether the path last asked about exists.
    PathChecked(bool),
    /// The mounted volumes as `(target, uuid)`, or `None` if they could not be listed.
    VolumesListed(Option<Vec<(String, String)>>),
    /// The requested update of the stored root was written.
    Written,
}

pub enum ResolveEventView {
    RootLoaded(Option<RootFactsView>),
    PathChecked(bool),
    VolumesListed(Option<Seq<(Seq<char>, Seq<char>)>>),
    Written,
}

impl View for ResolveEvent {
    type V = ResolveEventView;

    open spec fn view(&self) -> ResolveEventView {
        match self {
            ResolveEvent::RootLoaded(Some(r)) => ResolveEventView::RootLoaded(Some(facts_of(*r))),
            ResolveEvent::RootLoaded(None) => ResolveEventView::RootLoaded(None),
            ResolveEvent::PathChecked(b) => ResolveEventView::PathChecked(*b),
            ResolveEvent::VolumesListed(Some(v)) => ResolveEventView::VolumesListed(Some(pairs_view(v@))),
            ResolveEvent::VolumesListed(None) => ResolveEventView::VolumesListed(None),
            ResolveEvent::Written => ResolveEventView::Written,
        }
    }
}

/// What the outside world is asked to do next.
#[derive(Debug)]
pub enum ResolveAction {
    /// Load the stored root by its id.
    LoadRoot,
    /// Report whether this path exists.
    CheckPath(String),
    /// List the mounted volumes.
    ListVolumes,
    /// Set the root's status to `active` (and its update time).
    MarkActive,
    /// Store the relocated path, its normalized form and the new mount point,
    /// and set the status to `active` (and the update time).
    Relocate { selected_path: String, normalized_selected_path: String, last_known_mount_path: String },
    /// Set the root's status to `missing` (and its update time).
    MarkMissing,
    /// Resolution is over: the root's folder, or why there is none.
    Finish(Result<String, VolumeError>),
}

pub enum ResolveActionView {
    LoadRoot,
    CheckPath(Seq<char>),
    ListVolumes,
    MarkActive,
    Relocate { selected_path: Seq<char>, normalized_selected_path: Seq<char>, last_known_mount_path: Seq<char> },
    MarkMissing,
    Finish(Result<Seq<char>, VolumeErrorView>),
}

impl View for ResolveAction {
    type V = ResolveActionView;

    open spec fn view(&self) -> ResolveActionView {
        match self {
            ResolveAction::LoadRoot => ResolveActionView::LoadRoot,
            ResolveAction::CheckPath(p) => ResolveActionView::CheckPath(p@),
            ResolveAction::ListVolumes => ResolveActionView::ListVolumes,
            ResolveAction::MarkActive => ResolveActionView::MarkActive,
            ResolveAction::Relocate { selected_path, normalized_selected_path, last_known_mount_path } =>
                ResolveActionView::Relocate {
                    selected_path: selected_path@,
                    normalized_selected_path: normalized_selected_path@,
                    last_known_mount_path: last_known_mount_path@,
                },
            ResolveAction::MarkMissing => ResolveActionView::MarkMissing,
            ResolveAction::Finish(r) => ResolveActionView::Finish(result_view(*r)),
        }
    }
}

/// The target of the first mounted volume with the given UUID.
pub open spec fn first_mount_with_uuid(vols: Seq<(Seq<char>, Seq<char>)>, uuid: Seq<char>) -> Option<Seq<char>>
    decreases vols.len(),
{
    if vols.len() == 0 {
        None
    } else if vols[0].1 == uuid {
        Some(vols[0].0)
    } else {
        first_mount_with_uuid(vols.drop_first(), uuid)
    }
}

/// The root cannot be found where it was or on a relocated volume: it is
/// marked missing (unless it already is) and reported offline.
pub open spec fn give_up(f: RootFactsView) -> (ResolveStageView, ResolveActionView) {
    let err = Err(VolumeErrorView::RootOffline(f.label));
    if f.root_status != "missing"@ {
        (ResolveStageView::AwaitWrite(err), ResolveActionView::MarkMissing)
    } else {
        (ResolveStageView::Done, ResolveActionView::Finish(err))
    }
}

pub open spec fn last_mount_or_empty(f: RootFactsView) -> Seq<char> {
    match f.last_known_mount_path {
        Some(m) => m,
        None => Seq::empty(),
    }
}

/// One step of resolving (and healing) a library root.
pub open spec fn resolve_transition(st: ResolveStageView, ev: ResolveEventView) -> (ResolveStageView, ResolveActionView) {
    match (st, ev) {
        (ResolveStageView::AwaitRoot, ResolveEventView::RootLoaded(None)) =>
            (ResolveStageView::Done, ResolveActionView::Finish(Err(VolumeErrorView::RootNotFound))),
        (ResolveStageView::AwaitRoot, ResolveEventView::RootLoaded(Some(f))) =>
            (ResolveStageView::AwaitSelected(f), ResolveActionView::CheckPath(f.selected_path)),
        (ResolveStageView::AwaitSelected(f), ResolveEventView::PathChecked(exists)) =>
            if exists {
                if f.root_status == "missing"@ || f.root_status == "new"@ {
                    (ResolveStageView::AwaitWrite(Ok(f.selected_path)), ResolveActionView::MarkActive)
                } else {
                    (ResolveStageView::Done, ResolveActionView::Finish(Ok(f.selected_path)))
                }
            } else if f.volume_uuid is Some {
                (ResolveStageView::AwaitVolumes(f), ResolveActionView::ListVolumes)
            } else {
                give_up(f)
            },
        (ResolveStageView::AwaitVolumes(f), ResolveEventView::VolumesListed(None)) => give_up(f),
        (ResolveStageView::AwaitVolumes(f), ResolveEventView::VolumesListed(Some(vols))) =>
            match (if f.volume_uuid is Some { first_mount_with_uuid(vols, f.volume_uuid->0) } else { None }) {
                None => give_up(f),
                Some(m) => {
                    let c = crate::paths::relocation_target(f.selected_path, last_mount_or_empty(f), m);
                    (ResolveStageView::AwaitCandidate(f, c, m), ResolveActionView::CheckPath(c))
                },
            },
        (ResolveStageView::AwaitCandidate(f, c, m), ResolveEventView::PathChecked(exists)) =>
            if exists {
                (
                    ResolveStageView::AwaitWrite(Ok(c)),
                    ResolveActionView::Relocate {
                        selected_path: c,
                        normalized_selected_path: forward_slashes(c),
                        last_known_mount_path: m,
                    },
                )
            } else {
                give_up(f)
            },
        (ResolveStageView::AwaitWrite(r), ResolveEventView::Written) =>
            (ResolveStageView::Done, ResolveActionView::Finish(r)),
        _ => (st, ResolveActionView::Finish(Err(VolumeErrorView::RootNotFound))),
    }
}

} // verus!

verus! {

/// The target of the first listed volume with the given UUID.
pub fn find_mount_with_uuid(vols: &Vec<(String, String)>, uuid: &str) -> (res: Option<String>)
    ensures
        opt_view(res) == first_mount_with_uuid(pairs_view(vols@), uuid@),
{
    let ghost pv = pairs_view(vols@);
    let mut i: usize = 0;
    assert(pv.skip(0) =~= pv);
    while i < vols.len()
        invariant
            pv == pairs_view(vols@),
            i <= vols.len(),
            first_mount_with_uuid(pv, uuid@) == first_mount_with_uuid(pv.skip(i as int), uuid@),
        decreases vols.len() - i,
    {
        let ghost rest = pv.skip(i as int);
        assert(rest[0] == pv[i as int]);
        if str_eq(vols[i].1.as_str(), uuid) {
            return Some(owned(vols[i].0.as_str()));
        }
        assert(rest.drop_first() =~= pv.skip(i + 1));
        i += 1;
    }
    None
}

fn give_up_exec(f: RootFacts) -> (res: (ResolveStage, ResolveAction))
    ensures
        (res.0@, res.1@) == give_up(f@),
{
    let missing = str_eq(f.root_status.as_str(), "missing");
    let err = VolumeError::RootOffline(f.label);
    if !missing {
        (ResolveStage::AwaitWrite(Err(err)), ResolveAction::MarkMissing)
    } else {
        (ResolveStage::Done, ResolveAction::Finish(Err(err)))
    }
}

impl ResolveStage {
    /// The first stage and request of a resolution: load the root.
    pub fn start() -> (res: (ResolveStage, ResolveAction))
        ensures
            res.0@ == ResolveStageView::AwaitRoot,
            res.1@ == ResolveActionView::LoadRoot,
    {
        (ResolveStage::AwaitRoot, ResolveAction::LoadRoot)
    }

    /// Advances the resolution with the answer to the last request.
    /// An answer that the stage does not wait for ends the resolution with
    /// `RootNotFound` and leaves the stage as it was.
    pub fn step(self, ev: ResolveEvent) -> (res: (ResolveStage, ResolveAction))
        ensures
            (res.0@, res.1@) == resolve_transition(self@, ev@),
    {
        match (self, ev) {
            (ResolveStage::AwaitRoot, ResolveEvent::RootLoaded(None)) => (
                ResolveStage::Done,
                ResolveAction::Finish(Err(VolumeError::RootNotFound)),
            ),
            (ResolveStage::AwaitRoot, ResolveEvent::RootLoaded(Some(root))) => {
                let f = RootFacts::of_root(&root);
                let p = owned(f.selected_path.as_str());
                (ResolveStage::AwaitSelected(f), ResolveAction::CheckPath(p))
            },
            (ResolveStage::AwaitSelected(f), ResolveEvent::PathChecked(exists)) => {
                if exists {
                    let s = f.root_status.as_str();
                    if str_eq(s, "missing") || str_eq(s, "new") {
                        (ResolveStage::AwaitWrite(Ok(f.selected_path)), ResolveAction::MarkActive)
                    } else {
                        (ResolveStage::Done, ResolveAction::Finish(Ok(f.selected_path)))
                    }
                } else if f.volume_uuid.is_some() {
                    (ResolveStage::AwaitVolumes(f), ResolveAction::ListVolumes)
                } else {
                    give_up_exec(f)
                }
            },
            (ResolveStage::AwaitVolumes(f), ResolveEvent::VolumesListed(None)) => give_up_exec(f),
            (ResolveStage::AwaitVolumes(f), ResolveEvent::VolumesListed(Some(vols))) => {
                let found = match &f.volume_uuid {
                    Some(u) => find_mount_with_uuid(&vols, u.as_str()),
                    None => None,
                };
                match found {
                    None => give_up_exec(f),
                    Some(m) => {
                        let last = match &f.last_known_mount_path {
                            Some(l) => owned(l.as_str()),
                            None => String::new(),
                        };
                        let c = crate::paths::relocated_path(
                            f.selected_path.as_str(),
                            last.as_str(),
                            m.as_str(),
                        );
                        let p = owned(c.as_str());
                        (ResolveStage::AwaitCandidate(f, c, m), ResolveAction::CheckPath(p))
                    },
                }
            },
            (ResolveStage::AwaitCandidate(f, c, m), ResolveEvent::PathChecked(exists)) => {
                if exists {
                    let normalized = normalize_separators(c.as_str());
                    let path = owned(c.as_str());
                    (
                        ResolveStage::AwaitWrite(Ok(c)),
                        ResolveAction::Relocate {
                            selected_path: path,
                            normalized_selected_path: normalized,
                            last_known_mount_path: m,
                        },
                    )
                } else {
                    give_up_exec(f)
                }
            },
            (ResolveStage::AwaitWrite(r), ResolveEvent::Written) => (
                ResolveStage::Done,
                ResolveAction::Finish(r),
            ),
            (st, _) => (st, ResolveAction::Finish(Err(VolumeError::RootNotFound))),
        }
    }
}

} // verus!

verus! {

/// The answer the outside world gives to `act`, for a given stored root,
/// file system (`on_disk`) and volume listing.
pub open spec fn answer(
    act: ResolveActionView,
    root: Option<RootFactsView>,
    on_disk: spec_fn(Seq<char>) -> bool,
    vols: Option<Seq<(Seq<char>, Seq<char>)>>,
) -> ResolveEventView {
    match act {
        ResolveActionView::LoadRoot => ResolveEventView::RootLoaded(root),
        ResolveActionView::CheckPath(p) => ResolveEventView::PathChecked(on_disk(p)),
        ResolveActionView::ListVolumes => ResolveEventView::VolumesListed(vols),
        _ => ResolveEventView::Written,
    }
}

/// The requests a resolution makes, in order, up to and including `Finish`.
pub open spec fn trace_from(
    st: ResolveStageView,
    act: ResolveActionView,
    root: Option<RootFactsView>,
    on_disk: spec_fn(Seq<char>) -> bool,
    vols: Option<Seq<(Seq<char>, Seq<char>)>>,
    fuel: nat,
) -> Seq<ResolveActionView>
    decreases fuel,
{
    if fuel == 0 || act is Finish {
        seq![act]
    } else {
        let next = resolve_transition(st, answer(act, root, on_disk, vols));
        seq![act] + trace_from(next.0, next.1, root, on_disk, vols, (fuel - 1) as nat)
    }
}

/// All requests of a resolution that starts from scratch.
pub open spec fn resolution_trace(
    root: Option<RootFactsView>,
    on_disk: spec_fn(Seq<char>) -> bool,
    vols: Option<Seq<(Seq<char>, Seq<char>)>>,
) -> Seq<ResolveActionView> {
    trace_from(ResolveStageView::AwaitRoot, ResolveActionView::LoadRoot, root, on_disk, vols, 8)
}

/// An unknown root id is reported as not found, and nothing is written.
pub proof fn law_unknown_root_not_found(
    on_disk: spec_fn(Seq<char>) -> bool,
    vols: Option<Seq<(Seq<char>, Seq<char>)>>,
)
    ensures
        resolution_trace(None, on_disk, vols) == seq![
            ResolveActionView::LoadRoot,
            ResolveActionView::Finish(Err(VolumeErrorView::RootNotFound)),
        ],
{
    reveal_with_fuel(trace_from, 3);
    assert(resolution_trace(None, on_disk, vols) =~= seq![
        ResolveActionView::LoadRoot,
        ResolveActionView::Finish(Err(VolumeErrorView::RootNotFound)),
    ]);
}

/// A root whose folder is where it was recorded resolves to that folder;
/// a `new` or `missing` root is marked active on the way.
pub proof fn law_present_root_kept(
    f: RootFactsView,
    on_disk: spec_fn(Seq<char>) -> bool,
    vols: Option<Seq<(Seq<char>, Seq<char>)>>,
)
    requires
        on_disk(f.selected_path),
    ensures
        resolution_trace(Some(f), on_disk, vols) == seq![
            ResolveActionView::LoadRoot,
            ResolveActionView::CheckPath(f.selected_path),
        ] + (if f.root_status == "missing"@ || f.root_status == "new"@ {
            seq![ResolveActionView::MarkActive]
        } else {
            seq![]
        }) + seq![ResolveActionView::Finish(Ok(f.selected_path))],
{
    reveal_with_fuel(trace_from, 5);
    assert(resolution_trace(Some(f), on_disk, vols) =~= seq![
        ResolveActionView::LoadRoot,
        ResolveActionView::CheckPath(f.selected_path),
    ] + (if f.root_status == "missing"@ || f.root_status == "new"@ {
        seq![ResolveActionView::MarkActive]
    } else {
        seq![]
    }) + seq![ResolveActionView::Finish(Ok(f.selected_path))]);
}

/// A root whose folder is gone, but whose volume is mounted elsewhere with the
/// folder present there, is healed: the new path and mount point are stored
/// and the relocated folder is returned.
pub proof fn law_moved_volume_healed(
    f: RootFactsView,
    on_disk: spec_fn(Seq<char>) -> bool,
    vols: Seq<(Seq<char>, Seq<char>)>,
    mount: Seq<char>,
)
    requires
        !on_disk(f.selected_path),
        f.volume_uuid is Some,
        first_mount_with_uuid(vols, f.volume_uuid->0) == Some(mount),
        on_disk(crate::paths::relocation_target(f.selected_path, last_mount_or_empty(f), mount)),
    ensures
        ({
            let c = crate::paths::relocation_target(f.selected_path, last_mount_or_empty(f), mount);
            resolution_trace(Some(f), on_disk, Some(vols)) == seq![
                ResolveActionView::LoadRoot,
                ResolveActionView::CheckPath(f.selected_path),
                ResolveActionView::ListVolumes,
                ResolveActionView::CheckPath(c),
                ResolveActionView::Relocate {
                    selected_path: c,
                    normalized_selected_path: forward_slashes(c),
                    last_known_mount_path: mount,
                },
                ResolveActionView::Finish(Ok(c)),
            ]
        }),
{
    reveal_with_fuel(trace_from, 7);
    let c = crate::paths::relocation_target(f.selected_path, last_mount_or_empty(f), mount);
    assert(resolution_trace(Some(f), on_disk, Some(vols)) =~= seq![
        ResolveActionView::LoadRoot,
        ResolveActionView::CheckPath(f.selected_path),
        ResolveActionView::ListVolumes,
        ResolveActionView::CheckPath(c),
        ResolveActionView::Relocate {
            selected_path: c,
            normalized_selected_path: forward_slashes(c),
            last_known_mount_path: mount,
        },
        ResolveActionView::Finish(Ok(c)),
    ]);
}

/// Whether the root's folder can be found on its volume mounted elsewhere.
pub open spec fn relocatable(
    f: RootFactsView,
    on_disk: spec_fn(Seq<char>) -> bool,
    vols: Option<Seq<(Seq<char>, Seq<char>)>>,
) -> bool {
    &&& f.volume_uuid is Some
    &&& vols is Some
    &&& first_mount_with_uuid(vols->0, f.volume_uuid->0) is Some
    &&& on_disk(
        crate::paths::relocation_target(
            f.selected_path,
            last_mount_or_empty(f),
            first_mount_with_uuid(vols->0, f.volume_uuid->0)->0,
        ),
    )
}

/// A root that is neither where it was recorded nor relocatable is reported
/// offline, and marked missing unless it already was; nothing else is
/// written (in particular, its recorded path and mount point are kept).
pub proof fn law_offline_root_marked_missing(
    f: RootFactsView,
    on_disk: spec_fn(Seq<char>) -> bool,
    vols: Option<Seq<(Seq<char>, Seq<char>)>>,
)
    requires
        !on_disk(f.selected_path),
        !relocatable(f, on_disk, vols),
    ensures
        resolution_trace(Some(f), on_disk, vols).last() == ResolveActionView::Finish(
            Err(VolumeErrorView::RootOffline(f.label)),
        ),
        resolution_trace(Some(f), on_disk, vols).contains(ResolveActionView::MarkMissing) <==> f.root_status
            != "missing"@,
        resolution_trace(Some(f), on_disk, vols) == (if f.volume_uuid is None {
            seq![ResolveActionView::LoadRoot, ResolveActionView::CheckPath(f.selected_path)]
        } else if vols is None || first_mount_with_uuid(vols->0, f.volume_uuid->0) is None {
            seq![ResolveActionView::LoadRoot, ResolveActionView::CheckPath(f.selected_path), ResolveActionView::ListVolumes]
        } else {
            seq![
                ResolveActionView::LoadRoot,
                ResolveActionView::CheckPath(f.selected_path),
                ResolveActionView::ListVolumes,
                ResolveActionView::CheckPath(
                    crate::paths::relocation_target(
                        f.selected_path,
                        last_mount_or_empty(f),
                        first_mount_with_uuid(vols->0, f.volume_uuid->0)->0,
                    ),
                ),
            ]
        }) + (if f.root_status != "missing"@ {
            seq![ResolveActionView::MarkMissing, ResolveActionView::Finish(Err(VolumeErrorView::RootOffline(f.label)))]
        } else {
            seq![ResolveActionView::Finish(Err(VolumeErrorView::RootOffline(f.label)))]
        }),
{
    reveal_with_fuel(trace_from, 7);
    let t = resolution_trace(Some(f), on_disk, vols);
    let tail: Seq<ResolveActionView> = if f.root_status != "missing"@ {
        seq![ResolveActionView::MarkMissing, ResolveActionView::Finish(Err(VolumeErrorView::RootOffline(f.label)))]
    } else {
        seq![ResolveActionView::Finish(Err(VolumeErrorView::RootOffline(f.label)))]
    };
    let head: Seq<ResolveActionView> = if f.volume_uuid is None {
        seq![ResolveActionView::LoadRoot, ResolveActionView::CheckPath(f.selected_path)]
    } else if vols is None || first_mount_with_uuid(vols->0, f.volume_uuid->0) is None {
        seq![ResolveActionView::LoadRoot, ResolveActionView::CheckPath(f.selected_path), ResolveActionView::ListVolumes]
    } else {
        seq![
            ResolveActionView::LoadRoot,
            ResolveActionView::CheckPath(f.selected_path),
            ResolveActionView::ListVolumes,
            ResolveActionView::CheckPath(
                crate::paths::relocation_target(
                    f.selected_path,
                    last_mount_or_empty(f),
                    first_mount_with_uuid(vols->0, f.volume_uuid->0)->0,
                ),
            ),
        ]
    };
    assert(t =~= head + tail);
    assert(!head.contains(ResolveActionView::MarkMissing));
    if f.root_status != "missing"@ {
        assert(t[head.len() as int] == ResolveActionView::MarkMissing);
    } else {
        assert(!tail.contains(ResolveActionView::MarkMissing));
        assert(!t.contains(ResolveActionView::MarkMissing)) by {
            if t.contains(ResolveActionView::MarkMissing) {
                let k = choose|k: int| 0 <= k < t.len() && t[k] == ResolveActionView::MarkMissing;
                if k < head.len() {
                    assert(head[k] == t[k]);
                } else {
                    assert(tail[k - head.len()] == t[k]);
                }
            }
        }
    }
}

/// A resolution stores a relocated path only right after checking that the
/// folder exists there, and only with the mount point of the root's own
/// volume (the first listed with its UUID).
pub proof fn law_relocation_follows_found_folder(
    root: Option<RootFactsView>,
    on_disk: spec_fn(Seq<char>) -> bool,
    vols: Option<Seq<(Seq<char>, Seq<char>)>>,
    i: int,
)
    requires
        0 <= i < resolution_trace(root, on_disk, vols).len(),
        resolution_trace(root, on_disk, vols)[i] is Relocate,
    ensures
        ({
            let t = resolution_trace(root, on_disk, vols);
            &&& i >= 1
            &&& t[i - 1] == ResolveActionView::CheckPath(t[i]->selected_path)
            &&& on_disk(t[i]->selected_path)
            &&& root is Some
            &&& root->0.volume_uuid is Some
            &&& vols is Some
            &&& first_mount_with_uuid(vols->0, root->0.volume_uuid->0) == Some(t[i]->last_known_mount_path)
        }),
{
    let t = resolution_trace(root, on_disk, vols);
    match root {
        None => {
            law_unknown_root_not_found(on_disk, vols);
            assert(t[i] == ResolveActionView::LoadRoot || t[i] == ResolveActionView::Finish(
                Err(VolumeErrorView::RootNotFound),
            ));
        },
        Some(f) => {
            if on_disk(f.selected_path) {
                law_present_root_kept(f, on_disk, vols);
                assert(i < 4);
                assert(!(t[i] is Relocate));
            } else if relocatable(f, on_disk, vols) {
                let m = first_mount_with_uuid(vols->0, f.volume_uuid->0)->0;
                law_moved_volume_healed(f, on_disk, vols->0, m);
                assert(i == 4) by {
                    if i != 4 {
                        assert(!(t[i] is Relocate));
                    }
                }
            } else {
                law_offline_root_marked_missing(f, on_disk, vols);
                assert(i < 6);
                assert(!(t[i] is Relocate));
            }
        },
    }
}

} // verus!
