//! The bookkeeping of a library scan: which files count as media, which
//! known items each scanned file settles, what is counted, and which items
//! are left missing.

use vstd::prelude::*;
use crate::text::{copy_opt, opt_view, owned, str_eq};

verus! {

/// Progress reported while a root is scanned.
#[derive(Debug, Clone)]
pub struct ScanProgressEvent {
    pub files_scanned: usize,
    pub current_file: String,
}

/// Totals reported when a scan completes.
#[derive(Debug, Clone)]
pub struct ScanCompleteEvent {
    pub root_id: String,
    pub new_items: usize,
    pub changed_items: usize,
    pub missing_items: usize,
    pub skipped_items: usize,
}

/// The progress report sent before the folder tree is walked.
pub fn discovery_event() -> (res: ScanProgressEvent)
    ensures
        res.files_scanned == 0,
        res.current_file@ == "Discovering directory tree structure..."@,
{
    ScanProgressEvent { files_scanned: 0, current_file: owned("Discovering directory tree structure...") }
}

/// Progress is reported for each of the first nine files and then for every tenth.
pub fn should_report_progress(files_scanned: usize) -> (res: bool)
    ensures
        res == (files_scanned % 10 == 0 || files_scanned < 10),
{
    files_scanned % 10 == 0 || files_scanned < 10
}

/// The extensions (in lower case) of the files a scan catalogs.
pub open spec fn is_media_extension(e: Seq<char>) -> bool {
    ||| e == "mp4"@
    ||| e == "mkv"@
    ||| e == "avi"@
    ||| e == "mov"@
    ||| e == "wmv"@
    ||| e == "m4v"@
    ||| e == "webm"@
}

/// The cataloged media extensions are exactly mp4, mkv, avi, mov, wmv, m4v
/// and webm, in lower case.
pub proof fn law_media_extensions()
    ensures
        is_media_extension("mp4"@),
        is_media_extension("mkv"@),
        is_media_extension("avi"@),
        is_media_extension("mov"@),
        is_media_extension("wmv"@),
        is_media_extension("m4v"@),
        is_media_extension("webm"@),
        forall|e: Seq<char>| #[trigger] is_media_extension(e) ==> e == "mp4"@ || e == "mkv"@ || e == "avi"@
            || e == "mov"@ || e == "wmv"@ || e == "m4v"@ || e == "webm"@,
{
}

/// Whether a lower-case extension is one of the cataloged media extensions.
pub fn is_supported_lowercase(e: &str) -> (res: bool)
    ensures
        res == is_media_extension(e@),
        res <==> (e@ == "mp4"@ || e@ == "mkv"@ || e@ == "avi"@ || e@ == "mov"@ || e@ == "wmv"@ || e@
            == "m4v"@ || e@ == "webm"@),
{
    str_eq(e, "mp4") || str_eq(e, "mkv") || str_eq(e, "avi") || str_eq(e, "mov") || str_eq(e, "wmv")
        || str_eq(e, "m4v") || str_eq(e, "webm")
}

/// What `str::to_lowercase` returns for a string.
pub uninterp spec fn lowercase_of(s: Seq<char>) -> Seq<char>;

/// `str::to_lowercase`: the Unicode lower-case mapping of `s`.  The contract
/// names the result and states nothing more of it.
#[verifier::external_body]
fn to_lowercase(s: &str) -> (res: String)
    ensures
        res@ == lowercase_of(s@),
{
    s.to_lowercase()
}

/// The lower-cased extension of a file, if it is a cataloged media extension.
pub fn media_extension(ext: &str) -> (res: Option<String>)
    ensures
        match res {
            Some(l) => l@ == lowercase_of(ext@) && is_media_extension(l@),
            None => !is_media_extension(lowercase_of(ext@)),
        },
        res is Some <==> ({
            let l = lowercase_of(ext@);
            l == "mp4"@ || l == "mkv"@ || l == "avi"@ || l == "mov"@ || l == "wmv"@ || l == "m4v"@ || l
                == "webm"@
        }),
{
    let lower = to_lowercase(ext);
    if is_supported_lowercase(lower.as_str()) {
        Some(lower)
    } else {
        None
    }
}

} // verus!

verus! {

/// A cataloged item of the root being scanned, as far as the scan needs it.
#[derive(Debug)]
pub struct KnownItem {
    pub id: String,
    pub relative_path: String,
    pub size_bytes: i64,
    pub mtime_utc: Option<String>,
    pub metadata_status: String,
}

pub struct KnownItemView {
    pub id: Seq<char>,
    pub relative_path: Seq<char>,
    pub size_bytes: i64,
    pub mtime_utc: Option<Seq<char>>,
    pub metadata_status: Seq<char>,
}

impl View for KnownItem {
    type V = KnownItemView;

    open spec fn view(&self) -> KnownItemView {
        KnownItemView {
            id: self.id@,
            relative_path: self.relative_path@,
            size_bytes: self.size_bytes,
            mtime_utc: opt_view(self.mtime_utc),
            metadata_status: self.metadata_status@,
        }
    }
}

pub open spec fn items_view(v: Seq<KnownItem>) -> Seq<KnownItemView> {
    v.map_values(|k: KnownItem| k@)
}

/// Items keyed by relative path; a later item replaces an earlier one with
/// the same path.
pub open spec fn keyed(s: Seq<KnownItemView>) -> Map<Seq<char>, KnownItemView>
    decreases s.len(),
{
    if s.len() == 0 {
        Map::empty()
    } else {
        keyed(s.drop_last()).insert(s.last().relative_path, s.last())
    }
}

/// No two items share a relative path.
pub open spec fn unique_paths(s: Seq<KnownItemView>) -> bool {
    forall|i: int, j: int|
        0 <= i < j < s.len() ==> s[i].relative_path != s[j].relative_path
}

pub proof fn lemma_keyed_absent(s: Seq<KnownItemView>, k: Seq<char>)
    requires
        forall|i: int| 0 <= i < s.len() ==> s[i].relative_path != k,
    ensures
        !keyed(s).contains_key(k),
    decreases s.len(),
{
    if s.len() > 0 {
        lemma_keyed_absent(s.drop_last(), k);
    }
}

pub proof fn lemma_keyed_present(s: Seq<KnownItemView>, i: int)
    requires
        unique_paths(s),
        0 <= i < s.len(),
    ensures
        keyed(s).contains_key(s[i].relative_path),
        keyed(s)[s[i].relative_path] == s[i],
    decreases s.len(),
{
    if i < s.len() - 1 {
        lemma_keyed_present(s.drop_last(), i);
    }
}

pub proof fn lemma_keyed_contains(s: Seq<KnownItemView>, k: Seq<char>)
    requires
        keyed(s).contains_key(k),
    ensures
        exists|i: int| 0 <= i < s.len() && s[i].relative_path == k,
{
    if !(exists|i: int| 0 <= i < s.len() && s[i].relative_path == k) {
        lemma_keyed_absent(s, k);
    }
}

pub proof fn lemma_keyed_finite(s: Seq<KnownItemView>)
    requires
        unique_paths(s),
    ensures
        keyed(s).dom().finite(),
        keyed(s).len() == s.len(),
    decreases s.len(),
{
    if s.len() > 0 {
        lemma_keyed_finite(s.drop_last());
        lemma_keyed_absent(s.drop_last(), s.last().relative_path);
    }
}

pub proof fn lemma_keyed_remove(s: Seq<KnownItemView>, i: int)
    requires
        unique_paths(s),
        0 <= i < s.len(),
    ensures
        unique_paths(s.remove(i)),
        keyed(s.remove(i)) == keyed(s).remove(s[i].relative_path),
    decreases s.len(),
{
    let last = s.last();
    let init = s.drop_last();
    if i == s.len() - 1 {
        assert(s.remove(i) =~= init);
        lemma_keyed_absent(init, last.relative_path);
        assert(keyed(s).remove(s[i].relative_path) =~= keyed(init));
    } else {
        lemma_keyed_remove(init, i);
        assert(s.remove(i) =~= init.remove(i).push(last));
        assert(s.remove(i).drop_last() =~= init.remove(i));
        assert(last.relative_path != s[i].relative_path);
        assert(keyed(s.remove(i)) =~= keyed(s).remove(s[i].relative_path));
    }
}

pub proof fn lemma_keyed_update(s: Seq<KnownItemView>, i: int, x: KnownItemView)
    requires
        unique_paths(s),
        0 <= i < s.len(),
        s[i].relative_path == x.relative_path,
    ensures
        unique_paths(s.update(i, x)),
        keyed(s.update(i, x)) == keyed(s).insert(x.relative_path, x),
    decreases s.len(),
{
    let init = s.drop_last();
    if i == s.len() - 1 {
        assert(s.update(i, x).drop_last() =~= init);
        assert(keyed(s.update(i, x)) =~= keyed(s).insert(x.relative_path, x));
    } else {
        lemma_keyed_update(init, i, x);
        assert(s.update(i, x).drop_last() =~= init.update(i, x));
        assert(keyed(s.update(i, x)) =~= keyed(s).insert(x.relative_path, x));
    }
}

fn opt_eq(a: &Option<String>, b: &Option<String>) -> (res: bool)
    ensures
        res == (opt_view(*a) == opt_view(*b)),
{
    match (a, b) {
        (Some(x), Some(y)) => str_eq(x.as_str(), y.as_str()),
        (None, None) => true,
        _ => false,
    }
}

fn copy_item(k: &KnownItem) -> (res: KnownItem)
    ensures
        res@ == k@,
{
    KnownItem {
        id: owned(k.id.as_str()),
        relative_path: owned(k.relative_path.as_str()),
        size_bytes: k.size_bytes,
        mtime_utc: copy_opt(&k.mtime_utc),
        metadata_status: owned(k.metadata_status.as_str()),
    }
}

/// The position of the item with the given path.
fn position_of(v: &Vec<KnownItem>, path: &str) -> (res: Option<usize>)
    ensures
        match res {
            Some(i) => i < v@.len() && v@[i as int]@.relative_path == path@,
            None => forall|i: int| 0 <= i < v@.len() ==> v@[i]@.relative_path != path@,
        },
{
    let mut i: usize = 0;
    while i < v.len()
        invariant
            i <= v.len(),
            forall|j: int| 0 <= j < i ==> v@[j]@.relative_path != path@,
        decreases v.len() - i,
    {
        if str_eq(v[i].relative_path.as_str(), path) {
            return Some(i);
        }
        i += 1;
    }
    None
}

} // verus!

verus! {

/// What a scan is waiting for.
#[derive(Debug, Clone, Copy, PartialEq, Eq, Structural)]
pub enum ScanPhase {
    /// Ready for the next file, or to finish.
    Idle,
    /// Waiting for the current file's fingerprint and any same-content item.
    AwaitLookup,
    /// Waiting for the current file to be (re)cataloged.
    Processing,
}

/// What to do with the file at hand.
#[derive(Debug)]
pub enum FileStep {
    /// Count it as skipped and go on (empty, or not fingerprintable).
    Skipped,
    /// It is cataloged and has not changed: nothing to do.
    Unchanged,
    /// It is the cataloged item with this id, marked missing, back unchanged:
    /// mark it present again.
    Reappeared(String),
    /// Fingerprint it and look for an item of this root with the same content.
    Lookup,
    /// It is the cataloged item with this id, changed: refresh its record.
    Refresh(String),
    /// It is the cataloged item with this id, moved here: update its path.
    Moved(String),
    /// Catalog it as a new item.
    New,
}

pub enum FileStepView {
    Skipped,
    Unchanged,
    Reappeared(Seq<char>),
    Lookup,
    Refresh(Seq<char>),
    Moved(Seq<char>),
    New,
}

impl View for FileStep {
    type V = FileStepView;

    open spec fn view(&self) -> FileStepView {
        match self {
            FileStep::Skipped => FileStepView::Skipped,
            FileStep::Unchanged => FileStepView::Unchanged,
            FileStep::Reappeared(id) => FileStepView::Reappeared(id@),
            FileStep::Lookup => FileStepView::Lookup,
            FileStep::Refresh(id) => FileStepView::Refresh(id@),
            FileStep::Moved(id) => FileStepView::Moved(id@),
            FileStep::New => FileStepView::New,
        }
    }
}

/// The state of a scan of one root.
pub struct ScanSession {
    root_id: String,
    pending: Vec<KnownItem>,
    walked: Vec<String>,
    new_items: usize,
    changed_items: usize,
    skipped_items: usize,
    files_scanned: usize,
    phase: ScanPhase,
}

pub struct ScanSessionView {
    pub root_id: Seq<char>,
    /// The cataloged items not yet matched by a scanned file, by relative path.
    pub pending: Map<Seq<char>, KnownItemView>,
    /// The relative paths of the non-empty media files the walk found.
    pub walked: Seq<Seq<char>>,
    pub new_items: nat,
    pub changed_items: nat,
    pub skipped_items: nat,
    pub files_scanned: nat,
    pub phase: ScanPhase,
}

/// The paths, in walk order, of the files of a walk (path and size) that
/// are not empty.
pub open spec fn nonempty_paths(files: Seq<(Seq<char>, u64)>) -> Seq<Seq<char>>
    decreases files.len(),
{
    if files.len() == 0 {
        seq![]
    } else {
        let rest = nonempty_paths(files.drop_last());
        if files.last().1 > 0 {
            rest.push(files.last().0)
        } else {
            rest
        }
    }
}

pub open spec fn walk_view(v: Seq<(String, u64)>) -> Seq<(Seq<char>, u64)> {
    v.map_values(|f: (String, u64)| (f.0@, f.1))
}

fn nonempty_walked(walk: &Vec<(String, u64)>) -> (res: Vec<String>)
    ensures
        strings_view(res@) == nonempty_paths(walk_view(walk@)),
{
    let mut res: Vec<String> = Vec::new();
    let mut i: usize = 0;
    while i < walk.len()
        invariant
            i <= walk.len(),
            strings_view(res@) == nonempty_paths(walk_view(walk@).take(i as int)),
        decreases walk.len() - i,
    {
        let ghost before = res@;
        proof {
            let t = walk_view(walk@).take(i + 1);
            assert(t.drop_last() =~= walk_view(walk@).take(i as int));
            assert(t.last() == (walk@[i as int].0@, walk@[i as int].1));
        }
        if walk[i].1 > 0 {
            res.push(owned(walk[i].0.as_str()));
            assert(strings_view(res@) =~= strings_view(before).push(walk@[i as int].0@));
        }
        i += 1;
    }
    assert(walk_view(walk@).take(walk.len() as int) =~= walk_view(walk@));
    res
}

pub open spec fn strings_view(v: Seq<String>) -> Seq<Seq<char>> {
    v.map_values(|s: String| s@)
}

impl View for ScanSession {
    type V = ScanSessionView;

    closed spec fn view(&self) -> ScanSessionView {
        ScanSessionView {
            root_id: self.root_id@,
            pending: keyed(items_view(self.pending@)),
            walked: strings_view(self.walked@),
            new_items: self.new_items as nat,
            changed_items: self.changed_items as nat,
            skipped_items: self.skipped_items as nat,
            files_scanned: self.files_scanned as nat,
            phase: self.phase,
        }
    }
}

/// Whether a file of `size` bytes and modification time `mtime` differs
/// from what is recorded for a cataloged item.
pub open spec fn differs(k: KnownItemView, size: u64, mtime: Option<Seq<char>>) -> bool {
    k.size_bytes as u64 != size || k.mtime_utc != mtime
}

/// Taking up the next scanned file, at `path` below the root: an empty file
/// is skipped; a cataloged path is settled (refreshed if its size or time
/// changed, marked present again if it was missing, else left alone); any
/// other file is looked up by content.
pub open spec fn begin_effect(v: ScanSessionView, path: Seq<char>, size: u64, mtime: Option<Seq<char>>) -> (
    ScanSessionView,
    FileStepView,
) {
    let v1 = ScanSessionView { files_scanned: v.files_scanned + 1, ..v };
    if size == 0 {
        (ScanSessionView { skipped_items: v.skipped_items + 1, ..v1 }, FileStepView::Skipped)
    } else if v.pending.contains_key(path) {
        let k = v.pending[path];
        let v2 = ScanSessionView { pending: v.pending.remove(path), ..v1 };
        if differs(k, size, mtime) {
            (
                ScanSessionView {
                    changed_items: v.changed_items + 1,
                    phase: ScanPhase::Processing,
                    ..v2
                },
                FileStepView::Refresh(k.id),
            )
        } else if k.metadata_status == "missing"@ {
            (v2, FileStepView::Reappeared(k.id))
        } else {
            (v2, FileStepView::Unchanged)
        }
    } else {
        (ScanSessionView { phase: ScanPhase::AwaitLookup, ..v1 }, FileStepView::Lookup)
    }
}

/// Settling a file that matched no cataloged path, given whether it could be
/// fingerprinted and the item of this root with the same content, if any, as
/// `(id, relative_path)`.  That item is the file's former self, moved here,
/// only if no non-empty file the walk found is at its own path (it is
/// missing); otherwise the file is new.
pub open spec fn settle_effect(
    v: ScanSessionView,
    fingerprinted: bool,
    same_content: Option<(Seq<char>, Seq<char>)>,
) -> (ScanSessionView, FileStepView) {
    if !fingerprinted {
        (
            ScanSessionView { skipped_items: v.skipped_items + 1, phase: ScanPhase::Idle, ..v },
            FileStepView::Skipped,
        )
    } else {
        match same_content {
            Some((id, p)) => if v.pending.contains_key(p) && !v.walked.contains(p) {
                (
                    ScanSessionView {
                        pending: v.pending.remove(p),
                        changed_items: v.changed_items + 1,
                        phase: ScanPhase::Processing,
                        ..v
                    },
                    FileStepView::Moved(id),
                )
            } else {
                (
                    ScanSessionView { new_items: v.new_items + 1, phase: ScanPhase::Processing, ..v },
                    FileStepView::New,
                )
            },
            None => (
                ScanSessionView { new_items: v.new_items + 1, phase: ScanPhase::Processing, ..v },
                FileStepView::New,
            ),
        }
    }
}

pub open spec fn pair_view(p: Option<(String, String)>) -> Option<(Seq<char>, Seq<char>)> {
    match p {
        Some((a, b)) => Some((a@, b@)),
        None => None,
    }
}

fn walked_contains(walked: &Vec<String>, p: &str) -> (res: bool)
    ensures
        res == strings_view(walked@).contains(p@),
{
    let mut i: usize = 0;
    while i < walked.len()
        invariant
            i <= walked.len(),
            forall|j: int| 0 <= j < i ==> walked@[j]@ != p@,
        decreases walked.len() - i,
    {
        if str_eq(walked[i].as_str(), p) {
            assert(strings_view(walked@)[i as int] == p@);
            return true;
        }
        i += 1;
    }
    proof {
        if strings_view(walked@).contains(p@) {
            let j = choose|j: int| 0 <= j < walked@.len() && strings_view(walked@)[j] == p@;
            assert(walked@[j]@ == p@);
        }
    }
    false
}

impl ScanSession {
    /// The session's invariant: pending paths are distinct, and each scanned
    /// file has added at most one to each counter (the file at hand has yet
    /// to add to the counters it may still reach).
    pub closed spec fn wf(&self) -> bool {
        let f = self.files_scanned;
        &&& unique_paths(items_view(self.pending@))
        &&& match self.phase {
            ScanPhase::Idle => {
                &&& self.new_items <= f
                &&& self.changed_items <= f
                &&& self.skipped_items <= f
            },
            ScanPhase::AwaitLookup => {
                &&& self.new_items + 1 <= f
                &&& self.changed_items + 1 <= f
                &&& self.skipped_items + 1 <= f
            },
            ScanPhase::Processing => {
                &&& self.new_items <= f
                &&& self.changed_items <= f
                &&& self.skipped_items + 1 <= f
            },
        }
    }

    /// A scan of root `root_id` whose cataloged items are `items`, over a
    /// walk that found media files with these relative paths and sizes.
    pub fn new(root_id: String, items: Vec<KnownItem>, walk: Vec<(String, u64)>) -> (res: ScanSession)
        ensures
            res.wf(),
            res@.root_id == root_id@,
            res@.pending == keyed(items_view(items@)),
            res@.walked == nonempty_paths(walk_view(walk@)),
            res@.new_items == 0,
            res@.changed_items == 0,
            res@.skipped_items == 0,
            res@.files_scanned == 0,
            res@.phase == ScanPhase::Idle,
    {
        let mut pending: Vec<KnownItem> = Vec::new();
        let mut i: usize = 0;
        while i < items.len()
            invariant
                i <= items.len(),
                unique_paths(items_view(pending@)),
                keyed(items_view(pending@)) == keyed(items_view(items@).take(i as int)),
            decreases items.len() - i,
        {
            let item = copy_item(&items[i]);
            let ghost before = items_view(pending@);
            proof {
                let t = items_view(items@).take(i + 1);
                assert(t.drop_last() =~= items_view(items@).take(i as int));
                assert(t.last() == item@);
            }
            match position_of(&pending, items[i].relative_path.as_str()) {
                Some(p) => {
                    pending.set(p, item);
                    proof {
                        assert(items_view(pending@) =~= before.update(p as int, item@));
                        lemma_keyed_update(before, p as int, item@);
                    }
                },
                None => {
                    pending.push(item);
                    proof {
                        assert(items_view(pending@) =~= before.push(item@));
                        assert(items_view(pending@).drop_last() =~= before);
                    }
                },
            }
            i += 1;
        }
        assert(items_view(items@).take(items.len() as int) =~= items_view(items@));
        let walked = nonempty_walked(&walk);
        ScanSession {
            root_id,
            pending,
            walked,
            new_items: 0,
            changed_items: 0,
            skipped_items: 0,
            files_scanned: 0,
            phase: ScanPhase::Idle,
        }
    }

    /// How many files have been scanned so far.
    pub fn files_scanned(&self) -> (res: usize)
        ensures
            res == self@.files_scanned,
    {
        self.files_scanned
    }

    /// Takes up the next scanned media file, at `relative_path` below the root
    /// (see `begin_effect`).
    pub fn begin_file(&mut self, relative_path: &str, size_bytes: u64, mtime_utc: &Option<String>) -> (res: FileStep)
        requires
            old(self).wf(),
            old(self)@.phase == ScanPhase::Idle,
            old(self)@.files_scanned < usize::MAX,
        ensures
            final(self).wf(),
            (final(self)@, res@) == begin_effect(old(self)@, relative_path@, size_bytes, opt_view(*mtime_utc)),
    {
        self.files_scanned = self.files_scanned + 1;
        if size_bytes == 0 {
            self.skipped_items = self.skipped_items + 1;
            return FileStep::Skipped;
        }
        let ghost before = items_view(self.pending@);
        match position_of(&self.pending, relative_path) {
            Some(p) => {
                proof {
                    lemma_keyed_present(before, p as int);
                    lemma_keyed_remove(before, p as int);
                }
                let k = self.pending.remove(p);
                assert(items_view(self.pending@) =~= before.remove(p as int));
                if k.size_bytes as u64 != size_bytes || !opt_eq(&k.mtime_utc, mtime_utc) {
                    self.changed_items = self.changed_items + 1;
                    self.phase = ScanPhase::Processing;
                    FileStep::Refresh(k.id)
                } else if str_eq(k.metadata_status.as_str(), "missing") {
                    FileStep::Reappeared(k.id)
                } else {
                    FileStep::Unchanged
                }
            },
            None => {
                proof {
                    lemma_keyed_absent(before, relative_path@);
                }
                self.phase = ScanPhase::AwaitLookup;
                FileStep::Lookup
            },
        }
    }

    /// Settles a file that matched no cataloged path (see `settle_effect`).
    pub fn settle_lookup(&mut self, fingerprinted: bool, same_content: Option<(String, String)>) -> (res: FileStep)
        requires
            old(self).wf(),
            old(self)@.phase == ScanPhase::AwaitLookup,
        ensures
            final(self).wf(),
            (final(self)@, res@) == settle_effect(old(self)@, fingerprinted, pair_view(same_content)),
    {
        if !fingerprinted {
            self.skipped_items = self.skipped_items + 1;
            self.phase = ScanPhase::Idle;
            return FileStep::Skipped;
        }
        self.phase = ScanPhase::Processing;
        let ghost before = items_view(self.pending@);
        match same_content {
            Some((id, p)) => {
                if walked_contains(&self.walked, p.as_str()) {
                    self.new_items = self.new_items + 1;
                    return FileStep::New;
                }
                match position_of(&self.pending, p.as_str()) {
                    Some(i) => {
                        proof {
                            lemma_keyed_present(before, i as int);
                            lemma_keyed_remove(before, i as int);
                        }
                        self.pending.remove(i);
                        assert(items_view(self.pending@) =~= before.remove(i as int));
                        self.changed_items = self.changed_items + 1;
                        FileStep::Moved(id)
                    },
                    None => {
                        proof {
                            lemma_keyed_absent(before, p@);
                        }
                        self.new_items = self.new_items + 1;
                        FileStep::New
                    },
                }
            },
            None => {
                self.new_items = self.new_items + 1;
                FileStep::New
            },
        }
    }

    /// Records how (re)cataloging the current file went: a file that could not
    /// be fingerprinted again counts as skipped as well.
    pub fn finish_file(&mut self, fingerprinted: bool)
        requires
            old(self).wf(),
            old(self)@.phase == ScanPhase::Processing,
        ensures
            final(self).wf(),
            final(self)@ == (ScanSessionView {
                skipped_items: old(self)@.skipped_items + if fingerprinted { 0nat } else { 1nat },
                phase: ScanPhase::Idle,
                ..old(self)@
            }),
    {
        if !fingerprinted {
            self.skipped_items = self.skipped_items + 1;
        }
        self.phase = ScanPhase::Idle;
    }

    /// Ends the scan: the totals, and the ids of the cataloged items that no
    /// scanned file matched (now missing).
    pub fn finish(self) -> (res: (ScanCompleteEvent, Vec<String>))
        requires
            self.wf(),
            self@.phase == ScanPhase::Idle,
        ensures
            res.0.root_id@ == self@.root_id,
            res.0.new_items == self@.new_items,
            res.0.changed_items == self@.changed_items,
            res.0.skipped_items == self@.skipped_items,
            res.0.missing_items == self@.pending.len(),
            lists_ids(res.1@.map_values(|s: String| s@), self@.pending),
    {
        let ids = pending_ids(&self.pending);
        proof {
            lemma_keyed_finite(items_view(self.pending@));
        }
        let event = ScanCompleteEvent {
            root_id: self.root_id,
            new_items: self.new_items,
            changed_items: self.changed_items,
            missing_items: self.pending.len(),
            skipped_items: self.skipped_items,
        };
        (event, ids)
    }
}

/// Taking up a run of scanned files one after another.
pub open spec fn begin_all(v: ScanSessionView, files: Seq<(Seq<char>, u64, Option<Seq<char>>)>) -> (
    ScanSessionView,
    Seq<FileStepView>,
)
    decreases files.len(),
{
    if files.len() == 0 {
        (v, seq![])
    } else {
        let prev = begin_all(v, files.drop_last());
        let f = files.last();
        let next = begin_effect(prev.0, f.0, f.1, f.2);
        (next.0, prev.1.push(next.1))
    }
}

/// The file is empty, or it is cataloged with the same size and time and is
/// not marked missing.
pub open spec fn unchanged_file(v: ScanSessionView, f: (Seq<char>, u64, Option<Seq<char>>)) -> bool {
    ||| f.1 == 0
    ||| {
        &&& v.pending.contains_key(f.0)
        &&& !differs(v.pending[f.0], f.1, f.2)
        &&& v.pending[f.0].metadata_status != "missing"@
    }
}

/// How many of the files are empty.
pub open spec fn empty_count(files: Seq<(Seq<char>, u64, Option<Seq<char>>)>) -> nat
    decreases files.len(),
{
    if files.len() == 0 {
        0
    } else {
        empty_count(files.drop_last()) + if files.last().1 == 0 { 1nat } else { 0nat }
    }
}

/// Some non-empty file of the run is at path `k`.
pub open spec fn has_nonempty_file(files: Seq<(Seq<char>, u64, Option<Seq<char>>)>, k: Seq<char>) -> bool {
    exists|i: int| 0 <= i < files.len() && #[trigger] files[i].0 == k && files[i].1 > 0
}

/// A rescan of files that are all empty or cataloged, unchanged and present
/// settles every empty one as `Skipped` and every other one as `Unchanged`:
/// nothing is new or changed, nothing is to be written, only the empty files
/// are counted as skipped, and exactly the items of the non-empty files
/// leave the pending set.
pub proof fn law_rescan_unchanged(v: ScanSessionView, files: Seq<(Seq<char>, u64, Option<Seq<char>>)>)
    requires
        v.phase == ScanPhase::Idle,
        forall|i: int, j: int| 0 <= i < j < files.len() ==> files[i].0 != files[j].0,
        forall|i: int| 0 <= i < files.len() ==> unchanged_file(v, #[trigger] files[i]),
    ensures
        begin_all(v, files).1.len() == files.len(),
        forall|i: int|
            0 <= i < files.len() ==> #[trigger] begin_all(v, files).1[i] == if files[i].1 == 0 {
                FileStepView::Skipped
            } else {
                FileStepView::Unchanged
            },
        begin_all(v, files).0.new_items == v.new_items,
        begin_all(v, files).0.changed_items == v.changed_items,
        begin_all(v, files).0.skipped_items == v.skipped_items + empty_count(files),
        begin_all(v, files).0.files_scanned == v.files_scanned + files.len(),
        begin_all(v, files).0.phase == ScanPhase::Idle,
        forall|k: Seq<char>| #[trigger] begin_all(v, files).0.pending.contains_key(k) <==> (
            v.pending.contains_key(k) && !has_nonempty_file(files, k)),
        forall|k: Seq<char>| #[trigger] begin_all(v, files).0.pending.contains_key(k) ==> begin_all(
            v,
            files,
        ).0.pending[k] == v.pending[k],
    decreases files.len(),
{
    if files.len() > 0 {
        let init = files.drop_last();
        assert forall|i: int| 0 <= i < init.len() implies unchanged_file(v, #[trigger] init[i]) by {
            assert(init[i] == files[i]);
        }
        law_rescan_unchanged(v, init);
        let w0 = begin_all(v, init).0;
        let f = files.last();
        assert(unchanged_file(v, files[files.len() - 1]));
        assert(!has_nonempty_file(init, f.0)) by {
            if has_nonempty_file(init, f.0) {
                let i = choose|i: int| 0 <= i < init.len() && #[trigger] init[i].0 == f.0 && init[i].1 > 0;
                assert(files[i].0 == files[files.len() - 1].0);
            }
        }
        if f.1 > 0 {
            assert(w0.pending.contains_key(f.0));
        }
        let w = begin_all(v, files).0;
        assert forall|k: Seq<char>| #[trigger] w.pending.contains_key(k) <==> (v.pending.contains_key(k)
            && !has_nonempty_file(files, k)) by {
            if has_nonempty_file(files, k) && (k != f.0 || f.1 == 0) {
                let i = choose|i: int| 0 <= i < files.len() && #[trigger] files[i].0 == k && files[i].1 > 0;
                if i == files.len() - 1 {
                    assert(files[i] == f);
                }
                assert(init[i].0 == k);
            }
            if has_nonempty_file(init, k) {
                let i = choose|i: int| 0 <= i < init.len() && #[trigger] init[i].0 == k && init[i].1 > 0;
                assert(files[i].0 == k);
            }
            assert(files[files.len() - 1].0 == f.0);
        }
        assert forall|i: int| 0 <= i < files.len() implies #[trigger] begin_all(v, files).1[i] == if files[i].1
            == 0 {
            FileStepView::Skipped
        } else {
            FileStepView::Unchanged
        } by {
            if i < init.len() {
                assert(begin_all(v, files).1[i] == begin_all(v, init).1[i]);
                assert(init[i] == files[i]);
            }
        }
    }
}

/// Only missing items are move sources: a same-content item at whose own
/// path the walk found a non-empty file is left in place, and the file is
/// cataloged as new.
pub proof fn law_present_item_not_moved(v: ScanSessionView, id: Seq<char>, p: Seq<char>)
    requires
        v.walked.contains(p),
    ensures
        settle_effect(v, true, Some((id, p))).1 == FileStepView::New,
        settle_effect(v, true, Some((id, p))).0.pending == v.pending,
        settle_effect(v, true, Some((id, p))).0.new_items == v.new_items + 1,
        settle_effect(v, true, Some((id, p))).0.changed_items == v.changed_items,
{
}

/// `ids` lists the ids of the items in `m`, one entry per item.
pub open spec fn lists_ids(ids: Seq<Seq<char>>, m: Map<Seq<char>, KnownItemView>) -> bool {
    &&& ids.len() == m.len()
    &&& forall|k: Seq<char>| #[trigger] m.contains_key(k) ==> ids.contains(m[k].id)
    &&& forall|i: int| 0 <= i < ids.len() ==> #[trigger] is_id_in(m, ids[i])
}

/// Some item of `m` has this id.
pub open spec fn is_id_in(m: Map<Seq<char>, KnownItemView>, id: Seq<char>) -> bool {
    exists|k: Seq<char>| #[trigger] m.contains_key(k) && m[k].id == id
}

fn pending_ids(v: &Vec<KnownItem>) -> (ids: Vec<String>)
    requires
        unique_paths(items_view(v@)),
    ensures
        lists_ids(ids@.map_values(|s: String| s@), keyed(items_view(v@))),
{
    let ghost pv = items_view(v@);
    let mut ids: Vec<String> = Vec::new();
    let mut i: usize = 0;
    while i < v.len()
        invariant
            pv == items_view(v@),
            i <= v.len(),
            ids@.len() == i,
            forall|j: int| 0 <= j < i ==> #[trigger] ids@[j]@ == pv[j].id,
        decreases v.len() - i,
    {
        ids.push(owned(v[i].id.as_str()));
        i += 1;
    }
    proof {
        let iv = ids@.map_values(|s: String| s@);
        lemma_keyed_finite(pv);
        assert forall|k: Seq<char>| #[trigger] keyed(pv).contains_key(k) implies iv.contains(keyed(pv)[k].id) by {
            lemma_keyed_contains(pv, k);
            let i = choose|i: int| 0 <= i < pv.len() && pv[i].relative_path == k;
            lemma_keyed_present(pv, i);
            assert(iv[i] == keyed(pv)[k].id);
        }
        assert forall|i: int| 0 <= i < iv.len() implies #[trigger] is_id_in(keyed(pv), iv[i]) by {
            lemma_keyed_present(pv, i);
            assert(keyed(pv).contains_key(pv[i].relative_path));
            assert(iv[i] == keyed(pv)[pv[i].relative_path].id);
        }
    }
    ids
}

} // verus!
