//! Keeping the library in step with its folders when files come, go or change their names.

use vstd::prelude::*;

use crate::models::{clone_texts, texts};
use crate::paths::{
    among_paths, is_among_paths, is_same_path, lies_within, ordered_ids, ordered_paths, parts_of,
    path_parts, same_path, sort_ids, sort_paths, within,
};

verus! {

// ---------------------------------------------------------------- events

/// What happened to files.
#[derive(Clone, Copy, Debug, PartialEq, Eq, Structural)]
pub enum ChangeKind {
    Access,
    Any,
    Create,
    Remove,
    /// A new name, with both names known.
    RenameBoth,
    /// A new name, with one name known.
    RenamePart,
    /// Another change.
    Modify,
}

/// A change of files as it is reported.
pub struct RawChange {
    pub kind: ChangeKind,
    pub paths: Vec<String>,
}

#[verifier::ext_equal]
pub struct RawModel {
    pub kind: ChangeKind,
    pub paths: Seq<Seq<char>>,
}

impl View for RawChange {
    type V = RawModel;

    open spec fn view(&self) -> RawModel {
        RawModel { kind: self.kind, paths: texts(self.paths@) }
    }
}

pub open spec fn raw_views(v: Seq<RawChange>) -> Seq<RawModel> {
    v.map_values(|c: RawChange| c@)
}

/// How long no change may come before the changes are looked at, in microseconds. A large file is
/// written in many steps, and half of it must not be read.
pub const SETTLE_TIME: u64 = 900_000;

/// The folders that are watched, and those that are still to be scanned once.
pub struct WatchList {
    pub watched: Vec<String>,
    pub initial_scan: Vec<String>,
}

#[verifier::ext_equal]
pub struct WatchModel {
    pub watched: Seq<Seq<char>>,
    pub initial_scan: Seq<Seq<char>>,
}

impl View for WatchList {
    type V = WatchModel;

    open spec fn view(&self) -> WatchModel {
        WatchModel { watched: texts(self.watched@), initial_scan: texts(self.initial_scan@) }
    }
}

/// The paths of a list other than this one.
pub open spec fn other_paths(list: Seq<Seq<char>>, path: Seq<char>) -> Seq<Seq<char>>
    decreases list.len(),
{
    if list.len() == 0 {
        Seq::empty()
    } else if same_path(list.last(), path) {
        other_paths(list.drop_last(), path)
    } else {
        other_paths(list.drop_last(), path).push(list.last())
    }
}

/// The watched folders that are no roots any more.
pub open spec fn stale_paths(watched: Seq<Seq<char>>, current: Seq<Seq<char>>) -> Seq<Seq<char>>
    decreases watched.len(),
{
    if watched.len() == 0 {
        Seq::empty()
    } else if among_paths(current, watched.last()) {
        stale_paths(watched.drop_last(), current)
    } else {
        stale_paths(watched.drop_last(), current).push(watched.last())
    }
}

fn without_path(list: &Vec<String>, path: &str) -> (r: Vec<String>)
    ensures
        texts(r@) == other_paths(texts(list@), path@),
{
    let ghost model = texts(list@);
    let mut r: Vec<String> = Vec::new();
    let mut i: usize = 0;
    assert(texts(r@) =~= other_paths(model.take(0), path@));
    while i < list.len()
        invariant
            i <= list@.len(),
            model == texts(list@),
            texts(r@) == other_paths(model.take(i as int), path@),
        decreases list@.len() - i,
    {
        assert(model.take(i + 1).drop_last() =~= model.take(i as int));
        assert(model.take(i + 1).last() == list@[i as int]@);
        if !is_same_path(list[i].as_str(), path) {
            let ghost before = texts(r@);
            r.push(list[i].clone());
            assert(texts(r@) =~= before.push(list@[i as int]@));
        }
        i += 1;
    }
    assert(model.take(i as int) =~= model);
    r
}

impl WatchList {
    pub fn new() -> (r: Self)
        ensures
            r@ == (WatchModel { watched: Seq::empty(), initial_scan: Seq::empty() }),
    {
        let r = WatchList { watched: Vec::new(), initial_scan: Vec::new() };
        assert(r@.watched =~= Seq::<Seq<char>>::empty());
        assert(r@.initial_scan =~= Seq::<Seq<char>>::empty());
        r
    }

    /// The watched folders that are no roots any more.
    pub fn stale(&self, current: &Vec<String>) -> (r: Vec<String>)
        ensures
            texts(r@) == stale_paths(self@.watched, texts(current@)),
    {
        let ghost model = self@.watched;
        let mut r: Vec<String> = Vec::new();
        let mut i: usize = 0;
        assert(texts(r@) =~= stale_paths(model.take(0), texts(current@)));
        while i < self.watched.len()
            invariant
                i <= self.watched@.len(),
                model == texts(self.watched@),
                texts(r@) == stale_paths(model.take(i as int), texts(current@)),
            decreases self.watched@.len() - i,
        {
            assert(model.take(i + 1).drop_last() =~= model.take(i as int));
            assert(model.take(i + 1).last() == self.watched@[i as int]@);
            if !is_among_paths(current, self.watched[i].as_str()) {
                let ghost before = texts(r@);
                r.push(self.watched[i].clone());
                assert(texts(r@) =~= before.push(self.watched@[i as int]@));
            }
            i += 1;
        }
        assert(model.take(i as int) =~= model);
        r
    }

    /// A folder is not watched any more.
    pub fn forget(&mut self, old_root: &str)
        ensures
            final(self)@ == (WatchModel {
                watched: other_paths(old(self)@.watched, old_root@),
                initial_scan: other_paths(old(self)@.initial_scan, old_root@),
            }),
    {
        self.watched = without_path(&self.watched, old_root);
        self.initial_scan = without_path(&self.initial_scan, old_root);
    }

    /// Whether a root is not watched yet.
    pub fn is_new(&self, root: &str) -> (r: bool)
        ensures
            r == !among_paths(self@.watched, root@),
    {
        !is_among_paths(&self.watched, root)
    }

    /// A root is watched from now on. At the start it is to be scanned too; one that was added
    /// later is being scanned already.
    pub fn begin_watching(&mut self, root: &str, scan_new_roots: bool)
        ensures
            final(self)@ == (WatchModel {
                watched: old(self)@.watched.push(root@),
                initial_scan: if scan_new_roots && !among_paths(old(self)@.initial_scan, root@) {
                    old(self)@.initial_scan.push(root@)
                } else {
                    old(self)@.initial_scan
                },
            }),
    {
        let ghost before = self@;
        self.watched.push(root.to_owned());
        assert(self@.watched =~= before.watched.push(root@));
        if scan_new_roots && !is_among_paths(&self.initial_scan, root) {
            self.initial_scan.push(root.to_owned());
            assert(self@.initial_scan =~= before.initial_scan.push(root@));
        }
    }

    /// Puts the watched folders in order.
    pub fn arrange(&mut self)
        ensures
            final(self)@ == (WatchModel {
                watched: ordered_paths(old(self)@.watched),
                ..old(self)@
            }),
    {
        self.watched = sort_paths(&self.watched);
    }
}

/// Collects changes until they settle.
pub struct ChangeBuffer {
    pub pending: Vec<RawChange>,
    /// When the last change came, in microseconds.
    pub last: Option<u64>,
}

#[verifier::ext_equal]
pub struct BufferModel {
    pub pending: Seq<RawModel>,
    pub last: Option<u64>,
}

impl View for ChangeBuffer {
    type V = BufferModel;

    open spec fn view(&self) -> BufferModel {
        BufferModel { pending: raw_views(self.pending@), last: self.last }
    }
}

impl BufferModel {
    pub open spec fn after_change(self, change: RawModel, now: u64) -> BufferModel {
        if change.kind == ChangeKind::Access {
            self
        } else {
            BufferModel { pending: self.pending.push(change), last: Some(now) }
        }
    }

    /// The last change is long enough ago.
    pub open spec fn settled(self, now: u64) -> bool {
        self.pending.len() > 0 && self.last is Some && now - self.last->0 >= SETTLE_TIME
    }
}

impl ChangeBuffer {
    pub fn new() -> (r: Self)
        ensures
            r@ == (BufferModel { pending: Seq::empty(), last: None }),
    {
        let r = ChangeBuffer { pending: Vec::new(), last: None };
        assert(r@.pending =~= Seq::<RawModel>::empty());
        r
    }

    /// Takes in a change; that a file was only read does not count.
    pub fn receive(&mut self, change: RawChange, now: u64)
        ensures
            final(self)@ == old(self)@.after_change(change@, now),
    {
        if change.kind != ChangeKind::Access {
            let ghost before = self@;
            let ghost entry = change@;
            self.pending.push(change);
            assert(self@.pending =~= before.pending.push(entry));
            self.last = Some(now);
        }
    }

    /// Queues the first scan, once someone listens for its result.
    pub fn queue_initial_scan(&mut self, list: &mut WatchList, subscribers: usize, now: u64)
        ensures
            subscribers > 0 && old(list)@.initial_scan.len() > 0 ==> final(self)@ == old(
                self,
            )@.after_change(
                RawModel { kind: ChangeKind::Any, paths: old(list)@.initial_scan },
                now,
            ) && final(list)@ == (WatchModel { initial_scan: Seq::empty(), ..old(list)@ }),
            !(subscribers > 0 && old(list)@.initial_scan.len() > 0) ==> final(self)@ == old(self)@
                && final(list)@ == old(list)@,
    {
        assert(list@.initial_scan.len() == list.initial_scan@.len());
        if subscribers > 0 && list.initial_scan.len() > 0 {
            let paths = clone_texts(&list.initial_scan);
            list.initial_scan = Vec::new();
            assert(list@.initial_scan =~= Seq::<Seq<char>>::empty());
            self.receive(RawChange { kind: ChangeKind::Any, paths }, now);
        }
    }

    /// The changes, once they have settled.
    pub fn take_settled(&mut self, now: u64) -> (r: Option<Vec<RawChange>>)
        ensures
            match r {
                Some(batch) => old(self)@.settled(now) && raw_views(batch@) == old(self)@.pending
                    && final(self)@ == (BufferModel { pending: Seq::empty(), last: None }),
                None => !old(self)@.settled(now) && final(self)@ == old(self)@,
            },
    {
        assert(self@.pending.len() == self.pending@.len());
        let settled: bool = match self.last {
            Some(at) => now >= at && now - at >= SETTLE_TIME,
            None => false,
        };
        if !settled || self.pending.len() == 0 {
            return None;
        }
        self.last = None;
        let mut batch: Vec<RawChange> = Vec::new();
        std::mem::swap(&mut batch, &mut self.pending);
        assert(self@.pending =~= Seq::<RawModel>::empty());
        Some(batch)
    }
}

// ---------------------------------------------------------------- what is known of paths

/// What is known of a path.
pub struct PathFacts {
    pub path: String,
    pub exists: bool,
    pub is_folder: bool,
    pub is_file: bool,
    /// Its name is that of a media file.
    pub is_media: bool,
}

#[verifier::ext_equal]
pub struct FactModel {
    pub path: Seq<char>,
    pub exists: bool,
    pub is_folder: bool,
    pub is_file: bool,
    pub is_media: bool,
}

impl View for PathFacts {
    type V = FactModel;

    open spec fn view(&self) -> FactModel {
        FactModel {
            path: self.path@,
            exists: self.exists,
            is_folder: self.is_folder,
            is_file: self.is_file,
            is_media: self.is_media,
        }
    }
}

pub open spec fn fact_views(v: Seq<PathFacts>) -> Seq<FactModel> {
    v.map_values(|f: PathFacts| f@)
}

/// A change, with what is known of its paths.
pub struct Change {
    pub kind: ChangeKind,
    pub paths: Vec<PathFacts>,
}

#[verifier::ext_equal]
pub struct ChangeModel {
    pub kind: ChangeKind,
    pub paths: Seq<FactModel>,
}

impl View for Change {
    type V = ChangeModel;

    open spec fn view(&self) -> ChangeModel {
        ChangeModel { kind: self.kind, paths: fact_views(self.paths@) }
    }
}

pub open spec fn change_views(v: Seq<Change>) -> Seq<ChangeModel> {
    v.map_values(|c: Change| c@)
}

/// A root of the library, and whether it is there and can be read.
pub struct WatchedRoot {
    pub path: String,
    pub readable: bool,
}

pub open spec fn root_views(v: Seq<WatchedRoot>) -> Seq<(Seq<char>, bool)> {
    v.map_values(|r: WatchedRoot| (r.path@, r.readable))
}

/// A path lies in the folder where the library keeps its own notes.
pub open spec fn internal_path(path: Seq<char>) -> bool {
    path_parts(path).contains(".kdj"@)
}

pub fn is_internal_metadata(path: &str) -> (r: bool)
    ensures
        r == internal_path(path@),
{
    let parts = parts_of(path);
    crate::paths::in_list(&parts, ".kdj")
}

/// The first root that a path lies in, counted from `from`.
pub open spec fn root_from(path: Seq<char>, roots: Seq<(Seq<char>, bool)>, from: nat) -> Option<int>
    decreases roots.len() - from,
{
    if from >= roots.len() {
        None
    } else if lies_within(path, roots[from as int].0) {
        Some(from as int)
    } else {
        root_from(path, roots, from + 1)
    }
}

/// The root that a path lies in.
pub open spec fn root_of(path: Seq<char>, roots: Seq<(Seq<char>, bool)>) -> Option<
    (Seq<char>, bool),
> {
    match root_from(path, roots, 0) {
        Some(i) => Some(roots[i]),
        None => None,
    }
}

/// The root that a path lies in.
pub fn containing_root<'a>(path: &str, roots: &'a Vec<WatchedRoot>) -> (r: Option<&'a WatchedRoot>)
    ensures
        match r {
            Some(root) => root_of(path@, root_views(roots@)) == Some((root.path@, root.readable)),
            None => root_of(path@, root_views(roots@)) is None,
        },
{
    let ghost model = root_views(roots@);
    let mut i: usize = 0;
    while i < roots.len()
        invariant
            i <= roots@.len(),
            model == root_views(roots@),
            root_from(path@, model, 0) == root_from(path@, model, i as nat),
        decreases roots@.len() - i,
    {
        assert(model[i as int] == (roots@[i as int].path@, roots@[i as int].readable));
        if within(path, roots[i].path.as_str()) {
            return Some(&roots[i]);
        }
        i += 1;
    }
    None
}

/// A path that is gone was really removed: its root is another path, and can be read.
pub open spec fn removable(path: Seq<char>, roots: Seq<(Seq<char>, bool)>) -> bool {
    match root_of(path, roots) {
        Some(root) => !same_path(path, root.0) && root.1,
        None => false,
    }
}

/// Whether a path that is gone was really removed. When a drive is unplugged, everything on it is
/// gone, and nothing was removed.
pub fn safe_to_remove(path: &str, roots: &Vec<WatchedRoot>) -> (r: bool)
    ensures
        r == removable(path@, root_views(roots@)),
{
    match containing_root(path, roots) {
        Some(root) => !is_same_path(path, root.path.as_str()) && root.readable,
        None => false,
    }
}

pub open spec fn renames(change: ChangeModel) -> bool {
    change.kind == ChangeKind::RenameBoth && change.paths.len() >= 2
}

/// Whether a change names both the old and the new path.
pub fn rename_pair(change: &Change) -> (r: bool)
    ensures
        r == renames(change@),
{
    assert(change@.paths.len() == change.paths@.len());
    change.kind == ChangeKind::RenameBoth && change.paths.len() >= 2
}

pub open spec fn destroys(kind: ChangeKind) -> bool {
    kind == ChangeKind::Remove || kind == ChangeKind::RenameBoth || kind == ChangeKind::RenamePart
}

/// Whether a change may have taken a file away.
pub fn destructive_event(change: &Change) -> (r: bool)
    ensures
        r == destroys(change@.kind),
{
    change.kind == ChangeKind::Remove || change.kind == ChangeKind::RenameBoth || change.kind
        == ChangeKind::RenamePart
}

// ---------------------------------------------------------------- new names

/// A new name under which tracks go on.
pub struct RenameTask {
    pub old_path: String,
    pub new_path: String,
    /// A folder: the paths of all tracks below it change.
    pub folder: bool,
}

#[verifier::ext_equal]
pub struct RenameModel {
    pub old_path: Seq<char>,
    pub new_path: Seq<char>,
    pub folder: bool,
}

impl View for RenameTask {
    type V = RenameModel;

    open spec fn view(&self) -> RenameModel {
        RenameModel { old_path: self.old_path@, new_path: self.new_path@, folder: self.folder }
    }
}

pub open spec fn rename_views(v: Seq<RenameTask>) -> Seq<RenameModel> {
    v.map_values(|t: RenameTask| t@)
}

pub open spec fn rename_of(change: ChangeModel, roots: Seq<(Seq<char>, bool)>) -> Option<
    RenameModel,
> {
    if !renames(change) {
        None
    } else {
        let from = change.paths[0];
        let to = change.paths[1];
        if internal_path(from.path) || internal_path(to.path) || !to.exists || root_of(
            to.path,
            roots,
        ) is None {
            None
        } else if to.is_media {
            Some(RenameModel { old_path: from.path, new_path: to.path, folder: false })
        } else if to.is_folder && removable(from.path, roots) {
            Some(RenameModel { old_path: from.path, new_path: to.path, folder: true })
        } else {
            None
        }
    }
}

pub open spec fn renames_of(changes: Seq<ChangeModel>, roots: Seq<(Seq<char>, bool)>) -> Seq<
    RenameModel,
>
    decreases changes.len(),
{
    if changes.len() == 0 {
        Seq::empty()
    } else {
        let before = renames_of(changes.drop_last(), roots);
        match rename_of(changes.last(), roots) {
            Some(t) => before.push(t),
            None => before,
        }
    }
}

fn rename_task(change: &Change, roots: &Vec<WatchedRoot>) -> (r: Option<RenameTask>)
    ensures
        match r {
            Some(t) => rename_of(change@, root_views(roots@)) == Some(t@),
            None => rename_of(change@, root_views(roots@)) is None,
        },
{
    if !rename_pair(change) {
        return None;
    }
    assert(change@.paths.len() == change.paths@.len());
    let from = &change.paths[0];
    let to = &change.paths[1];
    assert(change@.paths[0] == change.paths@[0]@ && change@.paths[1] == change.paths@[1]@);
    if is_internal_metadata(from.path.as_str()) || is_internal_metadata(to.path.as_str())
        || !to.exists {
        return None;
    }
    if containing_root(to.path.as_str(), roots).is_none() {
        return None;
    }
    if to.is_media {
        return Some(
            RenameTask { old_path: from.path.clone(), new_path: to.path.clone(), folder: false },
        );
    }
    if to.is_folder && safe_to_remove(from.path.as_str(), roots) {
        return Some(
            RenameTask { old_path: from.path.clone(), new_path: to.path.clone(), folder: true },
        );
    }
    None
}

/// The new names under which tracks keep what is known of them.
pub fn rename_tasks(changes: &Vec<Change>, roots: &Vec<WatchedRoot>) -> (r: Vec<RenameTask>)
    ensures
        rename_views(r@) == renames_of(change_views(changes@), root_views(roots@)),
{
    let ghost model = change_views(changes@);
    let ghost tops = root_views(roots@);
    let mut r: Vec<RenameTask> = Vec::new();
    let mut i: usize = 0;
    assert(rename_views(r@) =~= renames_of(model.take(0), tops));
    while i < changes.len()
        invariant
            i <= changes@.len(),
            model == change_views(changes@),
            tops == root_views(roots@),
            rename_views(r@) == renames_of(model.take(i as int), tops),
        decreases changes@.len() - i,
    {
        assert(model.take(i + 1).drop_last() =~= model.take(i as int));
        assert(model.take(i + 1).last() == changes@[i as int]@);
        if let Some(t) = rename_task(&changes[i], roots) {
            let ghost before = rename_views(r@);
            let ghost entry = t@;
            r.push(t);
            assert(rename_views(r@) =~= before.push(entry));
        }
        i += 1;
    }
    assert(model.take(i as int) =~= model);
    r
}

// ---------------------------------------------------------------- what is there and what is gone

/// What a path calls for.
pub enum PathStep {
    /// It does not belong to the library.
    Ignore,
    /// It belongs to the library; there is nothing to read or to forget.
    Note,
    Scan,
    /// The track with this path is forgotten; its file is gone.
    ForgetFile,
    /// The tracks below this path are forgotten.
    ForgetFolder,
}

pub open spec fn path_step(
    kind: ChangeKind,
    fact: FactModel,
    roots: Seq<(Seq<char>, bool)>,
    handled: Seq<Seq<char>>,
) -> PathStep {
    if internal_path(fact.path) || root_of(fact.path, roots) is None {
        PathStep::Ignore
    } else if fact.is_folder || (fact.is_file && fact.is_media) {
        PathStep::Scan
    } else if fact.exists || !destroys(kind) || among_paths(handled, fact.path) || !removable(
        fact.path,
        roots,
    ) {
        PathStep::Note
    } else if fact.is_media {
        PathStep::ForgetFile
    } else {
        PathStep::ForgetFolder
    }
}

fn step_for(
    change: &Change,
    fact: &PathFacts,
    roots: &Vec<WatchedRoot>,
    handled: &Vec<String>,
) -> (r: PathStep)
    ensures
        r == path_step(change@.kind, fact@, root_views(roots@), texts(handled@)),
{
    let path = fact.path.as_str();
    if is_internal_metadata(path) || containing_root(path, roots).is_none() {
        return PathStep::Ignore;
    }
    if fact.is_folder || (fact.is_file && fact.is_media) {
        return PathStep::Scan;
    }
    if fact.exists || !destructive_event(change) || is_among_paths(handled, path)
        || !safe_to_remove(path, roots) {
        return PathStep::Note;
    }
    if fact.is_media {
        PathStep::ForgetFile
    } else {
        PathStep::ForgetFolder
    }
}

/// What is gone.
pub struct ForgetTask {
    pub path: String,
    pub folder: bool,
}

/// What changes call for.
pub struct PathPlan {
    pub folder_changed: bool,
    pub scan_paths: Vec<String>,
    pub forget: Vec<ForgetTask>,
}

#[verifier::ext_equal]
pub struct PlanModel {
    pub folder_changed: bool,
    pub scan_paths: Seq<Seq<char>>,
    pub forget: Seq<(Seq<char>, bool)>,
}

pub open spec fn forget_views(v: Seq<ForgetTask>) -> Seq<(Seq<char>, bool)> {
    v.map_values(|t: ForgetTask| (t.path@, t.folder))
}

impl View for PathPlan {
    type V = PlanModel;

    open spec fn view(&self) -> PlanModel {
        PlanModel {
            folder_changed: self.folder_changed,
            scan_paths: texts(self.scan_paths@),
            forget: forget_views(self.forget@),
        }
    }
}

impl PlanModel {
    pub open spec fn with(self, path: Seq<char>, step: PathStep) -> PlanModel {
        match step {
            PathStep::Ignore => self,
            PathStep::Note => PlanModel { folder_changed: true, ..self },
            PathStep::Scan => PlanModel {
                folder_changed: true,
                scan_paths: self.scan_paths.push(path),
                ..self
            },
            PathStep::ForgetFile => PlanModel {
                folder_changed: true,
                forget: self.forget.push((path, false)),
                ..self
            },
            PathStep::ForgetFolder => PlanModel {
                folder_changed: true,
                forget: self.forget.push((path, true)),
                ..self
            },
        }
    }
}

pub open spec fn with_paths(
    plan: PlanModel,
    kind: ChangeKind,
    facts: Seq<FactModel>,
    roots: Seq<(Seq<char>, bool)>,
    handled: Seq<Seq<char>>,
) -> PlanModel
    decreases facts.len(),
{
    if facts.len() == 0 {
        plan
    } else {
        let before = with_paths(plan, kind, facts.drop_last(), roots, handled);
        before.with(facts.last().path, path_step(kind, facts.last(), roots, handled))
    }
}

pub open spec fn with_changes(
    changes: Seq<ChangeModel>,
    roots: Seq<(Seq<char>, bool)>,
    handled: Seq<Seq<char>>,
) -> PlanModel
    decreases changes.len(),
{
    if changes.len() == 0 {
        PlanModel { folder_changed: false, scan_paths: Seq::empty(), forget: Seq::empty() }
    } else {
        with_paths(
            with_changes(changes.drop_last(), roots, handled),
            changes.last().kind,
            changes.last().paths,
            roots,
            handled,
        )
    }
}

pub open spec fn plan_of(
    changes: Seq<ChangeModel>,
    roots: Seq<(Seq<char>, bool)>,
    handled: Seq<Seq<char>>,
) -> PlanModel {
    let plan = with_changes(changes, roots, handled);
    PlanModel { scan_paths: ordered_paths(plan.scan_paths), ..plan }
}

fn add_step(plan: &mut PathPlan, path: &str, step: PathStep)
    ensures
        final(plan)@ == old(plan)@.with(path@, step),
{
    let ghost before = plan@;
    match step {
        PathStep::Ignore => {},
        PathStep::Note => {
            plan.folder_changed = true;
        },
        PathStep::Scan => {
            plan.folder_changed = true;
            plan.scan_paths.push(path.to_owned());
            assert(plan@.scan_paths =~= before.scan_paths.push(path@));
        },
        PathStep::ForgetFile => {
            plan.folder_changed = true;
            plan.forget.push(ForgetTask { path: path.to_owned(), folder: false });
            assert(plan@.forget =~= before.forget.push((path@, false)));
        },
        PathStep::ForgetFolder => {
            plan.folder_changed = true;
            plan.forget.push(ForgetTask { path: path.to_owned(), folder: true });
            assert(plan@.forget =~= before.forget.push((path@, true)));
        },
    }
}

/// What is to be scanned and what is to be forgotten. `handled` holds the old names of tracks that
/// go on under a new one.
pub fn path_tasks(changes: &Vec<Change>, roots: &Vec<WatchedRoot>, handled: &Vec<String>) -> (r:
    PathPlan)
    ensures
        r@ == plan_of(change_views(changes@), root_views(roots@), texts(handled@)),
{
    let ghost model = change_views(changes@);
    let ghost tops = root_views(roots@);
    let ghost known = texts(handled@);
    let mut plan = PathPlan { folder_changed: false, scan_paths: Vec::new(), forget: Vec::new() };
    let mut i: usize = 0;
    assert(plan@ =~= with_changes(model.take(0), tops, known));
    while i < changes.len()
        invariant
            i <= changes@.len(),
            model == change_views(changes@),
            tops == root_views(roots@),
            known == texts(handled@),
            plan@ == with_changes(model.take(i as int), tops, known),
        decreases changes@.len() - i,
    {
        assert(model.take(i + 1).drop_last() =~= model.take(i as int));
        assert(model.take(i + 1).last() == changes@[i as int]@);
        let change = &changes[i];
        let ghost facts = change@.paths;
        let ghost start = plan@;
        let mut k: usize = 0;
        assert(facts.take(0) =~= Seq::<FactModel>::empty());
        while k < change.paths.len()
            invariant
                k <= change.paths@.len(),
                facts == fact_views(change.paths@),
                tops == root_views(roots@),
                known == texts(handled@),
                plan@ == with_paths(start, change@.kind, facts.take(k as int), tops, known),
            decreases change.paths@.len() - k,
        {
            assert(facts.take(k + 1).drop_last() =~= facts.take(k as int));
            assert(facts.take(k + 1).last() == change.paths@[k as int]@);
            let step = step_for(change, &change.paths[k], roots, handled);
            add_step(&mut plan, change.paths[k].path.as_str(), step);
            k += 1;
        }
        assert(facts.take(k as int) =~= facts);
        i += 1;
    }
    assert(model.take(i as int) =~= model);
    let scan_paths = sort_paths(&plan.scan_paths);
    PathPlan { folder_changed: plan.folder_changed, scan_paths, forget: plan.forget }
}

pub proof fn lemma_forget_is_safe(
    plan: PlanModel,
    kind: ChangeKind,
    facts: Seq<FactModel>,
    roots: Seq<(Seq<char>, bool)>,
    handled: Seq<Seq<char>>,
)
    requires
        forall|i: int|
            0 <= i < plan.forget.len() ==> removable(#[trigger] plan.forget[i].0, roots)
                && !among_paths(handled, plan.forget[i].0),
    ensures
        forall|i: int|
            0 <= i < with_paths(plan, kind, facts, roots, handled).forget.len() ==> removable(
                #[trigger] with_paths(plan, kind, facts, roots, handled).forget[i].0,
                roots,
            ) && !among_paths(handled, with_paths(plan, kind, facts, roots, handled).forget[i].0),
    decreases facts.len(),
{
    if facts.len() > 0 {
        lemma_forget_is_safe(plan, kind, facts.drop_last(), roots, handled);
        let before = with_paths(plan, kind, facts.drop_last(), roots, handled);
        let after = with_paths(plan, kind, facts, roots, handled);
        assert forall|i: int| 0 <= i < after.forget.len() implies removable(
            #[trigger] after.forget[i].0,
            roots,
        ) && !among_paths(handled, after.forget[i].0) by {
            if i < before.forget.len() {
                assert(after.forget[i] == before.forget[i]);
            }
        }
    }
}

/// Losing a root never erases records: what is forgotten lies below a root that can be read and is
/// not that root itself. Nor is anything forgotten that goes on under a new name.
pub proof fn losing_a_root_erases_nothing(
    changes: Seq<ChangeModel>,
    roots: Seq<(Seq<char>, bool)>,
    handled: Seq<Seq<char>>,
)
    ensures
        forall|i: int|
            0 <= i < plan_of(changes, roots, handled).forget.len() ==> removable(
                #[trigger] plan_of(changes, roots, handled).forget[i].0,
                roots,
            ) && !among_paths(handled, plan_of(changes, roots, handled).forget[i].0),
    decreases changes.len(),
{
    if changes.len() > 0 {
        let front = changes.drop_last();
        losing_a_root_erases_nothing(front, roots, handled);
        let before = with_changes(front, roots, handled);
        assert(plan_of(front, roots, handled).forget == before.forget);
        assert forall|i: int| 0 <= i < before.forget.len() implies removable(
            #[trigger] before.forget[i].0,
            roots,
        ) && !among_paths(handled, before.forget[i].0) by {
            assert(plan_of(front, roots, handled).forget[i] == before.forget[i]);
        }
        lemma_forget_is_safe(before, changes.last().kind, changes.last().paths, roots, handled);
        let after = with_changes(changes, roots, handled);
        assert(plan_of(changes, roots, handled).forget == after.forget);
    }
}

// ---------------------------------------------------------------- the report

/// What came of it.
pub struct ReconcileReport {
    pub updated_ids: Vec<i64>,
    pub removed_ids: Vec<i64>,
    /// The tracks that are new.
    pub analysis_ids: Vec<i64>,
    pub folder_changed: bool,
}

#[verifier::ext_equal]
pub struct ReportModel {
    pub updated_ids: Seq<i64>,
    pub removed_ids: Seq<i64>,
    pub analysis_ids: Seq<i64>,
    pub folder_changed: bool,
}

impl View for ReconcileReport {
    type V = ReportModel;

    open spec fn view(&self) -> ReportModel {
        ReportModel {
            updated_ids: self.updated_ids@,
            removed_ids: self.removed_ids@,
            analysis_ids: self.analysis_ids@,
            folder_changed: self.folder_changed,
        }
    }
}

/// The numbers that are not in another list.
pub open spec fn unknown_ids(ids: Seq<i64>, known: Seq<i64>) -> Seq<i64>
    decreases ids.len(),
{
    if ids.len() == 0 {
        Seq::empty()
    } else if known.contains(ids.last()) {
        unknown_ids(ids.drop_last(), known)
    } else {
        unknown_ids(ids.drop_last(), known).push(ids.last())
    }
}

fn add_ids(list: &mut Vec<i64>, ids: &Vec<i64>)
    ensures
        final(list)@ == old(list)@ + ids@,
{
    let ghost before = list@;
    let mut i: usize = 0;
    assert(before + ids@.take(0) =~= before);
    while i < ids.len()
        invariant
            i <= ids@.len(),
            list@ == before + ids@.take(i as int),
        decreases ids@.len() - i,
    {
        list.push(ids[i]);
        i += 1;
        assert(list@ =~= before + ids@.take(i as int));
    }
    assert(ids@.take(i as int) =~= ids@);
}

fn holds(list: &Vec<i64>, id: i64) -> (r: bool)
    ensures
        r == list@.contains(id),
{
    let mut i: usize = 0;
    while i < list.len()
        invariant
            i <= list@.len(),
            forall|j: int| 0 <= j < i ==> list@[j] != id,
        decreases list@.len() - i,
    {
        if list[i] == id {
            return true;
        }
        i += 1;
    }
    false
}

impl ReconcileReport {
    pub fn begin(folder_changed: bool) -> (r: Self)
        ensures
            r@ == (ReportModel {
                updated_ids: Seq::empty(),
                removed_ids: Seq::empty(),
                analysis_ids: Seq::empty(),
                folder_changed,
            }),
    {
        ReconcileReport {
            updated_ids: Vec::new(),
            removed_ids: Vec::new(),
            analysis_ids: Vec::new(),
            folder_changed,
        }
    }

    /// These tracks go on under a new name.
    pub fn renamed(&mut self, ids: &Vec<i64>)
        ensures
            final(self)@ == (ReportModel {
                updated_ids: old(self)@.updated_ids + ids@,
                ..old(self)@
            }),
    {
        add_ids(&mut self.updated_ids, ids);
    }

    /// These tracks are gone.
    pub fn forgot(&mut self, ids: &Vec<i64>)
        ensures
            final(self)@ == (ReportModel {
                removed_ids: old(self)@.removed_ids + ids@,
                ..old(self)@
            }),
    {
        add_ids(&mut self.removed_ids, ids);
    }

    /// These tracks were scanned; those that were not known before are new.
    pub fn scanned(&mut self, ids: &Vec<i64>, known: &Vec<i64>)
        ensures
            final(self)@ == (ReportModel {
                updated_ids: old(self)@.updated_ids + ids@,
                analysis_ids: old(self)@.analysis_ids + unknown_ids(ids@, known@),
                ..old(self)@
            }),
    {
        let ghost before = self@;
        let mut i: usize = 0;
        assert(before.analysis_ids + unknown_ids(ids@.take(0), known@) =~= before.analysis_ids);
        while i < ids.len()
            invariant
                i <= ids@.len(),
                self@ == (ReportModel {
                    analysis_ids: before.analysis_ids + unknown_ids(ids@.take(i as int), known@),
                    ..before
                }),
            decreases ids@.len() - i,
        {
            assert(ids@.take(i + 1).drop_last() =~= ids@.take(i as int));
            let ghost fresh = unknown_ids(ids@.take(i as int), known@);
            if !holds(known, ids[i]) {
                self.analysis_ids.push(ids[i]);
                assert(self@.analysis_ids =~= before.analysis_ids + fresh.push(ids@[i as int]));
            }
            i += 1;
        }
        assert(ids@.take(i as int) =~= ids@);
        add_ids(&mut self.updated_ids, ids);
    }
}

/// What is told of a report.
pub struct PublishPlan {
    /// The tracks that changed; nothing is told where there are none.
    pub changed: Vec<i64>,
    pub folders: bool,
    /// The tracks to analyze.
    pub analyze: Vec<i64>,
}

/// The tracks that are told of.
pub open spec fn changed_ids(report: ReportModel) -> Seq<i64> {
    ordered_ids(report.updated_ids + report.removed_ids)
}

/// The tracks that are analyzed.
pub open spec fn analyzed_ids(report: ReportModel, auto_analyze: bool) -> Seq<i64> {
    if auto_analyze {
        ordered_ids(report.analysis_ids)
    } else {
        Seq::empty()
    }
}

/// Decides what is told of a report, and which tracks are analyzed.
pub fn publish_report(report: &ReconcileReport, auto_analyze: bool) -> (r: PublishPlan)
    ensures
        r.changed@ == changed_ids(report@),
        r.analyze@ == analyzed_ids(report@, auto_analyze),
        r.changed@ == ordered_ids(report@.updated_ids + report@.removed_ids),
        r.folders == report@.folder_changed,
        r.analyze@ == (if auto_analyze {
            ordered_ids(report@.analysis_ids)
        } else {
            Seq::empty()
        }),
{
    let mut all: Vec<i64> = Vec::new();
    add_ids(&mut all, &report.updated_ids);
    assert(all@ =~= report@.updated_ids);
    add_ids(&mut all, &report.removed_ids);
    let analyze = if auto_analyze {
        sort_ids(&report.analysis_ids)
    } else {
        Vec::new()
    };
    PublishPlan { changed: sort_ids(&all), folders: report.folder_changed, analyze }
}

/// Only new tracks are queued for analysis: one that was known before a scan is not.
pub proof fn known_tracks_are_not_analyzed_again(ids: Seq<i64>, known: Seq<i64>)
    ensures
        forall|i: int|
            0 <= i < unknown_ids(ids, known).len() ==> !known.contains(
                #[trigger] unknown_ids(ids, known)[i],
            ) && ids.contains(unknown_ids(ids, known)[i]),
        forall|i: int|
            0 <= i < ids.len() && !known.contains(#[trigger] ids[i]) ==> unknown_ids(
                ids,
                known,
            ).contains(ids[i]),
    decreases ids.len(),
{
    if ids.len() > 0 {
        let front = ids.drop_last();
        known_tracks_are_not_analyzed_again(front, known);
        let before = unknown_ids(front, known);
        let after = unknown_ids(ids, known);
        assert forall|i: int| 0 <= i < after.len() implies !known.contains(#[trigger] after[i])
            && ids.contains(after[i]) by {
            if i < before.len() {
                assert(after[i] == before[i]);
                let k = choose|k: int| 0 <= k < front.len() && front[k] == before[i];
                assert(ids[k] == after[i]);
            } else {
                assert(ids[ids.len() - 1] == after[i]);
            }
        }
        assert forall|i: int|
            0 <= i < ids.len() && !known.contains(#[trigger] ids[i]) implies after.contains(
            ids[i],
        ) by {
            if i < front.len() {
                assert(front[i] == ids[i]);
                let k = choose|k: int| 0 <= k < before.len() && before[k] == front[i];
                assert(after[k] == ids[i]);
            } else {
                assert(after[after.len() - 1] == ids[i]);
            }
        }
    }
}

} // verus!
