//! Gathering several folders in a new one, with the way back when a step fails.

use vstd::prelude::*;

use crate::error::{bad, check_result, ApiError, ErrorModel};
use crate::models::{text_of, texts};
use crate::paths::{
    among_paths, inside_any, is_among_paths, is_same_path, lies_within, ordered_ids, ordered_paths,
    parent, parent_of, same_path, sort_ids, sort_paths, within,
};
use crate::text::{file_name, file_name_of, same};
use crate::urls::pair_views;

verus! {

/// A merge needs two folders.
pub fn check_merge_request(paths: &Vec<String>) -> (r: Result<(), ApiError>)
    ensures
        check_result(r) == (if paths@.len() < 2 {
            Err(bad("至少选择两个文件夹才能合并"@))
        } else {
            Ok(())
        }),
{
    if paths.len() < 2 {
        return Err(ApiError::bad_request("至少选择两个文件夹才能合并".to_owned()));
    }
    Ok(())
}

/// The new folder needs a place.
pub fn check_merge_place(is_folder: bool) -> (r: Result<(), ApiError>)
    ensures
        check_result(r) == (if is_folder {
            Ok(())
        } else {
            Err(bad("新文件夹位置不存在"@))
        }),
{
    if !is_folder {
        return Err(ApiError::bad_request("新文件夹位置不存在".to_owned()));
    }
    Ok(())
}

/// A folder lies below another one of the list.
pub open spec fn nested_in(list: Seq<Seq<char>>, item: Seq<char>) -> bool {
    exists|i: int|
        0 <= i < list.len() && !same_path(#[trigger] list[i], item) && lies_within(item, list[i])
}

/// The first `n` folders of a list without those that lie below another one of it.
pub open spec fn independent(list: Seq<Seq<char>>, n: nat) -> Seq<Seq<char>>
    decreases n,
{
    if n == 0 {
        Seq::empty()
    } else {
        let before = independent(list, (n - 1) as nat);
        if nested_in(list, list[n - 1]) {
            before
        } else {
            before.push(list[n - 1])
        }
    }
}

pub open spec fn sources_of(paths: Seq<Seq<char>>) -> Seq<Seq<char>> {
    let list = ordered_paths(paths);
    independent(list, list.len())
}

fn is_nested_in(list: &Vec<String>, item: &str) -> (r: bool)
    ensures
        r == nested_in(texts(list@), item@),
{
    let ghost model = texts(list@);
    let mut i: usize = 0;
    while i < list.len()
        invariant
            i <= list@.len(),
            model == texts(list@),
            forall|j: int|
                0 <= j < i ==> same_path(#[trigger] model[j], item@) || !lies_within(
                    item@,
                    model[j],
                ),
        decreases list@.len() - i,
    {
        assert(model[i as int] == list@[i as int]@);
        if !is_same_path(list[i].as_str(), item) && within(item, list[i].as_str()) {
            assert(!same_path(model[i as int], item@));
            return true;
        }
        i += 1;
    }
    false
}

/// The folders to move: in order, each once, and none that moves along with another.
pub fn merge_sources(paths: &Vec<String>) -> (r: Vec<String>)
    ensures
        texts(r@) == sources_of(texts(paths@)),
{
    let list = sort_paths(paths);
    let ghost model = texts(list@);
    let mut r: Vec<String> = Vec::new();
    let mut i: usize = 0;
    assert(texts(r@) =~= independent(model, 0));
    while i < list.len()
        invariant
            i <= list@.len(),
            model == texts(list@),
            texts(r@) == independent(model, i as nat),
        decreases list@.len() - i,
    {
        assert(model[i as int] == list@[i as int]@);
        if !is_nested_in(&list, list[i].as_str()) {
            let ghost before = texts(r@);
            r.push(list[i].clone());
            assert(texts(r@) =~= before.push(list@[i as int]@));
        }
        i += 1;
    }
    r
}

/// A folder that is to be moved, and whether it is there.
pub struct MergeSource {
    pub path: String,
    pub is_folder: bool,
}

pub open spec fn source_views(v: Seq<MergeSource>) -> Seq<(Seq<char>, bool)> {
    v.map_values(|s: MergeSource| (s.path@, s.is_folder))
}

/// Why one of the first `n` folders cannot be moved.
pub open spec fn first_refusal(
    sources: Seq<(Seq<char>, bool)>,
    roots: Seq<Seq<char>>,
    n: nat,
) -> Option<ErrorModel>
    decreases n,
{
    if n == 0 {
        None
    } else {
        match first_refusal(sources, roots, (n - 1) as nat) {
            Some(e) => Some(e),
            None => {
                let s = sources[n - 1];
                if among_paths(roots, s.0) {
                    Some(bad("曲库根目录不能参与合并"@))
                } else if !s.1 {
                    Some(bad("文件夹不存在："@ + s.0))
                } else {
                    None
                }
            },
        }
    }
}

/// Two folders have the same name.
pub open spec fn names_clash(sources: Seq<(Seq<char>, bool)>) -> bool {
    exists|i: int, j: int|
        0 <= i < j < sources.len() && file_name_of(#[trigger] sources[i].0).len() > 0
            && file_name_of(sources[i].0) == file_name_of(#[trigger] sources[j].0)
}

pub open spec fn merge_refusal(
    sources: Seq<(Seq<char>, bool)>,
    roots: Seq<Seq<char>>,
) -> Result<(), ErrorModel> {
    if sources.len() < 2 {
        Err(bad("选择中只有一个独立文件夹"@))
    } else {
        match first_refusal(sources, roots, sources.len()) {
            Some(e) => Err(e),
            None => if names_clash(sources) {
                Err(bad("所选文件夹存在同名项，无法安全归并"@))
            } else {
                Ok(())
            },
        }
    }
}

fn have_clash(sources: &Vec<MergeSource>) -> (r: bool)
    ensures
        r == names_clash(source_views(sources@)),
{
    let ghost model = source_views(sources@);
    let mut j: usize = 0;
    while j < sources.len()
        invariant
            j <= sources@.len(),
            model == source_views(sources@),
            forall|a: int, b: int|
                0 <= a < b < j ==> !(file_name_of(#[trigger] model[a].0).len() > 0 && file_name_of(
                    model[a].0,
                ) == file_name_of(#[trigger] model[b].0)),
        decreases sources@.len() - j,
    {
        let name = file_name(sources[j].path.as_str());
        assert(model[j as int].0 == sources@[j as int].path@);
        if !name.as_str().is_empty() {
            let mut i: usize = 0;
            while i < j
                invariant
                    i <= j < sources@.len(),
                    model == source_views(sources@),
                    name@ == file_name_of(model[j as int].0),
                    name@.len() > 0,
                    forall|a: int|
                        0 <= a < i ==> file_name_of(#[trigger] model[a].0) != file_name_of(
                            model[j as int].0,
                        ),
                decreases j - i,
            {
                let other = file_name(sources[i].path.as_str());
                assert(model[i as int].0 == sources@[i as int].path@);
                if same(name.as_str(), other.as_str()) {
                    assert(file_name_of(model[i as int].0) == file_name_of(model[j as int].0));
                    return true;
                }
                i += 1;
            }
        }
        j += 1;
    }
    false
}

/// Whether the folders can be gathered: two at least, no root, all there, and no name twice.
pub fn check_merge_sources(sources: &Vec<MergeSource>, roots: &Vec<String>) -> (r: Result<
    (),
    ApiError,
>)
    ensures
        check_result(r) == merge_refusal(source_views(sources@), texts(roots@)),
{
    let ghost model = source_views(sources@);
    if sources.len() < 2 {
        return Err(ApiError::bad_request("选择中只有一个独立文件夹".to_owned()));
    }
    let mut i: usize = 0;
    while i < sources.len()
        invariant
            i <= sources@.len(),
            2 <= sources@.len(),
            model == source_views(sources@),
            first_refusal(model, texts(roots@), i as nat) is None,
        decreases sources@.len() - i,
    {
        assert(model[i as int] == (sources@[i as int].path@, sources@[i as int].is_folder));
        if is_among_paths(roots, sources[i].path.as_str()) {
            let e = ApiError::bad_request("曲库根目录不能参与合并".to_owned());
            proof {
                lemma_refusal_stays(model, texts(roots@), (i + 1) as nat, model.len());
            }
            return Err(e);
        }
        if !sources[i].is_folder {
            let mut detail = "文件夹不存在：".to_owned();
            detail.append(sources[i].path.as_str());
            proof {
                lemma_refusal_stays(model, texts(roots@), (i + 1) as nat, model.len());
            }
            return Err(ApiError::bad_request(detail));
        }
        i += 1;
    }
    if have_clash(sources) {
        return Err(ApiError::bad_request("所选文件夹存在同名项，无法安全归并".to_owned()));
    }
    Ok(())
}

pub proof fn lemma_refusal_stays(
    sources: Seq<(Seq<char>, bool)>,
    roots: Seq<Seq<char>>,
    m: nat,
    n: nat,
)
    requires
        m <= n,
        first_refusal(sources, roots, m) is Some,
    ensures
        first_refusal(sources, roots, n) == first_refusal(sources, roots, m),
    decreases n,
{
    if m < n {
        lemma_refusal_stays(sources, roots, m, (n - 1) as nat);
    }
}

/// The new folder must not lie in one that is to be moved into it.
pub fn check_merge_target(sources: &Vec<String>, target: &str) -> (r: Result<(), ApiError>)
    ensures
        check_result(r) == (if inside_any(target@, texts(sources@)) {
            Err(bad("新文件夹不能建在待合并文件夹内部"@))
        } else {
            Ok(())
        }),
{
    if crate::paths::inside_one_of(target, sources) {
        return Err(ApiError::bad_request("新文件夹不能建在待合并文件夹内部".to_owned()));
    }
    Ok(())
}

// ---------------------------------------------------------------- the moves

/// Moves folders one by one into a new one. When a step fails, those that were moved go back, the
/// last one first.
pub struct MergeRun {
    pub sources: Vec<String>,
    pub next: usize,
    /// Where each folder was, and where it is now.
    pub moved: Vec<(String, String)>,
    pub changed: Vec<i64>,
    pub failure: Option<String>,
    /// How many of the moved folders are still to go back.
    pub back: usize,
}

#[verifier::ext_equal]
pub struct MergeModel {
    pub sources: Seq<Seq<char>>,
    pub next: nat,
    pub moved: Seq<(Seq<char>, Seq<char>)>,
    pub changed: Seq<i64>,
    pub failure: Option<Seq<char>>,
    pub back: nat,
}

impl View for MergeRun {
    type V = MergeModel;

    open spec fn view(&self) -> MergeModel {
        MergeModel {
            sources: texts(self.sources@),
            next: self.next as nat,
            moved: pair_views(self.moved@),
            changed: self.changed@,
            failure: text_of(self.failure),
            back: self.back as nat,
        }
    }
}

/// What is to be done next.
pub enum MergeAction {
    Move { source: String },
    /// Moves a folder back; where it had no folder above, there is nothing to do.
    PutBack { from: String, to: Option<String> },
    /// Removes the new folder and replies with the failure.
    GiveUp(ApiError),
    /// Tells of the tracks whose paths changed.
    Finish(Vec<i64>),
}

pub enum MergeWant {
    Move { source: Seq<char> },
    PutBack { from: Seq<char>, to: Option<Seq<char>> },
    GiveUp(ErrorModel),
    Finish(Seq<i64>),
}

pub open spec fn merge_want(a: MergeAction) -> MergeWant {
    match a {
        MergeAction::Move { source } => MergeWant::Move { source: source@ },
        MergeAction::PutBack { from, to } => MergeWant::PutBack { from: from@, to: text_of(to) },
        MergeAction::GiveUp(e) => MergeWant::GiveUp(e@),
        MergeAction::Finish(ids) => MergeWant::Finish(ids@),
    }
}

impl MergeModel {
    pub open spec fn ok(self) -> bool {
        &&& self.next <= self.sources.len()
        &&& self.back <= self.moved.len()
    }

    pub open spec fn want(self) -> MergeWant {
        match self.failure {
            None => if self.next < self.sources.len() {
                MergeWant::Move { source: self.sources[self.next as int] }
            } else {
                MergeWant::Finish(ordered_ids(self.changed))
            },
            Some(reason) => if self.back > 0 {
                let pair = self.moved[self.back - 1];
                MergeWant::PutBack { from: pair.1, to: parent_of(pair.0) }
            } else {
                MergeWant::GiveUp(bad("合并失败并已回滚："@ + reason))
            },
        }
    }

    pub open spec fn after_move(
        self,
        old_path: Seq<char>,
        new_path: Seq<char>,
        ids: Seq<i64>,
    ) -> MergeModel {
        MergeModel {
            next: self.next + 1,
            moved: self.moved.push((old_path, new_path)),
            changed: self.changed + ids,
            ..self
        }
    }

    pub open spec fn after_failure(self, reason: Seq<char>) -> MergeModel {
        MergeModel { failure: Some(reason), back: self.moved.len(), ..self }
    }

    /// A folder was moved, but its tracks could not be told so: it goes back too.
    pub open spec fn after_half_move(
        self,
        old_path: Seq<char>,
        new_path: Seq<char>,
        reason: Seq<char>,
    ) -> MergeModel {
        MergeModel { moved: self.moved.push((old_path, new_path)), ..self }.after_failure(reason)
    }

    pub open spec fn after_put_back(self) -> MergeModel {
        MergeModel { back: (self.back - 1) as nat, ..self }
    }
}

impl MergeRun {
    pub fn begin(sources: Vec<String>) -> (r: Self)
        ensures
            r@ == (MergeModel {
                sources: texts(sources@),
                next: 0,
                moved: Seq::empty(),
                changed: Seq::empty(),
                failure: None,
                back: 0,
            }),
            r@.ok(),
    {
        let r = MergeRun {
            sources,
            next: 0,
            moved: Vec::new(),
            changed: Vec::new(),
            failure: None,
            back: 0,
        };
        assert(r@.moved =~= Seq::<(Seq<char>, Seq<char>)>::empty());
        r
    }

    pub fn action(&self) -> (r: MergeAction)
        requires
            self@.ok(),
        ensures
            merge_want(r) == self@.want(),
    {
        match &self.failure {
            None => if self.next < self.sources.len() {
                assert(self@.sources[self.next as int] == self.sources@[self.next as int]@);
                MergeAction::Move { source: self.sources[self.next].clone() }
            } else {
                MergeAction::Finish(sort_ids(&self.changed))
            },
            Some(reason) => if self.back > 0 {
                let at: usize = self.back - 1;
                assert(self@.moved[at as int] == (
                    self.moved@[at as int].0@,
                    self.moved@[at as int].1@,
                ));
                MergeAction::PutBack {
                    from: self.moved[at].1.clone(),
                    to: parent(self.moved[at].0.as_str()),
                }
            } else {
                let mut detail = "合并失败并已回滚：".to_owned();
                detail.append(reason.as_str());
                MergeAction::GiveUp(ApiError::bad_request(detail))
            },
        }
    }

    /// The folder was moved, and these tracks have new paths.
    pub fn moved(&mut self, old_path: String, new_path: String, ids: &Vec<i64>)
        requires
            old(self)@.ok(),
            old(self)@.failure is None,
            old(self)@.next < old(self)@.sources.len(),
        ensures
            final(self)@ == old(self)@.after_move(old_path@, new_path@, ids@),
            final(self)@.ok(),
    {
        let ghost before = self@;
        let ghost pair = (old_path@, new_path@);
        let count: usize = self.sources.len();
        assert(self.next < count);
        self.next = self.next + 1;
        self.moved.push((old_path, new_path));
        assert(self@.moved =~= before.moved.push(pair));
        let mut i: usize = 0;
        assert(before.changed + ids@.take(0) =~= before.changed);
        while i < ids.len()
            invariant
                i <= ids@.len(),
                self@ == (MergeModel {
                    next: before.next + 1,
                    moved: before.moved.push(pair),
                    changed: before.changed + ids@.take(i as int),
                    ..before
                }),
            decreases ids@.len() - i,
        {
            self.changed.push(ids[i]);
            i += 1;
            assert(self@.changed =~= before.changed + ids@.take(i as int));
        }
        assert(ids@.take(i as int) =~= ids@);
    }

    /// The folder could not be moved.
    pub fn failed(&mut self, reason: String)
        requires
            old(self)@.ok(),
            old(self)@.failure is None,
        ensures
            final(self)@ == old(self)@.after_failure(reason@),
            final(self)@.ok(),
    {
        self.failure = Some(reason);
        self.back = self.moved.len();
        assert(self@.moved.len() == self.moved@.len());
    }

    /// The folder was moved, but its tracks could not be told so.
    pub fn half_moved(&mut self, old_path: String, new_path: String, reason: String)
        requires
            old(self)@.ok(),
            old(self)@.failure is None,
        ensures
            final(self)@ == old(self)@.after_half_move(old_path@, new_path@, reason@),
            final(self)@.ok(),
    {
        let ghost before = self@;
        let ghost pair = (old_path@, new_path@);
        self.moved.push((old_path, new_path));
        assert(self@.moved =~= before.moved.push(pair));
        self.failure = Some(reason);
        self.back = self.moved.len();
        assert(self@.moved.len() == self.moved@.len());
    }

    /// A folder went back, or could not.
    pub fn put_back(&mut self)
        requires
            old(self)@.ok(),
            old(self)@.failure is Some,
            old(self)@.back > 0,
        ensures
            final(self)@ == old(self)@.after_put_back(),
            final(self)@.ok(),
    {
        self.back = self.back - 1;
    }
}

pub open spec fn after_put_backs(m: MergeModel, n: nat) -> MergeModel
    decreases n,
{
    if n == 0 {
        m
    } else {
        after_put_backs(m, (n - 1) as nat).after_put_back()
    }
}

/// After a failure every folder that was moved goes back to where it was, the last one first, and
/// only then the failure is reported.
pub proof fn a_failed_merge_puts_everything_back(m: MergeModel, reason: Seq<char>, n: nat)
    requires
        m.ok(),
        m.failure is None,
        n <= m.moved.len(),
    ensures
        ({
            let f = after_put_backs(m.after_failure(reason), n);
            &&& f.moved == m.moved
            &&& f.back == m.moved.len() - n
            &&& if n < m.moved.len() {
                f.want() == MergeWant::PutBack {
                    from: m.moved[m.moved.len() - 1 - n].1,
                    to: parent_of(m.moved[m.moved.len() - 1 - n].0),
                }
            } else {
                f.want() == MergeWant::GiveUp(bad("合并失败并已回滚："@ + reason))
            }
        }),
    decreases n,
{
    if n > 0 {
        a_failed_merge_puts_everything_back(m, reason, (n - 1) as nat);
    }
    let f = after_put_backs(m.after_failure(reason), n);
    assert(f.failure == Some(reason)) by {
        lemma_failure_stays(m.after_failure(reason), n);
    }
}

pub proof fn lemma_failure_stays(m: MergeModel, n: nat)
    ensures
        after_put_backs(m, n).failure == m.failure,
    decreases n,
{
    if n > 0 {
        lemma_failure_stays(m, (n - 1) as nat);
    }
}

} // verus!
