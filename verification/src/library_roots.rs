//! The folders that make up the library: which ones count, and how they come and go.

use vstd::prelude::*;

use crate::error::{bad, text_result, ApiError, ErrorModel};
use crate::models::{clone_texts, texts};
use crate::paths::{in_list, inside_any, inside_one_of, lies_within, within};
use crate::text::{trim, trimmed};

verus! {

/// The roots in use, and those that are to be written to the settings.
pub struct PickedRoots {
    pub roots: Vec<String>,
    pub adopt: Option<Vec<String>>,
}

pub open spec fn list_of(list: Option<Vec<String>>) -> Option<Seq<Seq<char>>> {
    match list {
        Some(v) => Some(texts(v@)),
        None => None,
    }
}

/// Whether roots are to be read off the paths of known tracks: only where none is configured.
pub fn infers_roots(configured: &Vec<String>) -> (r: bool)
    ensures
        r == (configured@.len() == 0),
{
    configured.len() == 0
}

/// Picks the roots. `found` holds what the configured folders resolve to, or, where none is
/// configured, what the paths of known tracks suggest; such a suggestion is adopted.
pub fn pick_library_roots(configured: &Vec<String>, found: &Vec<String>) -> (r: PickedRoots)
    ensures
        texts(r.roots@) == texts(found@),
        list_of(r.adopt) == (if configured@.len() == 0 && found@.len() > 0 {
            Some(texts(found@))
        } else {
            None
        }),
{
    let adopt = if infers_roots(configured) && found.len() > 0 {
        Some(clone_texts(found))
    } else {
        None
    };
    PickedRoots { roots: clone_texts(found), adopt }
}

pub open spec fn list_result(r: Result<Vec<String>, ApiError>) -> Result<
    Seq<Seq<char>>,
    ErrorModel,
> {
    match r {
        Ok(v) => Ok(texts(v@)),
        Err(e) => Err(e@),
    }
}

/// What changes files needs a root.
pub fn require_roots(roots: Vec<String>) -> (r: Result<Vec<String>, ApiError>)
    ensures
        list_result(r) == (if roots@.len() == 0 {
            Err(bad("还没有配置曲库目录，去设置里加一个"@))
        } else {
            Ok(texts(roots@))
        }),
{
    if roots.len() == 0 {
        return Err(
            ApiError::bad_request("还没有配置曲库目录，去设置里加一个".to_owned()),
        );
    }
    Ok(roots)
}

/// The folder that a download is to go to; nothing where none is named.
pub fn named_folder(raw: &str) -> (r: Option<String>)
    ensures
        match r {
            Some(name) => trimmed(raw@).len() > 0 && name@ == trimmed(raw@),
            None => trimmed(raw@).len() == 0,
        },
{
    let name = trim(raw);
    if name.as_str().is_empty() {
        None
    } else {
        Some(name)
    }
}

pub open spec fn dest_of(
    raw: Seq<char>,
    inside: Result<Seq<char>, ErrorModel>,
    is_folder: bool,
) -> Result<Seq<char>, ErrorModel> {
    if trimmed(raw).len() == 0 {
        Ok(""@)
    } else {
        match inside {
            Err(e) => Err(e),
            Ok(path) => if is_folder {
                Ok(path)
            } else {
                Err(bad("目标不是文件夹"@))
            },
        }
    }
}

/// Where a download goes. No folder at all is fine; one that is named has to lie inside the library
/// (`inside` holds its path there, or the refusal) and to be a folder.
pub fn normalize_dest_dir(raw: &str, inside: Result<String, ApiError>, is_folder: bool) -> (r: Result<
    String,
    ApiError,
>)
    ensures
        text_result(r) == dest_of(raw@, text_result(inside), is_folder),
{
    if named_folder(raw).is_none() {
        return Ok("".to_owned());
    }
    match inside {
        Err(e) => Err(e),
        Ok(path) => if is_folder {
            Ok(path)
        } else {
            Err(ApiError::bad_request("目标不是文件夹".to_owned()))
        },
    }
}

// ---------------------------------------------------------------- forgetting

/// A folder as it is configured, and its path in normal form.
pub struct RegisteredRoot {
    pub text: String,
    pub path: String,
}

pub open spec fn registered(v: Seq<RegisteredRoot>) -> Seq<(Seq<char>, Seq<char>)> {
    v.map_values(|r: RegisteredRoot| (r.text@, r.path@))
}

/// The configured folders without `target` and without those below it.
pub open spec fn roots_without(
    existing: Seq<(Seq<char>, Seq<char>)>,
    target: Seq<char>,
) -> Seq<Seq<char>>
    decreases existing.len(),
{
    if existing.len() == 0 {
        Seq::empty()
    } else {
        let before = roots_without(existing.drop_last(), target);
        if lies_within(existing.last().1, target) {
            before
        } else {
            before.push(existing.last().0)
        }
    }
}

/// The configured folders without `target` and without those below it.
pub fn unregister_library_roots(existing: &Vec<RegisteredRoot>, target: &str) -> (r: Vec<String>)
    ensures
        texts(r@) == roots_without(registered(existing@), target@),
        r@.len() <= existing@.len(),
{
    let ghost model = registered(existing@);
    let mut r: Vec<String> = Vec::new();
    let mut i: usize = 0;
    assert(texts(r@) =~= roots_without(model.take(0), target@));
    while i < existing.len()
        invariant
            i <= existing@.len(),
            r@.len() <= i,
            model == registered(existing@),
            texts(r@) == roots_without(model.take(i as int), target@),
        decreases existing@.len() - i,
    {
        assert(model.take(i + 1).drop_last() =~= model.take(i as int));
        let ghost root = existing@[i as int];
        assert(model.take(i + 1).last() == (root.text@, root.path@));
        if !within(existing[i].path.as_str(), target) {
            let ghost before = texts(r@);
            r.push(existing[i].text.clone());
            assert(texts(r@) =~= before.push(root.text@));
        }
        i += 1;
    }
    assert(model.take(i as int) =~= model);
    r
}

/// A folder of the settings is `root` or lies below it; an empty setting is no folder.
pub open spec fn setting_within(
    text: Seq<char>,
    path: Seq<char>,
    root: Seq<char>,
) -> bool {
    trimmed(text).len() > 0 && lies_within(path, root)
}

pub fn path_equals_or_within(candidate: &RegisteredRoot, root: &str) -> (r: bool)
    ensures
        r == setting_within(candidate.text@, candidate.path@, root@),
{
    !trim(candidate.text.as_str()).as_str().is_empty() && within(candidate.path.as_str(), root)
}

/// The folders in the settings.
pub struct FolderSettings {
    pub library_dirs: Vec<String>,
    pub download_dir: String,
    pub video_download_dir: String,
}

pub open spec fn redirected(
    setting: (Seq<char>, Seq<char>),
    target: Seq<char>,
    roots: Seq<Seq<char>>,
) -> Seq<char> {
    if setting_within(setting.0, setting.1, target) && roots.len() > 0 {
        roots[0]
    } else {
        setting.0
    }
}

fn redirect(setting: &RegisteredRoot, target: &str, roots: &Vec<String>) -> (r: String)
    ensures
        r@ == redirected((setting.text@, setting.path@), target@, texts(roots@)),
{
    if path_equals_or_within(setting, target) && roots.len() > 0 {
        assert(texts(roots@)[0] == roots@[0]@);
        roots[0].clone()
    } else {
        setting.text.clone()
    }
}

/// The settings without a folder: nothing where it was no root. A download folder in it moves to
/// the first root that is left; where none is left, it stays.
pub fn forget_root(
    library_dirs: &Vec<RegisteredRoot>,
    download_dir: &RegisteredRoot,
    video_download_dir: &RegisteredRoot,
    target: &str,
) -> (r: Option<FolderSettings>)
    ensures
        ({
            let left = roots_without(registered(library_dirs@), target@);
            match r {
                Some(s) => {
                    &&& left.len() != library_dirs@.len()
                    &&& texts(s.library_dirs@) == left
                    &&& s.download_dir@ == redirected(
                        (download_dir.text@, download_dir.path@),
                        target@,
                        left,
                    )
                    &&& s.video_download_dir@ == redirected(
                        (video_download_dir.text@, video_download_dir.path@),
                        target@,
                        left,
                    )
                },
                None => left.len() == library_dirs@.len(),
            }
        }),
{
    let left = unregister_library_roots(library_dirs, target);
    assert(texts(left@).len() == left@.len());
    if left.len() == library_dirs.len() {
        return None;
    }
    let download = redirect(download_dir, target, &left);
    let video = redirect(video_download_dir, target, &left);
    Some(
        FolderSettings { library_dirs: left, download_dir: download, video_download_dir: video },
    )
}

/// Forgetting a folder leaves every root that does not lie in it, in its order, and none that does.
pub proof fn forgetting_takes_exactly_what_lies_below(
    existing: Seq<(Seq<char>, Seq<char>)>,
    target: Seq<char>,
)
    ensures
        forall|i: int|
            0 <= i < existing.len() && !lies_within(#[trigger] existing[i].1, target)
                ==> roots_without(existing, target).contains(existing[i].0),
        forall|text: Seq<char>|
            #[trigger] roots_without(existing, target).contains(text) ==> exists|i: int|
                0 <= i < existing.len() && #[trigger] existing[i].0 == text && !lies_within(
                    existing[i].1,
                    target,
                ),
        (forall|i: int| 0 <= i < existing.len() ==> !lies_within(#[trigger] existing[i].1, target))
            ==> roots_without(existing, target).len() == existing.len(),
    decreases existing.len(),
{
    if existing.len() > 0 {
        let front = existing.drop_last();
        forgetting_takes_exactly_what_lies_below(front, target);
        let before = roots_without(front, target);
        let after = roots_without(existing, target);
        let last = existing.last();
        assert forall|i: int|
            0 <= i < existing.len() && !lies_within(
                #[trigger] existing[i].1,
                target,
            ) implies after.contains(existing[i].0) by {
            if i < front.len() {
                assert(front[i] == existing[i]);
                assert(before.contains(front[i].0));
                let k = choose|k: int| 0 <= k < before.len() && before[k] == front[i].0;
                assert(after[k] == front[i].0);
            } else {
                assert(after[after.len() - 1] == last.0);
            }
        }
        assert forall|text: Seq<char>| #[trigger] after.contains(text) implies exists|i: int|
            0 <= i < existing.len() && #[trigger] existing[i].0 == text && !lies_within(
                existing[i].1,
                target,
            ) by {
            let k = choose|k: int| 0 <= k < after.len() && after[k] == text;
            if k < before.len() {
                assert(before[k] == text);
                assert(before.contains(text));
                let i = choose|i: int|
                    0 <= i < front.len() && #[trigger] front[i].0 == text && !lies_within(
                        front[i].1,
                        target,
                    );
                assert(existing[i].0 == text);
            } else {
                assert(existing[existing.len() - 1].0 == text);
            }
        }
        if forall|i: int| 0 <= i < existing.len() ==> !lies_within(#[trigger] existing[i].1, target) {
            assert forall|i: int| 0 <= i < front.len() implies !lies_within(
                #[trigger] front[i].1,
                target,
            ) by {
                assert(front[i] == existing[i]);
                assert(!lies_within(existing[i].1, target));
            }
            assert(!lies_within(existing[existing.len() - 1].1, target));
        }
    }
}

// ---------------------------------------------------------------- adding

/// A folder that is to become a root.
pub struct RootCandidate {
    /// The folder as it will be configured.
    pub text: String,
    /// Its path in normal form.
    pub path: String,
    pub is_folder: bool,
}

pub open spec fn candidates_of(v: Seq<RootCandidate>) -> Seq<(Seq<char>, Seq<char>, bool)> {
    v.map_values(|c: RootCandidate| (c.text@, c.path@, c.is_folder))
}

/// The configured folders and the roots that they resolve to, with the candidates taken in one
/// after the other: no candidate that is not a folder, lies in a root or is configured already.
pub open spec fn merged_roots(
    existing: Seq<Seq<char>>,
    resolved: Seq<Seq<char>>,
    candidates: Seq<(Seq<char>, Seq<char>, bool)>,
) -> (Seq<Seq<char>>, Seq<Seq<char>>)
    decreases candidates.len(),
{
    if candidates.len() == 0 {
        (existing, resolved)
    } else {
        let (merged, roots) = merged_roots(existing, resolved, candidates.drop_last());
        let c = candidates.last();
        if !c.2 || inside_any(c.1, roots) || merged.contains(c.0) {
            (merged, roots)
        } else {
            (merged.push(c.0), roots.push(c.1))
        }
    }
}

/// The configured folders with new ones. A folder that already lies in a root is not added: it
/// would show up twice in the tree.
pub fn merge_library_roots(
    existing: &Vec<String>,
    resolved: &Vec<String>,
    candidates: &Vec<RootCandidate>,
) -> (r: Vec<String>)
    ensures
        texts(r@) == merged_roots(
            texts(existing@),
            texts(resolved@),
            candidates_of(candidates@),
        ).0,
{
    let ghost model = candidates_of(candidates@);
    let mut merged = clone_texts(existing);
    let mut roots = clone_texts(resolved);
    let ghost start = (texts(existing@), texts(resolved@));
    let mut i: usize = 0;
    assert(model.take(0) =~= Seq::<(Seq<char>, Seq<char>, bool)>::empty());
    while i < candidates.len()
        invariant
            i <= candidates@.len(),
            model == candidates_of(candidates@),
            (texts(merged@), texts(roots@)) == merged_roots(start.0, start.1, model.take(i as int)),
        decreases candidates@.len() - i,
    {
        assert(model.take(i + 1).drop_last() =~= model.take(i as int));
        let ghost c = candidates@[i as int];
        assert(model.take(i + 1).last() == (c.text@, c.path@, c.is_folder));
        if candidates[i].is_folder && !inside_one_of(candidates[i].path.as_str(), &roots)
            && !in_list(&merged, candidates[i].text.as_str()) {
            let ghost a = texts(merged@);
            let ghost b = texts(roots@);
            merged.push(candidates[i].text.clone());
            roots.push(candidates[i].path.clone());
            assert(texts(merged@) =~= a.push(c.text@));
            assert(texts(roots@) =~= b.push(c.path@));
        }
        i += 1;
    }
    assert(model.take(i as int) =~= model);
    merged
}

/// Adding folders keeps every configured one, in its place.
pub proof fn adding_roots_keeps_the_old_ones(
    existing: Seq<Seq<char>>,
    resolved: Seq<Seq<char>>,
    candidates: Seq<(Seq<char>, Seq<char>, bool)>,
)
    ensures
        existing.is_prefix_of(merged_roots(existing, resolved, candidates).0),
        forall|i: int|
            0 <= i < candidates.len() && (#[trigger] candidates[i]).2 ==> inside_any(
                candidates[i].1,
                merged_roots(existing, resolved, candidates).1,
            ) || merged_roots(existing, resolved, candidates).0.contains(candidates[i].0),
    decreases candidates.len(),
{
    if candidates.len() > 0 {
        let front = candidates.drop_last();
        adding_roots_keeps_the_old_ones(existing, resolved, front);
        let (merged, roots) = merged_roots(existing, resolved, front);
        let (all, tops) = merged_roots(existing, resolved, candidates);
        assert(existing.is_prefix_of(all)) by {
            assert(existing =~= all.subrange(0, existing.len() as int));
        }
        assert forall|i: int|
            0 <= i < candidates.len() && (#[trigger] candidates[i]).2 implies inside_any(
            candidates[i].1,
            tops,
        ) || all.contains(candidates[i].0) by {
            if i < front.len() {
                assert(front[i] == candidates[i]);
                if inside_any(front[i].1, roots) {
                    let k = choose|k: int|
                        0 <= k < roots.len() && lies_within(front[i].1, #[trigger] roots[k]);
                    assert(tops[k] == roots[k]);
                } else {
                    let k = choose|k: int| 0 <= k < merged.len() && merged[k] == front[i].0;
                    assert(all[k] == merged[k]);
                }
            } else if !inside_any(candidates[i].1, roots) && !merged.contains(candidates[i].0) {
                assert(all[all.len() - 1] == candidates[i].0);
            }
        }
    }
}

// ---------------------------------------------------------------- what is scanned

/// The texts that are not blank.
pub open spec fn named_paths(paths: Seq<Seq<char>>) -> Seq<Seq<char>>
    decreases paths.len(),
{
    if paths.len() == 0 {
        Seq::empty()
    } else if trimmed(paths.last()).len() == 0 {
        named_paths(paths.drop_last())
    } else {
        named_paths(paths.drop_last()).push(paths.last())
    }
}

/// The folders that a request names; a picker that was closed sends an empty text.
pub fn requested_paths(paths: &Vec<String>) -> (r: Vec<String>)
    ensures
        texts(r@) == named_paths(texts(paths@)),
{
    let ghost model = texts(paths@);
    let mut r: Vec<String> = Vec::new();
    let mut i: usize = 0;
    assert(texts(r@) =~= named_paths(model.take(0)));
    while i < paths.len()
        invariant
            i <= paths@.len(),
            model == texts(paths@),
            texts(r@) == named_paths(model.take(i as int)),
        decreases paths@.len() - i,
    {
        assert(model.take(i + 1).drop_last() =~= model.take(i as int));
        assert(model.take(i + 1).last() == paths@[i as int]@);
        if !trim(paths[i].as_str()).as_str().is_empty() {
            let ghost before = texts(r@);
            r.push(paths[i].clone());
            assert(texts(r@) =~= before.push(paths@[i as int]@));
        }
        i += 1;
    }
    assert(model.take(i as int) =~= model);
    r
}

pub open spec fn scanned(requested: Seq<Seq<char>>, roots: Seq<Seq<char>>) -> Result<
    Seq<Seq<char>>,
    ErrorModel,
> {
    let paths = if requested.len() == 0 {
        roots
    } else {
        requested
    };
    if paths.len() == 0 {
        Err(bad("没有可添加的目录"@))
    } else {
        Ok(paths)
    }
}

/// What a scan goes through: the folders that were named, or else all roots.
pub fn scan_paths(requested: Vec<String>, roots: &Vec<String>) -> (r: Result<Vec<String>, ApiError>)
    ensures
        list_result(r) == scanned(texts(requested@), texts(roots@)),
{
    let paths = if requested.len() == 0 {
        clone_texts(roots)
    } else {
        requested
    };
    assert(texts(paths@).len() == paths@.len());
    if paths.len() == 0 {
        return Err(ApiError::bad_request("没有可添加的目录".to_owned()));
    }
    Ok(paths)
}

// ---------------------------------------------------------------- the order of a folder

/// The names that are not empty.
pub open spec fn solid_names(names: Seq<Seq<char>>) -> Seq<Seq<char>>
    decreases names.len(),
{
    if names.len() == 0 {
        Seq::empty()
    } else if names.last().len() == 0 {
        solid_names(names.drop_last())
    } else {
        solid_names(names.drop_last()).push(names.last())
    }
}

/// The names that do not occur in another list.
pub open spec fn names_without(names: Seq<Seq<char>>, others: Seq<Seq<char>>) -> Seq<Seq<char>>
    decreases names.len(),
{
    if names.len() == 0 {
        Seq::empty()
    } else if others.contains(names.last()) {
        names_without(names.drop_last(), others)
    } else {
        names_without(names.drop_last(), others).push(names.last())
    }
}

/// A new order for some of the names in a folder: the others come first, in the order they had.
pub open spec fn merged_order(existing: Seq<Seq<char>>, submitted: Seq<Seq<char>>) -> Seq<
    Seq<char>,
> {
    names_without(existing, solid_names(submitted)) + solid_names(submitted)
}

/// Merges a new order into the list that a folder keeps. The list holds both folders and files, and
/// an order for the ones must not lose that of the others.
pub fn merge_manifest_order(existing: &Vec<String>, submitted: &Vec<String>) -> (r: Vec<String>)
    ensures
        texts(r@) == merged_order(texts(existing@), texts(submitted@)),
{
    let ghost given = texts(submitted@);
    let mut names: Vec<String> = Vec::new();
    let mut i: usize = 0;
    assert(texts(names@) =~= solid_names(given.take(0)));
    while i < submitted.len()
        invariant
            i <= submitted@.len(),
            given == texts(submitted@),
            texts(names@) == solid_names(given.take(i as int)),
        decreases submitted@.len() - i,
    {
        assert(given.take(i + 1).drop_last() =~= given.take(i as int));
        assert(given.take(i + 1).last() == submitted@[i as int]@);
        if !submitted[i].as_str().is_empty() {
            let ghost before = texts(names@);
            names.push(submitted[i].clone());
            assert(texts(names@) =~= before.push(submitted@[i as int]@));
        }
        i += 1;
    }
    assert(given.take(i as int) =~= given);
    let ghost moved = texts(names@);
    let ghost model = texts(existing@);
    let mut r: Vec<String> = Vec::new();
    let mut k: usize = 0;
    assert(texts(r@) =~= names_without(model.take(0), moved));
    while k < existing.len()
        invariant
            k <= existing@.len(),
            model == texts(existing@),
            moved == texts(names@),
            texts(r@) == names_without(model.take(k as int), moved),
        decreases existing@.len() - k,
    {
        assert(model.take(k + 1).drop_last() =~= model.take(k as int));
        assert(model.take(k + 1).last() == existing@[k as int]@);
        if !in_list(&names, existing[k].as_str()) {
            let ghost before = texts(r@);
            r.push(existing[k].clone());
            assert(texts(r@) =~= before.push(existing@[k as int]@));
        }
        k += 1;
    }
    assert(model.take(k as int) =~= model);
    let ghost kept = texts(r@);
    let mut j: usize = 0;
    assert(kept + moved.take(0) =~= kept);
    while j < names.len()
        invariant
            j <= names@.len(),
            moved == texts(names@),
            texts(r@) == kept + moved.take(j as int),
        decreases names@.len() - j,
    {
        let ghost before = texts(r@);
        r.push(names[j].clone());
        assert(moved[j as int] == names@[j as int]@);
        assert(texts(r@) =~= before.push(moved[j as int]));
        j += 1;
        assert(texts(r@) =~= kept + moved.take(j as int));
    }
    assert(moved.take(j as int) =~= moved);
    r
}

pub proof fn lemma_names_without(names: Seq<Seq<char>>, others: Seq<Seq<char>>)
    ensures
        forall|i: int|
            0 <= i < names.len() && !others.contains(#[trigger] names[i]) ==> names_without(
                names,
                others,
            ).contains(names[i]),
        forall|k: int|
            0 <= k < names_without(names, others).len() ==> !others.contains(
                #[trigger] names_without(names, others)[k],
            ) && names.contains(names_without(names, others)[k]),
        (forall|i: int| 0 <= i < names.len() ==> !others.contains(#[trigger] names[i]))
            ==> names_without(names, others) == names,
    decreases names.len(),
{
    if names.len() > 0 {
        let front = names.drop_last();
        lemma_names_without(front, others);
        let before = names_without(front, others);
        let after = names_without(names, others);
        assert forall|i: int|
            0 <= i < names.len() && !others.contains(#[trigger] names[i]) implies after.contains(
            names[i],
        ) by {
            if i < front.len() {
                assert(front[i] == names[i]);
                let k = choose|k: int| 0 <= k < before.len() && before[k] == front[i];
                assert(after[k] == names[i]);
            } else {
                assert(after[after.len() - 1] == names[i]);
            }
        }
        assert forall|k: int| 0 <= k < after.len() implies !others.contains(#[trigger] after[k])
            && names.contains(after[k]) by {
            if k < before.len() {
                assert(after[k] == before[k]);
                let i = choose|i: int| 0 <= i < front.len() && front[i] == before[k];
                assert(names[i] == after[k]);
            } else {
                assert(names[names.len() - 1] == after[k]);
            }
        }
        if forall|i: int| 0 <= i < names.len() ==> !others.contains(#[trigger] names[i]) {
            assert forall|i: int| 0 <= i < front.len() implies !others.contains(
                #[trigger] front[i],
            ) by {
                assert(front[i] == names[i]);
                assert(!others.contains(names[i]));
            }
            assert(!others.contains(names[names.len() - 1]));
            assert(after =~= names);
        }
    }
}

/// Ordering folders keeps the order of the tracks beside them, and the other way round: what a new
/// order does not name stands first, all of it, and the new order stands behind it as given.
pub proof fn a_new_order_keeps_the_other_names(
    existing: Seq<Seq<char>>,
    submitted: Seq<Seq<char>>,
)
    ensures
        solid_names(submitted).is_suffix_of(merged_order(existing, submitted)),
        forall|i: int|
            0 <= i < existing.len() && !solid_names(submitted).contains(#[trigger] existing[i])
                ==> merged_order(existing, submitted).contains(existing[i]),
        forall|k: int|
            0 <= k < merged_order(existing, submitted).len() - solid_names(submitted).len()
                ==> existing.contains(#[trigger] merged_order(existing, submitted)[k])
                && !solid_names(submitted).contains(merged_order(existing, submitted)[k]),
{
    let moved = solid_names(submitted);
    let kept = names_without(existing, moved);
    let whole = merged_order(existing, submitted);
    lemma_names_without(existing, moved);
    assert(moved =~= whole.subrange(whole.len() - moved.len(), whole.len() as int));
    assert forall|i: int|
        0 <= i < existing.len() && !moved.contains(#[trigger] existing[i]) implies whole.contains(
        existing[i],
    ) by {
        assert(kept.contains(existing[i]));
        let k = choose|k: int| 0 <= k < kept.len() && kept[k] == existing[i];
        assert(whole[k] == existing[i]);
    }
    assert forall|k: int| 0 <= k < whole.len() - moved.len() implies existing.contains(
        #[trigger] whole[k],
    ) && !moved.contains(whole[k]) by {
        assert(whole[k] == kept[k]);
    }
}

} // verus!
