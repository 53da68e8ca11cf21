//! What the parts of a path are, when a path lies below another, and how paths are ordered.

use vstd::prelude::*;

use crate::paths::{
    among_paths, folded, inside_any, lies_within, ordered_paths, outermost, part_before, part_class,
    parts_before, path_before, path_head, path_parts, path_rank, path_text, same_path, solid_parts,
    under_root, with_path,
};
use crate::text::{lemma_less_irreflexive, lemma_less_total, lemma_less_transitive, split_all};
use crate::text_laws::{a_split_text_joins_back, parts_hold_no_separator};

verus! {

proof fn lemma_part_before_order(a: Seq<char>, b: Seq<char>, c: Seq<char>)
    ensures
        !part_before(a, a),
        part_before(a, b) && part_before(b, c) ==> part_before(a, c),
        a != b ==> part_before(a, b) || part_before(b, a),
{
    lemma_less_irreflexive(a);
    if part_before(a, b) && part_before(b, c) && part_class(a) == part_class(c) {
        lemma_less_transitive(a, b, c);
    }
    if a != b {
        lemma_less_total(a, b);
    }
}

proof fn lemma_parts_irreflexive(a: Seq<Seq<char>>)
    ensures
        !parts_before(a, a),
    decreases a.len(),
{
    if a.len() > 0 {
        lemma_parts_irreflexive(a.drop_first());
    }
}

proof fn lemma_parts_transitive(a: Seq<Seq<char>>, b: Seq<Seq<char>>, c: Seq<Seq<char>>)
    requires
        parts_before(a, b),
        parts_before(b, c),
    ensures
        parts_before(a, c),
    decreases a.len(),
{
    if a.len() > 0 && b.len() > 0 && c.len() > 0 {
        lemma_part_before_order(a[0], b[0], c[0]);
        lemma_part_before_order(a[0], a[0], a[0]);
        lemma_part_before_order(b[0], a[0], b[0]);
        if a[0] == b[0] && b[0] == c[0] {
            lemma_parts_transitive(a.drop_first(), b.drop_first(), c.drop_first());
        }
    }
}

proof fn lemma_parts_total(a: Seq<Seq<char>>, b: Seq<Seq<char>>)
    requires
        a != b,
    ensures
        parts_before(a, b) || parts_before(b, a),
    decreases a.len(),
{
    if a.len() == 0 && b.len() == 0 {
        assert(a =~= b);
    } else if a.len() > 0 && b.len() > 0 {
        if a[0] == b[0] {
            if a.drop_first() == b.drop_first() {
                assert(a =~= seq![a[0]] + a.drop_first());
                assert(b =~= seq![b[0]] + b.drop_first());
            } else {
                lemma_parts_total(a.drop_first(), b.drop_first());
            }
        } else {
            lemma_part_before_order(a[0], b[0], a[0]);
        }
    }
}

/// The order of paths is one: no path comes before itself, and of two different paths exactly one
/// comes before the other.
pub proof fn paths_have_one_order(a: Seq<char>, b: Seq<char>, c: Seq<char>)
    ensures
        !path_before(a, a),
        path_before(a, b) && path_before(b, c) ==> path_before(a, c),
        path_parts(a) != path_parts(b) ==> path_before(a, b) || path_before(b, a),
        path_parts(a) == path_parts(b) ==> !path_before(a, b),
{
    lemma_parts_irreflexive(path_parts(a));
    if path_before(a, b) && path_before(b, c) {
        lemma_parts_transitive(path_parts(a), path_parts(b), path_parts(c));
    }
    if path_parts(a) != path_parts(b) {
        lemma_parts_total(path_parts(a), path_parts(b));
    }
}

/// A folder comes before what lies below it.
pub proof fn folders_come_before_their_contents(path: Seq<char>, root: Seq<char>)
    requires
        lies_within(path, root),
        !same_path(path, root),
    ensures
        path_before(root, path),
{
    lemma_prefix_before(path_parts(root), path_parts(path));
}

proof fn lemma_prefix_before(a: Seq<Seq<char>>, b: Seq<Seq<char>>)
    requires
        a.is_prefix_of(b),
        a != b,
    ensures
        parts_before(a, b),
    decreases a.len(),
{
    if b.len() == a.len() {
        assert(a =~= b);
    } else if a.len() > 0 {
        let x = a.drop_first();
        let y = b.drop_first();
        assert(a[0] == b[0]);
        assert forall|i: int| 0 <= i < x.len() implies x[i] == y[i] by {
            assert(x[i] == a[i + 1] && y[i] == b[i + 1]);
        }
        assert(x =~= y.take(x.len() as int));
        assert(x.len() < y.len());
        lemma_prefix_before(x, y);
    }
}

pub open spec fn paths_ascend(list: Seq<Seq<char>>) -> bool {
    forall|i: int, j: int|
        #![trigger list[i], list[j]]
        0 <= i < j < list.len() ==> path_before(list[i], list[j])
}

proof fn lemma_path_rank(list: Seq<Seq<char>>, item: Seq<char>)
    requires
        paths_ascend(list),
    ensures
        0 <= path_rank(list, item) <= list.len(),
        forall|i: int| 0 <= i < path_rank(list, item) ==> path_before(#[trigger] list[i], item),
        forall|i: int|
            path_rank(list, item) <= i < list.len() ==> !path_before(#[trigger] list[i], item),
    decreases list.len(),
{
    if list.len() > 0 {
        let front = list.drop_last();
        if path_before(list.last(), item) {
            assert forall|i: int| 0 <= i < list.len() implies path_before(#[trigger] list[i], item) by {
                if i < list.len() - 1 {
                    paths_have_one_order(list[i], list.last(), item);
                }
            }
        } else {
            assert forall|i: int, j: int|
                #![trigger front[i], front[j]]
                0 <= i < j < front.len() implies path_before(front[i], front[j]) by {
                assert(front[i] == list[i] && front[j] == list[j]);
            }
            lemma_path_rank(front, item);
            let at = path_rank(front, item);
            assert forall|i: int| 0 <= i < at implies path_before(#[trigger] list[i], item) by {
                assert(front[i] == list[i]);
            }
            assert forall|i: int| at <= i < list.len() implies !path_before(
                #[trigger] list[i],
                item,
            ) by {
                if i < front.len() {
                    assert(front[i] == list[i]);
                }
            }
        }
    }
}

proof fn lemma_with_path_ascends(list: Seq<Seq<char>>, item: Seq<char>)
    requires
        paths_ascend(list),
    ensures
        paths_ascend(with_path(list, item)),
{
    lemma_path_rank(list, item);
    let at = path_rank(list, item);
    let all = with_path(list, item);
    if !(at < list.len() && same_path(list[at], item)) {
        assert(all == list.insert(at, item));
        assert forall|i: int, j: int|
            #![trigger all[i], all[j]]
            0 <= i < j < all.len() implies path_before(all[i], all[j]) by {
            if j < at {
                assert(all[i] == list[i] && all[j] == list[j]);
            } else if j == at {
                assert(all[i] == list[i] && all[j] == item);
            } else if i < at {
                assert(all[i] == list[i] && all[j] == list[j - 1]);
            } else if i > at {
                assert(all[i] == list[i - 1] && all[j] == list[j - 1]);
            } else {
                let b = list[j - 1];
                assert(all[i] == item && all[j] == b);
                paths_have_one_order(item, b, b);
                if path_parts(b) == path_parts(item) {
                    assert(at < j - 1);
                    assert(path_before(list[at], b));
                    assert(!path_before(list[at], item));
                }
            }
        }
    }
}

proof fn lemma_with_path_holds(list: Seq<Seq<char>>, item: Seq<char>)
    requires
        paths_ascend(list),
    ensures
        among_paths(with_path(list, item), item),
        forall|i: int|
            #![trigger list[i]]
            0 <= i < list.len() ==> with_path(list, item).contains(list[i]),
        forall|i: int|
            #![trigger with_path(list, item)[i]]
            0 <= i < with_path(list, item).len() ==> with_path(list, item)[i] == item
                || list.contains(with_path(list, item)[i]),
{
    lemma_path_rank(list, item);
    let at = path_rank(list, item);
    let all = with_path(list, item);
    let there = at < list.len() && same_path(list[at], item);
    assert(same_path(all[at], item));
    assert forall|i: int| #![trigger list[i]] 0 <= i < list.len() implies all.contains(list[i]) by {
        let m = if there || i < at {
            i
        } else {
            i + 1
        };
        assert(all[m] == list[i]);
    }
    assert forall|i: int| #![trigger all[i]] 0 <= i < all.len() implies all[i] == item
        || list.contains(all[i]) by {
        let m = if there || i < at {
            i
        } else {
            i - 1
        };
        if there || i != at {
            assert(list[m] == all[i]);
        }
    }
}

proof fn lemma_ordered_paths_ascend(items: Seq<Seq<char>>)
    ensures
        paths_ascend(ordered_paths(items)),
    decreases items.len(),
{
    if items.len() > 0 {
        lemma_ordered_paths_ascend(items.drop_last());
        lemma_with_path_ascends(ordered_paths(items.drop_last()), items.last());
    }
}

/// Every path of a list is among its paths in order.
pub proof fn ordering_paths_loses_none(items: Seq<Seq<char>>, k: int)
    requires
        0 <= k < items.len(),
    ensures
        exists|i: int|
            0 <= i < ordered_paths(items).len() && path_parts(#[trigger] ordered_paths(items)[i])
                == path_parts(items[k]),
    decreases items.len(),
{
    let front = items.drop_last();
    let item = items.last();
    let list = ordered_paths(front);
    let all = ordered_paths(items);
    lemma_ordered_paths_ascend(front);
    lemma_with_path_holds(list, item);
    if k < front.len() {
        ordering_paths_loses_none(front, k);
        let i = choose|i: int|
            0 <= i < list.len() && path_parts(#[trigger] list[i]) == path_parts(front[k]);
        assert(all.contains(list[i]));
        let m = choose|m: int| 0 <= m < all.len() && all[m] == list[i];
        assert(path_parts(all[m]) == path_parts(items[k]));
    } else {
        let m = choose|m: int| 0 <= m < all.len() && same_path(#[trigger] all[m], item);
        assert(path_parts(all[m]) == path_parts(items[k]));
    }
}

/// Paths that are put in order stand each once, from the first to the last, and each of them is a
/// text of the list.
pub proof fn ordered_paths_stand_in_order(items: Seq<Seq<char>>, i: int)
    requires
        0 <= i < ordered_paths(items).len(),
    ensures
        paths_ascend(ordered_paths(items)),
        items.contains(ordered_paths(items)[i]),
    decreases items.len(),
{
    lemma_ordered_paths_ascend(items);
    let front = items.drop_last();
    let item = items.last();
    let list = ordered_paths(front);
    let x = ordered_paths(items)[i];
    lemma_ordered_paths_ascend(front);
    lemma_with_path_holds(list, item);
    if x == item {
        assert(items[items.len() - 1] == x);
    } else {
        let m = choose|m: int| 0 <= m < list.len() && list[m] == x;
        ordered_paths_stand_in_order(front, m);
        let k = choose|k: int| 0 <= k < front.len() && front[k] == list[m];
        assert(items[k] == x);
    }
}

/// The parts of a path stand between separators in its text, in that order; empty ones and lone
/// dots are no parts. A leading separator is the first part of its own.
pub proof fn parts_stand_between_separators(path: Seq<char>)
    ensures
        forall|i: int|
            #![trigger path_parts(path)[i]]
            1 <= i < path_parts(path).len() ==> split_all(path, '/').contains(path_parts(path)[i])
                && path_parts(path)[i].len() > 0 && path_parts(path)[i] != "."@
                && !path_parts(path)[i].contains('/'),
        forall|k: int|
            #![trigger split_all(path, '/')[k]]
            0 <= k < split_all(path, '/').len() && split_all(path, '/')[k].len() > 0 && split_all(
                path,
                '/',
            )[k] != "."@ ==> path_parts(path).contains(split_all(path, '/')[k]),
        path.len() > 0 && path[0] == '/' <==> (path_parts(path).len() > 0 && path_parts(path)[0]
            == "/"@),
{
    let texts = split_all(path, '/');
    let solid = solid_parts(texts);
    let parts = path_parts(path);
    lemma_solid(texts);
    parts_hold_no_separator(path, '/');
    a_split_text_joins_back(path, '/');
    reveal_strlit("/");
    reveal_strlit(".");
    assert forall|i: int| #![trigger parts[i]] 1 <= i < parts.len() implies texts.contains(parts[i])
        && parts[i].len() > 0 && parts[i] != "."@ && !parts[i].contains('/') by {
        let m = i - path_head(path).len();
        assert(parts[i] == solid[m]);
        assert(texts.contains(solid[m]));
        let k = choose|k: int| 0 <= k < texts.len() && texts[k] == solid[m];
        assert(!texts[k].contains('/'));
    }
    assert forall|k: int|
        #![trigger texts[k]]
        0 <= k < texts.len() && texts[k].len() > 0 && texts[k] != "."@ implies parts.contains(
        texts[k],
    ) by {
        assert(solid.contains(texts[k]));
        let m = choose|m: int| 0 <= m < solid.len() && solid[m] == texts[k];
        assert(parts[m + path_head(path).len()] == texts[k]);
    }
    if parts.len() > 0 && parts[0] == "/"@ && !(path.len() > 0 && path[0] == '/') {
        if path_head(path).len() == 0 {
            assert(parts[0] == solid[0]);
            assert(texts.contains(solid[0]));
            let k = choose|k: int| 0 <= k < texts.len() && texts[k] == solid[0];
            assert(!texts[k].contains('/'));
            assert("/"@[0] == '/');
            assert("/"@.contains('/'));
        } else {
            assert("/"@[0] != "."@[0]);
        }
    }
}

proof fn lemma_solid(texts: Seq<Seq<char>>)
    ensures
        forall|i: int|
            #![trigger solid_parts(texts)[i]]
            0 <= i < solid_parts(texts).len() ==> texts.contains(solid_parts(texts)[i])
                && solid_parts(texts)[i].len() > 0 && solid_parts(texts)[i] != "."@,
        forall|k: int|
            #![trigger texts[k]]
            0 <= k < texts.len() && texts[k].len() > 0 && texts[k] != "."@ ==> solid_parts(
                texts,
            ).contains(texts[k]),
    decreases texts.len(),
{
    if texts.len() > 0 {
        let front = texts.drop_last();
        let before = solid_parts(front);
        let solid = solid_parts(texts);
        lemma_solid(front);
        assert forall|i: int| #![trigger solid[i]] 0 <= i < solid.len() implies texts.contains(
            solid[i],
        ) && solid[i].len() > 0 && solid[i] != "."@ by {
            if i < before.len() {
                assert(solid[i] == before[i]);
                let k = choose|k: int| 0 <= k < front.len() && front[k] == before[i];
                assert(texts[k] == solid[i]);
            } else {
                assert(texts[texts.len() - 1] == solid[i]);
            }
        }
        assert forall|k: int|
            #![trigger texts[k]]
            0 <= k < texts.len() && texts[k].len() > 0 && texts[k] != "."@ implies solid.contains(
            texts[k],
        ) by {
            if k < front.len() {
                assert(front[k] == texts[k]);
                let i = choose|i: int| 0 <= i < before.len() && before[i] == front[k];
                assert(solid[i] == texts[k]);
            } else {
                assert(solid[solid.len() - 1] == texts[k]);
            }
        }
    }
}

/// Lying within goes from folder to folder, and two paths that lie within each other are one.
pub proof fn lying_within_is_an_order(a: Seq<char>, b: Seq<char>, c: Seq<char>)
    ensures
        lies_within(a, a),
        lies_within(a, b) && lies_within(b, c) ==> lies_within(a, c),
        lies_within(a, b) && lies_within(b, a) ==> path_parts(a) == path_parts(b),
{
    if lies_within(a, b) && lies_within(b, a) {
        assert(path_parts(a) =~= path_parts(b));
    }
}

/// A path lies within a folder exactly where the folder's parts are its first ones.
pub proof fn a_path_within_begins_with_the_folder(path: Seq<char>, root: Seq<char>)
    ensures
        lies_within(path, root) <==> (path_parts(root).len() <= path_parts(path).len() && forall|i:
            int|
            #![trigger path_parts(root)[i]]
            0 <= i < path_parts(root).len() ==> path_parts(path)[i] == path_parts(root)[i]),
{
    let a = path_parts(root);
    let b = path_parts(path);
    if a.len() <= b.len() && (forall|i: int| #![trigger a[i]] 0 <= i < a.len() ==> b[i] == a[i]) {
        assert(a =~= b.take(a.len() as int));
    }
}

/// Of folders that are put together, every one lies within one that is kept; the kept ones come
/// from the list, and none lies within an earlier one.
pub proof fn the_outermost_folders_hold_the_others(folders: Seq<Seq<char>>)
    ensures
        forall|k: int|
            #![trigger folders[k]]
            0 <= k < folders.len() ==> inside_any(folders[k], outermost(folders)),
        forall|i: int|
            #![trigger outermost(folders)[i]]
            0 <= i < outermost(folders).len() ==> folders.contains(outermost(folders)[i]),
        forall|i: int, j: int|
            #![trigger outermost(folders)[i], outermost(folders)[j]]
            0 <= i < j < outermost(folders).len() ==> !lies_within(
                outermost(folders)[j],
                outermost(folders)[i],
            ),
    decreases folders.len(),
{
    if folders.len() > 0 {
        let front = folders.drop_last();
        let before = outermost(front);
        let all = outermost(folders);
        let last = folders.last();
        the_outermost_folders_hold_the_others(front);
        assert forall|k: int| #![trigger folders[k]] 0 <= k < folders.len() implies inside_any(
            folders[k],
            all,
        ) by {
            if k < front.len() {
                assert(front[k] == folders[k]);
                let i = choose|i: int|
                    0 <= i < before.len() && lies_within(front[k], #[trigger] before[i]);
                assert(all[i] == before[i]);
            } else if all.len() > before.len() {
                lying_within_is_an_order(last, last, last);
                assert(all[before.len() as int] == last);
            }
        }
        assert forall|i: int| #![trigger all[i]] 0 <= i < all.len() implies folders.contains(all[i]) by {
            if i < before.len() {
                assert(all[i] == before[i]);
                let k = choose|k: int| 0 <= k < front.len() && front[k] == before[i];
                assert(folders[k] == all[i]);
            } else {
                assert(folders[folders.len() - 1] == all[i]);
            }
        }
        assert forall|i: int, j: int|
            #![trigger all[i], all[j]]
            0 <= i < j < all.len() implies !lies_within(all[j], all[i]) by {
            assert(all[i] == before[i]);
            if j < before.len() {
                assert(all[j] == before[j]);
            }
        }
    }
}

/// A path is folded character by character: a backslash becomes a slash, a capital letter its small
/// one, and everything else stays.
pub proof fn folding_goes_by_characters(path: Seq<char>)
    ensures
        folded(path).len() == path.len(),
        forall|i: int|
            #![trigger folded(path)[i]]
            0 <= i < path.len() ==> {
                let c = path[i];
                &&& c == '\\' ==> folded(path)[i] == '/'
                &&& 65 <= c as u32 && c as u32 <= 90 ==> folded(path)[i] as u32 == c as u32 + 32
                &&& c != '\\' && !(65 <= c as u32 && c as u32 <= 90) ==> folded(path)[i] == c
            },
{
    let slashed = path.map_values(
        |c: char|
            if c == '\\' {
                '/'
            } else {
                c
            },
    );
    crate::text_laws::lower_case_changes_capitals_alone(slashed);
    assert forall|i: int| #![trigger folded(path)[i]] 0 <= i < path.len() implies {
        let c = path[i];
        &&& c == '\\' ==> folded(path)[i] == '/'
        &&& 65 <= c as u32 && c as u32 <= 90 ==> folded(path)[i] as u32 == c as u32 + 32
        &&& c != '\\' && !(65 <= c as u32 && c as u32 <= 90) ==> folded(path)[i] == c
    } by {
        assert(folded(path)[i] == crate::text::lower(slashed)[i]);
    }
}

/// Where case does not count, a path lies below a root whatever the case of either; where it does,
/// it is a matter of their parts.
pub proof fn lying_below_a_root(path: Seq<char>, other: Seq<char>, root: Seq<char>)
    ensures
        under_root(path, root, false) <==> lies_within(path, root),
        folded(path) == folded(other) ==> (under_root(path, root, true) <==> under_root(
            other,
            root,
            true,
        )),
        root.len() > 0 && folded(root).last() != '/' ==> under_root(root, root, true),
{
    if root.len() > 0 && folded(root).last() != '/' {
        assert(folded(root).len() == root.len());
    }
}

/// The text of a path with these parts begins with the root, where the path does, and holds the
/// parts with one separator between any two.
pub proof fn a_path_is_written_part_by_part(parts: Seq<Seq<char>>, last: Seq<char>)
    ensures
        path_text(Seq::empty()).len() == 0,
        last != "/"@ ==> path_text(seq![last]) == last,
        parts.len() > 0 && parts[0] != "/"@ ==> path_text(parts.push(last)) == path_text(parts) + seq![
            '/',
        ] + last,
        parts.len() > 1 && parts[0] == "/"@ ==> path_text(parts.push(last)) == path_text(parts) + seq![
            '/',
        ] + last,
        path_text(seq!["/"@, last]) == seq!['/'] + last,
{
    reveal_strlit("/");
    assert("/"@ =~= seq!['/']);
    assert(crate::text::joined_by(seq![last], "/"@) == last);
    assert(seq!["/"@, last].drop_first() =~= seq![last]);
    if parts.len() > 0 && parts[0] != "/"@ {
        assert(parts.push(last).drop_last() =~= parts);
    }
    if parts.len() > 1 && parts[0] == "/"@ {
        let rest = parts.drop_first();
        assert(parts.push(last).drop_first() =~= rest.push(last));
        assert(rest.push(last).drop_last() =~= rest);
        assert("/"@ + (crate::text::joined_by(rest, "/"@) + "/"@ + last) =~= "/"@
            + crate::text::joined_by(rest, "/"@) + "/"@ + last);
    }
}

} // verus!
