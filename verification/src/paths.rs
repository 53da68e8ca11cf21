//! Paths as sequences of parts, and lists in order. A path has forward slashes on every system:
//! whoever hands one to the library writes it so.

use vstd::prelude::*;

use crate::models::{text_of, texts};
use crate::text::{
    chars_of, copy_chars, has_prefix, join, joined_by, less, less_text, lower, same, split, split_all,
    string_of,
};
use crate::urls::pair_views;

verus! {

/// The parts of a text that are neither empty nor a lone dot.
pub open spec fn solid_parts(parts: Seq<Seq<char>>) -> Seq<Seq<char>>
    decreases parts.len(),
{
    if parts.len() == 0 {
        Seq::empty()
    } else if parts.last().len() == 0 || parts.last() == "."@ {
        solid_parts(parts.drop_last())
    } else {
        solid_parts(parts.drop_last()).push(parts.last())
    }
}

/// What a path begins with: the root, the current folder, or nothing.
pub open spec fn path_head(path: Seq<char>) -> Seq<Seq<char>> {
    if path.len() > 0 && path[0] == '/' {
        seq!["/"@]
    } else if split_all(path, '/')[0] == "."@ {
        seq!["."@]
    } else {
        Seq::empty()
    }
}

/// The parts of a path. Repeated and trailing separators, and dots that stand for the same folder,
/// do not count.
pub open spec fn path_parts(path: Seq<char>) -> Seq<Seq<char>> {
    path_head(path) + solid_parts(split_all(path, '/'))
}

/// Whether a path is `root` or lies below it.
pub open spec fn lies_within(path: Seq<char>, root: Seq<char>) -> bool {
    path_parts(root).is_prefix_of(path_parts(path))
}

pub proof fn lemma_split_some(s: Seq<char>, c: char)
    ensures
        split_all(s, c).len() > 0,
{
}

/// The parts of a path.
pub fn parts_of(path: &str) -> (r: Vec<String>)
    ensures
        texts(r@) == path_parts(path@),
{
    let all = split(path, '/');
    let ghost model = texts(all@);
    proof {
        lemma_split_some(path@, '/');
    }
    let first = chars_of(path);
    let mut r: Vec<String> = Vec::new();
    if first.len() > 0 && first[0] == '/' {
        r.push("/".to_owned());
        assert(texts(r@) =~= seq!["/"@]);
    } else {
        assert(model[0] == all@[0]@);
        if same(all[0].as_str(), ".") {
            r.push(".".to_owned());
            assert(texts(r@) =~= seq!["."@]);
        } else {
            assert(texts(r@) =~= Seq::<Seq<char>>::empty());
        }
    }
    let ghost head = texts(r@);
    assert(head == path_head(path@));
    let mut i: usize = 0;
    assert(head + solid_parts(model.take(0)) =~= head);
    while i < all.len()
        invariant
            i <= all@.len(),
            model == texts(all@),
            texts(r@) == head + solid_parts(model.take(i as int)),
        decreases all@.len() - i,
    {
        assert(model.take(i + 1).drop_last() =~= model.take(i as int));
        assert(model.take(i + 1).last() == all@[i as int]@);
        if !all[i].as_str().is_empty() && !same(all[i].as_str(), ".") {
            let ghost before = texts(r@);
            r.push(all[i].clone());
            assert(texts(r@) =~= before.push(all@[i as int]@));
            assert(texts(r@) =~= head + solid_parts(model.take(i + 1)));
        }
        i += 1;
    }
    assert(model.take(i as int) =~= model);
    r
}

/// Whether one list of texts begins with another.
pub fn begins_with(all: &Vec<String>, head: &Vec<String>) -> (r: bool)
    ensures
        r == texts(head@).is_prefix_of(texts(all@)),
{
    let ghost a = texts(all@);
    let ghost h = texts(head@);
    if head.len() > all.len() {
        return false;
    }
    let mut i: usize = 0;
    while i < head.len()
        invariant
            i <= head@.len() <= all@.len(),
            a == texts(all@),
            h == texts(head@),
            forall|j: int| 0 <= j < i ==> a[j] == h[j],
        decreases head@.len() - i,
    {
        assert(a[i as int] == all@[i as int]@ && h[i as int] == head@[i as int]@);
        if !same(all[i].as_str(), head[i].as_str()) {
            assert(h[i as int] != a.subrange(0, h.len() as int)[i as int]);
            return false;
        }
        i += 1;
    }
    assert(h =~= a.subrange(0, h.len() as int));
    true
}

/// Whether a path is `root` or lies below it.
pub fn within(path: &str, root: &str) -> (r: bool)
    ensures
        r == lies_within(path@, root@),
{
    let p = parts_of(path);
    let q = parts_of(root);
    begins_with(&p, &q)
}

/// A path with forward separators and in lower case, as it is compared where case does not count.
pub open spec fn folded(path: Seq<char>) -> Seq<char> {
    lower(
        path.map_values(
            |c: char|
                if c == '\\' {
                    '/'
                } else {
                    c
                },
        ),
    )
}

pub fn fold(path: &str) -> (r: String)
    ensures
        r@ == folded(path@),
{
    let v = chars_of(path);
    let ghost model = path@.map_values(
        |c: char|
            if c == '\\' {
                '/'
            } else {
                c
            },
    );
    let mut out: Vec<char> = Vec::new();
    let mut i: usize = 0;
    while i < v.len()
        invariant
            i <= v@.len(),
            v@ == path@,
            model == path@.map_values(
                |c: char|
                    if c == '\\' {
                        '/'
                    } else {
                        c
                    },
            ),
            out@ == model.take(i as int),
        decreases v@.len() - i,
    {
        let c = v[i];
        if c == '\\' {
            out.push('/');
        } else {
            out.push(c);
        }
        i += 1;
        assert(out@ =~= model.take(i as int));
    }
    assert(out@ =~= model);
    let low = crate::text::lower_chars(out.as_slice());
    string_of(low.as_slice())
}

/// A text without the separators at its end.
pub open spec fn without_slashes(s: Seq<char>) -> Seq<char> {
    crate::text::strip_back(s, '/')
}

fn drop_slashes(s: &str) -> (r: String)
    ensures
        r@ == without_slashes(s@),
{
    let v = chars_of(s);
    let mut k: usize = v.len();
    assert(v@.take(k as int) =~= v@);
    while k > 0 && v[k - 1] == '/'
        invariant
            k <= v@.len(),
            without_slashes(v@) == without_slashes(v@.take(k as int)),
        decreases k,
    {
        assert(v@.take(k as int).drop_last() =~= v@.take(k - 1));
        k -= 1;
    }
    let part = copy_chars(v.as_slice(), 0, k);
    assert(part@ =~= v@.take(k as int));
    assert(k > 0 ==> v@.take(k as int).last() == v@[k - 1]);
    string_of(part.as_slice())
}

/// Whether a path lies below a library root. On a system where case does not count, the texts are
/// folded first.
pub open spec fn under_root(path: Seq<char>, root: Seq<char>, folds_case: bool) -> bool {
    if folds_case {
        let top = without_slashes(folded(root));
        folded(path) == top || (top + "/"@).is_prefix_of(folded(path))
    } else {
        lies_within(path, root)
    }
}

pub fn path_under_root(path: &str, root: &str, folds_case: bool) -> (r: bool)
    ensures
        r == under_root(path@, root@, folds_case),
{
    if folds_case {
        let p = fold(path);
        let folded_root = fold(root);
        let top = drop_slashes(folded_root.as_str());
        let mut below = top.clone();
        below.append("/");
        same(p.as_str(), top.as_str()) || has_prefix(p.as_str(), below.as_str())
    } else {
        within(path, root)
    }
}

/// Whether a text is in a list.
pub fn in_list(list: &Vec<String>, item: &str) -> (r: bool)
    ensures
        r == texts(list@).contains(item@),
{
    let mut i: usize = 0;
    while i < list.len()
        invariant
            i <= list@.len(),
            forall|j: int| 0 <= j < i ==> texts(list@)[j] != item@,
        decreases list@.len() - i,
    {
        assert(texts(list@)[i as int] == list@[i as int]@);
        if same(list[i].as_str(), item) {
            assert(texts(list@)[i as int] == item@);
            return true;
        }
        i += 1;
    }
    assert(texts(list@).len() == list@.len());
    false
}

/// Where a text belongs in an ordered list: behind every smaller one.
pub open spec fn rank_of(list: Seq<Seq<char>>, item: Seq<char>) -> int
    decreases list.len(),
{
    if list.len() == 0 {
        0
    } else if less(list.last(), item) {
        list.len() as int
    } else {
        rank_of(list.drop_last(), item)
    }
}

/// An ordered list with one more text in its place; one that is there already is not added.
pub open spec fn with_text(list: Seq<Seq<char>>, item: Seq<char>) -> Seq<Seq<char>> {
    let at = rank_of(list, item);
    if 0 <= at < list.len() && list[at] == item {
        list
    } else {
        list.insert(at, item)
    }
}

/// The texts in order, each once.
pub open spec fn ordered(items: Seq<Seq<char>>) -> Seq<Seq<char>>
    decreases items.len(),
{
    if items.len() == 0 {
        Seq::empty()
    } else {
        with_text(ordered(items.drop_last()), items.last())
    }
}

/// A list in strictly ascending order.
pub open spec fn ascending(list: Seq<Seq<char>>) -> bool {
    forall|i: int, j: int| 0 <= i < j < list.len() ==> less(#[trigger] list[i], #[trigger] list[j])
}

pub proof fn lemma_rank(list: Seq<Seq<char>>, item: Seq<char>)
    requires
        ascending(list),
    ensures
        0 <= rank_of(list, item) <= list.len(),
        forall|i: int| 0 <= i < rank_of(list, item) ==> less(#[trigger] list[i], item),
        forall|i: int| rank_of(list, item) <= i < list.len() ==> !less(#[trigger] list[i], item),
    decreases list.len(),
{
    if list.len() > 0 {
        if less(list.last(), item) {
            assert forall|i: int| 0 <= i < list.len() implies less(#[trigger] list[i], item) by {
                if i < list.len() - 1 {
                    assert(less(list[i], list[list.len() - 1]));
                    crate::text::lemma_less_transitive(list[i], list.last(), item);
                }
            }
        } else {
            let front = list.drop_last();
            assert forall|i: int, j: int| 0 <= i < j < front.len() implies less(
                #[trigger] front[i],
                #[trigger] front[j],
            ) by {
                assert(front[i] == list[i] && front[j] == list[j]);
            }
            lemma_rank(front, item);
            let at = rank_of(front, item);
            assert forall|i: int| 0 <= i < at implies less(#[trigger] list[i], item) by {
                assert(front[i] == list[i]);
            }
            assert forall|i: int| at <= i < list.len() implies !less(#[trigger] list[i], item) by {
                if i < front.len() {
                    assert(front[i] == list[i]);
                }
            }
        }
    }
}

/// A list of texts in order has each text once, holds exactly the texts it was made of, and grows
/// from the smallest to the largest.
pub proof fn ordered_lists_are_sorted_and_complete(items: Seq<Seq<char>>)
    ensures
        ascending(ordered(items)),
        forall|item: Seq<char>|
            #[trigger] ordered(items).contains(item) <==> items.contains(item),
    decreases items.len(),
{
    if items.len() > 0 {
        let front = items.drop_last();
        let last = items.last();
        ordered_lists_are_sorted_and_complete(front);
        let before = ordered(front);
        let at = rank_of(before, last);
        lemma_rank(before, last);
        let after = with_text(before, last);
        if at < before.len() && before[at] == last {
            assert(after == before);
        } else {
            assert(after == before.insert(at, last));
            assert forall|i: int, j: int| 0 <= i < j < after.len() implies less(
                #[trigger] after[i],
                #[trigger] after[j],
            ) by {
                let a = if i < at {
                    i
                } else {
                    i - 1
                };
                let b = if j < at {
                    j
                } else {
                    j - 1
                };
                if i != at {
                    assert(after[i] == before[a]);
                }
                if j != at {
                    assert(after[j] == before[b]);
                }
                if i == at {
                    assert(!less(before[b], last));
                    if b == at {
                        assert(before[b] != last);
                    } else {
                        assert(less(before[at], before[b]));
                        assert(!less(before[at], last));
                        if before[b] == last {
                            assert(less(before[at], last));
                        }
                    }
                    crate::text::lemma_less_total(before[b], last);
                } else if j == at {
                    assert(less(before[a], last));
                } else {
                    assert(less(before[a], before[b]));
                }
            }
        }
        assert forall|item: Seq<char>|
            #[trigger] after.contains(item) <==> items.contains(item) by {
            if after.contains(item) {
                let i = choose|i: int| 0 <= i < after.len() && after[i] == item;
                if after == before {
                    assert(before.contains(item));
                } else if i == at {
                    assert(items[items.len() - 1] == item);
                } else {
                    let a = if i < at {
                        i
                    } else {
                        i - 1
                    };
                    assert(before[a] == item);
                }
                if before.contains(item) {
                    assert(front.contains(item));
                    let k = choose|k: int| 0 <= k < front.len() && front[k] == item;
                    assert(items[k] == item);
                }
            }
            if items.contains(item) {
                let k = choose|k: int| 0 <= k < items.len() && items[k] == item;
                if k < front.len() {
                    assert(front[k] == item);
                    assert(front.contains(item));
                    assert(before.contains(item));
                    let i = choose|i: int| 0 <= i < before.len() && before[i] == item;
                    if after != before {
                        let b = if i < at {
                            i
                        } else {
                            i + 1
                        };
                        assert(after[b] == item);
                    }
                } else {
                    if after == before {
                        assert(before[at] == last);
                    } else {
                        assert(after[at] == last);
                    }
                }
            }
        }
    }
}

/// Puts a text in its place.
pub fn place_text(list: &mut Vec<String>, item: String)
    requires
        ascending(texts(old(list)@)),
    ensures
        texts(final(list)@) == with_text(texts(old(list)@), item@),
{
    let ghost model = texts(list@);
    let mut at: usize = list.len();
    assert(model.take(at as int) =~= model);
    while at > 0 && !less_text(list[at - 1].as_str(), item.as_str())
        invariant
            at <= list@.len(),
            model == texts(list@),
            rank_of(model, item@) == rank_of(model.take(at as int), item@),
        decreases at,
    {
        assert(model.take(at as int).last() == list@[at - 1]@);
        assert(model.take(at as int).drop_last() =~= model.take(at - 1));
        at -= 1;
    }
    assert(at > 0 ==> model.take(at as int).last() == list@[at - 1]@);
    assert(at == rank_of(model, item@));
    if at < list.len() {
        assert(model[at as int] == list@[at as int]@);
        if same(list[at].as_str(), item.as_str()) {
            return;
        }
    }
    list.insert(at, item);
    assert(texts(list@) =~= model.insert(at as int, item@));
}

/// The texts in order, each once.
pub fn sort_texts(items: &Vec<String>) -> (r: Vec<String>)
    ensures
        texts(r@) == ordered(texts(items@)),
{
    let ghost model = texts(items@);
    let mut r: Vec<String> = Vec::new();
    let mut i: usize = 0;
    assert(texts(r@) =~= ordered(model.take(0)));
    while i < items.len()
        invariant
            i <= items@.len(),
            model == texts(items@),
            texts(r@) == ordered(model.take(i as int)),
        decreases items@.len() - i,
    {
        proof {
            ordered_lists_are_sorted_and_complete(model.take(i as int));
        }
        assert(model.take(i + 1).drop_last() =~= model.take(i as int));
        assert(model.take(i + 1).last() == items@[i as int]@);
        place_text(&mut r, items[i].clone());
        i += 1;
    }
    assert(model.take(i as int) =~= model);
    r
}

// ---------------------------------------------------------------- folders within folders

/// A path is one of these folders or lies below one.
pub open spec fn inside_any(path: Seq<char>, roots: Seq<Seq<char>>) -> bool {
    exists|i: int| 0 <= i < roots.len() && lies_within(path, #[trigger] roots[i])
}

/// The folders without those that lie below an earlier one.
pub open spec fn outermost(folders: Seq<Seq<char>>) -> Seq<Seq<char>>
    decreases folders.len(),
{
    if folders.len() == 0 {
        Seq::empty()
    } else {
        let before = outermost(folders.drop_last());
        if inside_any(folders.last(), before) {
            before
        } else {
            before.push(folders.last())
        }
    }
}

pub fn inside_one_of(path: &str, roots: &Vec<String>) -> (r: bool)
    ensures
        r == inside_any(path@, texts(roots@)),
{
    let ghost model = texts(roots@);
    let mut i: usize = 0;
    while i < roots.len()
        invariant
            i <= roots@.len(),
            model == texts(roots@),
            forall|j: int| 0 <= j < i ==> !lies_within(path@, #[trigger] model[j]),
        decreases roots@.len() - i,
    {
        assert(model[i as int] == roots@[i as int]@);
        if within(path, roots[i].as_str()) {
            assert(lies_within(path@, model[i as int]));
            return true;
        }
        i += 1;
    }
    false
}

pub fn drop_nested(folders: &Vec<String>) -> (r: Vec<String>)
    ensures
        texts(r@) == outermost(texts(folders@)),
{
    let ghost model = texts(folders@);
    let mut r: Vec<String> = Vec::new();
    let mut i: usize = 0;
    assert(texts(r@) =~= outermost(model.take(0)));
    while i < folders.len()
        invariant
            i <= folders@.len(),
            model == texts(folders@),
            texts(r@) == outermost(model.take(i as int)),
        decreases folders@.len() - i,
    {
        assert(model.take(i + 1).drop_last() =~= model.take(i as int));
        assert(model.take(i + 1).last() == folders@[i as int]@);
        if !inside_one_of(folders[i].as_str(), &r) {
            let ghost before = texts(r@);
            r.push(folders[i].clone());
            assert(texts(r@) =~= before.push(folders@[i as int]@));
        }
        i += 1;
    }
    assert(model.take(i as int) =~= model);
    r
}

// ---------------------------------------------------------------- paths in order

/// The root comes before the current folder, that before the one above, and that before names.
pub open spec fn part_class(part: Seq<char>) -> int {
    if part == "/"@ {
        0
    } else if part == "."@ {
        1
    } else if part == ".."@ {
        2
    } else {
        3
    }
}

pub open spec fn part_before(a: Seq<char>, b: Seq<char>) -> bool {
    part_class(a) < part_class(b) || (part_class(a) == part_class(b) && less(a, b))
}

/// The order of paths: part by part, the shorter one first.
pub open spec fn parts_before(a: Seq<Seq<char>>, b: Seq<Seq<char>>) -> bool
    decreases a.len(),
{
    if b.len() == 0 {
        false
    } else if a.len() == 0 {
        true
    } else if a[0] == b[0] {
        parts_before(a.drop_first(), b.drop_first())
    } else {
        part_before(a[0], b[0])
    }
}

pub open spec fn path_before(a: Seq<char>, b: Seq<char>) -> bool {
    parts_before(path_parts(a), path_parts(b))
}

/// Two texts that name the same path.
pub open spec fn same_path(a: Seq<char>, b: Seq<char>) -> bool {
    path_parts(a) == path_parts(b)
}

fn class_of(part: &str) -> (r: u8)
    ensures
        r == part_class(part@),
{
    if same(part, "/") {
        0
    } else if same(part, ".") {
        1
    } else if same(part, "..") {
        2
    } else {
        3
    }
}

fn part_comes_before(a: &str, b: &str) -> (r: bool)
    ensures
        r == part_before(a@, b@),
{
    let x: u8 = class_of(a);
    let y: u8 = class_of(b);
    x < y || (x == y && less_text(a, b))
}

/// Whether one path comes before another.
pub fn comes_before(a: &str, b: &str) -> (r: bool)
    ensures
        r == path_before(a@, b@),
{
    let p = parts_of(a);
    let q = parts_of(b);
    let ghost x = texts(p@);
    let ghost y = texts(q@);
    let mut i: usize = 0;
    assert(x.skip(0) =~= x && y.skip(0) =~= y);
    while i < p.len() && i < q.len()
        invariant
            i <= p@.len(),
            i <= q@.len(),
            x == texts(p@),
            y == texts(q@),
            x == path_parts(a@),
            y == path_parts(b@),
            parts_before(x, y) == parts_before(x.skip(i as int), y.skip(i as int)),
        decreases p@.len() - i,
    {
        assert(x.skip(i as int)[0] == p@[i as int]@);
        assert(y.skip(i as int)[0] == q@[i as int]@);
        if !same(p[i].as_str(), q[i].as_str()) {
            return part_comes_before(p[i].as_str(), q[i].as_str());
        }
        assert(x.skip(i as int).drop_first() =~= x.skip(i + 1));
        assert(y.skip(i as int).drop_first() =~= y.skip(i + 1));
        i += 1;
    }
    i < q.len()
}

/// Whether two texts name the same path.
pub fn is_same_path(a: &str, b: &str) -> (r: bool)
    ensures
        r == same_path(a@, b@),
{
    let p = parts_of(a);
    let q = parts_of(b);
    if p.len() != q.len() {
        assert(texts(p@).len() != texts(q@).len());
        return false;
    }
    let r: bool = begins_with(&p, &q);
    assert(r ==> texts(q@) =~= texts(p@));
    assert(texts(p@) == texts(q@) ==> texts(q@) =~= texts(p@).subrange(0, texts(q@).len() as int));
    r
}

/// Where a path belongs in a list: behind every one that comes before it.
pub open spec fn path_rank(list: Seq<Seq<char>>, item: Seq<char>) -> int
    decreases list.len(),
{
    if list.len() == 0 {
        0
    } else if path_before(list.last(), item) {
        list.len() as int
    } else {
        path_rank(list.drop_last(), item)
    }
}

/// A list of paths with one more in its place; a path that is there already is not added.
pub open spec fn with_path(list: Seq<Seq<char>>, item: Seq<char>) -> Seq<Seq<char>> {
    let at = path_rank(list, item);
    if 0 <= at < list.len() && same_path(list[at], item) {
        list
    } else {
        list.insert(at, item)
    }
}

/// The paths in order, each once.
pub open spec fn ordered_paths(items: Seq<Seq<char>>) -> Seq<Seq<char>>
    decreases items.len(),
{
    if items.len() == 0 {
        Seq::empty()
    } else {
        with_path(ordered_paths(items.drop_last()), items.last())
    }
}

fn place_path(list: &mut Vec<String>, item: String)
    ensures
        texts(final(list)@) == with_path(texts(old(list)@), item@),
{
    let ghost model = texts(list@);
    let mut at: usize = list.len();
    assert(model.take(at as int) =~= model);
    while at > 0 && !comes_before(list[at - 1].as_str(), item.as_str())
        invariant
            at <= list@.len(),
            model == texts(list@),
            path_rank(model, item@) == path_rank(model.take(at as int), item@),
        decreases at,
    {
        assert(model.take(at as int).last() == list@[at - 1]@);
        assert(model.take(at as int).drop_last() =~= model.take(at - 1));
        at -= 1;
    }
    assert(at > 0 ==> model.take(at as int).last() == list@[at - 1]@);
    assert(at == path_rank(model, item@));
    if at < list.len() {
        assert(model[at as int] == list@[at as int]@);
        if is_same_path(list[at].as_str(), item.as_str()) {
            return;
        }
    }
    list.insert(at, item);
    assert(texts(list@) =~= model.insert(at as int, item@));
}

/// The paths in order, each once.
pub fn sort_paths(items: &Vec<String>) -> (r: Vec<String>)
    ensures
        texts(r@) == ordered_paths(texts(items@)),
{
    let ghost model = texts(items@);
    let mut r: Vec<String> = Vec::new();
    let mut i: usize = 0;
    assert(texts(r@) =~= ordered_paths(model.take(0)));
    while i < items.len()
        invariant
            i <= items@.len(),
            model == texts(items@),
            texts(r@) == ordered_paths(model.take(i as int)),
        decreases items@.len() - i,
    {
        assert(model.take(i + 1).drop_last() =~= model.take(i as int));
        assert(model.take(i + 1).last() == items@[i as int]@);
        place_path(&mut r, items[i].clone());
        i += 1;
    }
    assert(model.take(i as int) =~= model);
    r
}

/// Whether a path is among others.
pub open spec fn among_paths(list: Seq<Seq<char>>, item: Seq<char>) -> bool {
    exists|i: int| 0 <= i < list.len() && same_path(#[trigger] list[i], item)
}

pub fn is_among_paths(list: &Vec<String>, item: &str) -> (r: bool)
    ensures
        r == among_paths(texts(list@), item@),
{
    let ghost model = texts(list@);
    let mut i: usize = 0;
    while i < list.len()
        invariant
            i <= list@.len(),
            model == texts(list@),
            forall|j: int| 0 <= j < i ==> !same_path(#[trigger] model[j], item@),
        decreases list@.len() - i,
    {
        assert(model[i as int] == list@[i as int]@);
        if is_same_path(list[i].as_str(), item) {
            assert(same_path(model[i as int], item@));
            return true;
        }
        i += 1;
    }
    false
}

// ---------------------------------------------------------------- the folder above

/// The parts of the folder that a path lies in; nothing where it has none.
pub open spec fn parent_parts(path: Seq<char>) -> Option<Seq<Seq<char>>> {
    let parts = path_parts(path);
    if parts.len() == 0 || parts.last() == "/"@ {
        None
    } else {
        Some(parts.drop_last())
    }
}

/// A path lies directly in a folder.
pub open spec fn lies_directly_in(path: Seq<char>, folder: Seq<char>) -> bool {
    parent_parts(path) == Some(path_parts(folder))
}

pub fn is_directly_in(path: &str, folder: &str) -> (r: bool)
    ensures
        r == lies_directly_in(path@, folder@),
{
    let p = parts_of(path);
    let q = parts_of(folder);
    let ghost x = texts(p@);
    let ghost y = texts(q@);
    let count: usize = p.len();
    if count == 0 {
        return false;
    }
    assert(x.last() == p@[count - 1]@);
    if same(p[count - 1].as_str(), "/") {
        return false;
    }
    if q.len() != count - 1 {
        assert(x.drop_last().len() != y.len());
        return false;
    }
    let r: bool = begins_with(&p, &q);
    assert(x.subrange(0, y.len() as int) =~= x.drop_last());
    r
}

/// The text of a path with these parts.
pub open spec fn path_text(parts: Seq<Seq<char>>) -> Seq<char> {
    if parts.len() > 0 && parts[0] == "/"@ {
        "/"@ + joined_by(parts.drop_first(), "/"@)
    } else {
        joined_by(parts, "/"@)
    }
}

/// The text of the folder that a path lies in.
pub open spec fn parent_of(path: Seq<char>) -> Option<Seq<char>> {
    match parent_parts(path) {
        Some(parts) => Some(path_text(parts)),
        None => None,
    }
}

/// The folder that a path lies in.
pub fn parent(path: &str) -> (r: Option<String>)
    ensures
        text_of(r) == parent_of(path@),
{
    let mut p = parts_of(path);
    let ghost x = texts(p@);
    let count: usize = p.len();
    if count == 0 {
        return None;
    }
    assert(x.last() == p@[count - 1]@);
    if same(p[count - 1].as_str(), "/") {
        return None;
    }
    p.pop();
    let ghost y = x.drop_last();
    assert(texts(p@) =~= y);
    if p.len() > 0 {
        assert(y[0] == p@[0]@);
        if same(p[0].as_str(), "/") {
            p.remove(0);
            assert(texts(p@) =~= y.drop_first());
            let rest = join(&p, "/");
            let mut text = "/".to_owned();
            text.append(rest.as_str());
            assert(text@ =~= "/"@ + rest@);
            return Some(text);
        }
    }
    Some(join(&p, "/"))
}

// ---------------------------------------------------------------- notes by name

pub open spec fn note_rank(notes: Seq<(Seq<char>, Seq<char>)>, key: Seq<char>) -> int
    decreases notes.len(),
{
    if notes.len() == 0 {
        0
    } else if less(notes.last().0, key) {
        notes.len() as int
    } else {
        note_rank(notes.drop_last(), key)
    }
}

/// Notes in order of their names, with one more; a later note of the same name replaces the
/// earlier one.
pub open spec fn with_note(
    notes: Seq<(Seq<char>, Seq<char>)>,
    key: Seq<char>,
    value: Seq<char>,
) -> Seq<(Seq<char>, Seq<char>)> {
    let at = note_rank(notes, key);
    if 0 <= at < notes.len() && notes[at].0 == key {
        notes.update(at, (key, value))
    } else {
        notes.insert(at, (key, value))
    }
}

pub fn put_note(notes: &mut Vec<(String, String)>, key: String, value: String)
    ensures
        pair_views(final(notes)@) == with_note(pair_views(old(notes)@), key@, value@),
{
    let ghost model = pair_views(notes@);
    let mut at: usize = notes.len();
    assert(model.take(at as int) =~= model);
    while at > 0 && !less_text(notes[at - 1].0.as_str(), key.as_str())
        invariant
            at <= notes@.len(),
            model == pair_views(notes@),
            note_rank(model, key@) == note_rank(model.take(at as int), key@),
        decreases at,
    {
        assert(model.take(at as int).last().0 == notes@[at - 1].0@);
        assert(model.take(at as int).drop_last() =~= model.take(at - 1));
        at -= 1;
    }
    assert(at > 0 ==> model.take(at as int).last().0 == notes@[at - 1].0@);
    assert(at == note_rank(model, key@));
    let ghost entry = (key@, value@);
    if at < notes.len() {
        assert(model[at as int].0 == notes@[at as int].0@);
        if same(notes[at].0.as_str(), key.as_str()) {
            notes.set(at, (key, value));
            assert(pair_views(notes@) =~= model.update(at as int, entry));
            return;
        }
    }
    notes.insert(at, (key, value));
    assert(pair_views(notes@) =~= model.insert(at as int, entry));
}

// ---------------------------------------------------------------- numbers in order

pub open spec fn id_rank(list: Seq<i64>, id: i64) -> int
    decreases list.len(),
{
    if list.len() == 0 {
        0
    } else if list.last() < id {
        list.len() as int
    } else {
        id_rank(list.drop_last(), id)
    }
}

pub open spec fn with_id(list: Seq<i64>, id: i64) -> Seq<i64> {
    let at = id_rank(list, id);
    if 0 <= at < list.len() && list[at] == id {
        list
    } else {
        list.insert(at, id)
    }
}

/// Numbers in ascending order, each once.
pub open spec fn ordered_ids(ids: Seq<i64>) -> Seq<i64>
    decreases ids.len(),
{
    if ids.len() == 0 {
        Seq::empty()
    } else {
        with_id(ordered_ids(ids.drop_last()), ids.last())
    }
}

pub proof fn lemma_id_rank(list: Seq<i64>, id: i64)
    requires
        forall|i: int, j: int| 0 <= i < j < list.len() ==> list[i] < list[j],
    ensures
        0 <= id_rank(list, id) <= list.len(),
        forall|i: int| 0 <= i < id_rank(list, id) ==> #[trigger] list[i] < id,
        forall|i: int| id_rank(list, id) <= i < list.len() ==> #[trigger] list[i] >= id,
    decreases list.len(),
{
    if list.len() > 0 && list.last() >= id {
        lemma_id_rank(list.drop_last(), id);
        let front = list.drop_last();
        assert forall|i: int| 0 <= i < id_rank(list, id) implies #[trigger] list[i] < id by {
            assert(front[i] == list[i]);
        }
        assert forall|i: int| id_rank(list, id) <= i < list.len() implies #[trigger] list[i]
            >= id by {
            if i < front.len() {
                assert(front[i] == list[i]);
            }
        }
    }
}

/// Numbers in order ascend strictly, and none is lost or made up.
pub proof fn ordered_numbers_are_sorted_and_complete(ids: Seq<i64>)
    ensures
        forall|i: int, j: int|
            0 <= i < j < ordered_ids(ids).len() ==> ordered_ids(ids)[i] < ordered_ids(ids)[j],
        forall|id: i64| #[trigger] ordered_ids(ids).contains(id) <==> ids.contains(id),
    decreases ids.len(),
{
    if ids.len() > 0 {
        let front = ids.drop_last();
        let last = ids.last();
        ordered_numbers_are_sorted_and_complete(front);
        let before = ordered_ids(front);
        lemma_id_rank(before, last);
        let at = id_rank(before, last);
        let after = with_id(before, last);
        assert forall|id: i64| #[trigger] after.contains(id) <==> ids.contains(id) by {
            if after.contains(id) {
                let i = choose|i: int| 0 <= i < after.len() && after[i] == id;
                if after == before {
                    assert(before.contains(id));
                } else if i == at {
                    assert(ids[ids.len() - 1] == id);
                } else {
                    let a = if i < at {
                        i
                    } else {
                        i - 1
                    };
                    assert(before[a] == id);
                }
                if before.contains(id) {
                    assert(front.contains(id));
                    let k = choose|k: int| 0 <= k < front.len() && front[k] == id;
                    assert(ids[k] == id);
                }
            }
            if ids.contains(id) {
                let k = choose|k: int| 0 <= k < ids.len() && ids[k] == id;
                if k < front.len() {
                    assert(front[k] == id);
                    assert(before.contains(id));
                    let i = choose|i: int| 0 <= i < before.len() && before[i] == id;
                    if after != before {
                        let b = if i < at {
                            i
                        } else {
                            i + 1
                        };
                        assert(after[b] == id);
                    }
                } else if after == before {
                    assert(before[at] == last);
                } else {
                    assert(after[at] == last);
                }
            }
        }
    }
}

fn place_id(list: &mut Vec<i64>, id: i64)
    ensures
        final(list)@ == with_id(old(list)@, id),
{
    let ghost model = list@;
    let mut at: usize = list.len();
    assert(model.take(at as int) =~= model);
    while at > 0 && list[at - 1] >= id
        invariant
            at <= list@.len(),
            model == list@,
            id_rank(model, id) == id_rank(model.take(at as int), id),
        decreases at,
    {
        assert(model.take(at as int).drop_last() =~= model.take(at - 1));
        at -= 1;
    }
    if at < list.len() && list[at] == id {
        return;
    }
    list.insert(at, id);
}

/// Numbers in ascending order, each once.
pub fn sort_ids(ids: &Vec<i64>) -> (r: Vec<i64>)
    ensures
        r@ == ordered_ids(ids@),
{
    let mut r: Vec<i64> = Vec::new();
    let mut i: usize = 0;
    assert(ids@.take(0).len() == 0);
    while i < ids.len()
        invariant
            i <= ids@.len(),
            r@ == ordered_ids(ids@.take(i as int)),
        decreases ids@.len() - i,
    {
        assert(ids@.take(i + 1).drop_last() =~= ids@.take(i as int));
        place_id(&mut r, ids[i]);
        i += 1;
    }
    assert(ids@.take(i as int) =~= ids@);
    r
}

} // verus!
