//! What the drawing of changed paths shows: every listed path, and nothing else, in an order that
//! does not depend on the order of the listing.

use vstd::prelude::*;

use crate::order;
use crate::text;
use crate::text_laws;
use crate::tree;
use crate::tree::Tree;

verus! {

/// Whether the names of `path` stand in `t`, each below the one before.
pub open spec fn has_path(t: Tree, path: Seq<Seq<char>>) -> bool
    decreases path.len(),
{
    path.len() == 0 || (t.branches.dom().contains(path[0]) && has_path(
        t.branches[path[0]],
        path.skip(1),
    ))
}

/// Whether a line of `output` lists `path`.
pub open spec fn lists(output: Seq<char>, path: Seq<char>) -> bool {
    exists|i: int|
        0 <= i < text::lines_of(output).len() && tree::listed_path(
            #[trigger] text::lines_of(output)[i],
        ) == Some(path)
}

/// A tree that was grown by a path has the paths that it had, the new one, and the directories
/// that the new one leads through.
pub proof fn law_grown_paths(t: Tree, path: Seq<Seq<char>>, q: Seq<Seq<char>>)
    ensures
        has_path(tree::grown(t, path), q) <==> has_path(t, q) || q.is_prefix_of(path),
    decreases path.len(),
{
    if path.len() == 0 {
        assert(q.is_prefix_of(path) ==> q.len() == 0);
    } else if q.len() == 0 {
    } else if q[0] == path[0] {
        law_grown_paths(tree::below(t, path[0]), path.skip(1), q.skip(1));
        assert(q.is_prefix_of(path) <==> q.skip(1).is_prefix_of(path.skip(1))) by {
            if q.is_prefix_of(path) {
                assert(q.skip(1) =~= path.skip(1).subrange(0, q.len() - 1));
            }
            if q.skip(1).is_prefix_of(path.skip(1)) {
                assert forall|i: int| 0 <= i < q.len() implies q[i] == path[i] by {
                    if i > 0 {
                        assert(q.skip(1)[i - 1] == path.skip(1).subrange(0, q.len() - 1)[i - 1]);
                    }
                }
                assert(q =~= path.subrange(0, q.len() as int));
            }
        }
    } else {
        if q.is_prefix_of(path) {
            assert(q[0] == path.subrange(0, q.len() as int)[0]);
        }
    }
}

/// Trees with the same paths are the same.
pub proof fn lemma_same_paths(a: Tree, b: Tree)
    requires
        forall|q: Seq<Seq<char>>| has_path(a, q) <==> has_path(b, q),
    ensures
        a == b,
    decreases a,
{
    assert forall|n: Seq<char>| a.branches.dom().contains(n) <==> b.branches.dom().contains(n) by {
        let q = seq![n];
        reveal_with_fuel(has_path, 2);
        assert(q.skip(1).len() == 0);
        assert(has_path(a, q) <==> has_path(b, q));
    }
    assert forall|n: Seq<char>| a.branches.dom().contains(n) implies a.branches[n]
        == b.branches[n] by {
        assert forall|q: Seq<Seq<char>>|
            has_path(a.branches[n], q) <==> has_path(b.branches[n], q) by {
            let whole = seq![n] + q;
            assert(whole.skip(1) =~= q);
            assert(has_path(a, whole) <==> has_path(b, whole));
        }
        lemma_same_paths(a.branches[n], b.branches[n]);
    }
    assert(a.branches =~= b.branches);
}

/// Whether a line lists a path that begins with the names of `q`.
pub open spec fn begins_listed_path(lines: Seq<Seq<char>>, q: Seq<Seq<char>>) -> bool {
    exists|i: int|
        0 <= i < lines.len() && match tree::listed_path(#[trigger] lines[i]) {
            Some(path) => q.is_prefix_of(tree::path_names(path)),
            None => false,
        }
}

/// The paths of the tree of some lines are the listed ones and the directories that they lead
/// through.
pub proof fn law_tree_paths(lines: Seq<Seq<char>>, q: Seq<Seq<char>>)
    ensures
        has_path(tree::tree_of(lines), q) <==> q.len() == 0 || begins_listed_path(lines, q),
    decreases lines.len(),
{
    if lines.len() > 0 {
        let before = lines.drop_last();
        law_tree_paths(before, q);
        let line = lines[lines.len() - 1];
        match tree::listed_path(line) {
            Some(path) => {
                law_grown_paths(tree::tree_of(before), tree::path_names(path), q);
            },
            None => {},
        }
        if begins_listed_path(before, q) {
            let i = choose|i: int|
                0 <= i < before.len() && match tree::listed_path(#[trigger] before[i]) {
                    Some(path) => q.is_prefix_of(tree::path_names(path)),
                    None => false,
                };
            assert(before[i] == lines[i]);
        }
        if begins_listed_path(lines, q) {
            let i = choose|i: int|
                0 <= i < lines.len() && match tree::listed_path(#[trigger] lines[i]) {
                    Some(path) => q.is_prefix_of(tree::path_names(path)),
                    None => false,
                };
            if i < before.len() {
                assert(before[i] == lines[i]);
            }
        }
    }
}

proof fn lemma_begins_in_other(a: Seq<char>, b: Seq<char>, q: Seq<Seq<char>>)
    requires
        forall|path: Seq<char>| lists(a, path) <==> lists(b, path),
    ensures
        begins_listed_path(text::lines_of(a), q) ==> begins_listed_path(text::lines_of(b), q),
{
    let s = text::lines_of(a);
    let t = text::lines_of(b);
    if begins_listed_path(s, q) {
        let i = choose|i: int|
            0 <= i < s.len() && match tree::listed_path(#[trigger] s[i]) {
                Some(path) => q.is_prefix_of(tree::path_names(path)),
                None => false,
            };
        let path = tree::listed_path(s[i])->0;
        assert(lists(a, path));
        assert(lists(b, path));
        let j = choose|j: int|
            0 <= j < t.len() && tree::listed_path(#[trigger] text::lines_of(b)[j]) == Some(path);
        assert(tree::listed_path(t[j]) == Some(path));
    }
}

/// Two outputs that list the same paths are drawn alike: neither the order of the lines nor a
/// repeated line matters.
pub proof fn law_drawing_depends_on_listed_paths(a: Seq<char>, b: Seq<char>)
    requires
        forall|path: Seq<char>| lists(a, path) <==> lists(b, path),
    ensures
        tree::tree_text(a) == tree::tree_text(b),
{
    let s = text::lines_of(a);
    let t = text::lines_of(b);
    assert forall|q: Seq<Seq<char>>|
        has_path(tree::tree_of(s), q) <==> has_path(tree::tree_of(t), q) by {
        law_tree_paths(s, q);
        law_tree_paths(t, q);
        lemma_begins_in_other(a, b, q);
        lemma_begins_in_other(b, a, q);
    }
    lemma_same_paths(tree::tree_of(s), tree::tree_of(t));
}

/// Whether the names of a tree can be put in order, here and below.
pub open spec fn orderly(t: Tree) -> bool
    decreases t,
{
    &&& in_order(tree::names_in_order(t), t)
    &&& forall|n: Seq<char>| #[trigger]
        t.branches.dom().contains(n) ==> orderly(t.branches[n])
}

/// Whether `s` holds the names of `t`, in order.
pub open spec fn in_order(s: Seq<Seq<char>>, t: Tree) -> bool {
    order::increasing(s) && (forall|n: Seq<char>|
        s.contains(n) <==> #[trigger] t.branches.dom().contains(n))
}

/// A further name can be put into an increasing row.
proof fn lemma_place_exists(s: Seq<Seq<char>>, n: Seq<char>) -> (r: Seq<Seq<char>>)
    requires
        order::increasing(s),
    ensures
        order::increasing(r),
        forall|x: Seq<char>| r.contains(x) <==> s.contains(x) || x == n,
    decreases s.len(),
{
    if s.len() == 0 {
        let r = seq![n];
        assert(r[0] == n);
        r
    } else {
        let last = s.last();
        let init = s.drop_last();
        order::lemma_less_total(last, n);
        if order::less(last, n) {
            let r = s.push(n);
            assert forall|i: int, j: int| 0 <= i < j < r.len() implies order::less(
                #[trigger] r[i],
                #[trigger] r[j],
            ) by {
                if j == s.len() && i < s.len() - 1 {
                    order::lemma_less_transitive(s[i], s[s.len() - 1], n);
                }
            }
            assert forall|x: Seq<char>| r.contains(x) <==> s.contains(x) || x == n by {
                assert(r[s.len() as int] == n);
                if s.contains(x) {
                    let k = choose|k: int| 0 <= k < s.len() && s[k] == x;
                    assert(r[k] == x);
                }
            }
            r
        } else if last == n {
            assert(s[s.len() - 1] == n);
            s
        } else {
            let m = lemma_place_exists(init, n);
            let r = m.push(last);
            assert forall|x: Seq<char>| m.contains(x) implies order::less(x, last) by {
                if x != n {
                    let k = choose|k: int| 0 <= k < init.len() && init[k] == x;
                    assert(order::less(s[k], s[s.len() - 1]));
                }
            }
            assert forall|i: int, j: int| 0 <= i < j < r.len() implies order::less(
                #[trigger] r[i],
                #[trigger] r[j],
            ) by {
                if j == m.len() {
                    assert(m.contains(m[i]));
                }
            }
            assert forall|x: Seq<char>| r.contains(x) <==> s.contains(x) || x == n by {
                assert(r[m.len() as int] == last);
                assert(s[s.len() - 1] == last);
                assert(m.contains(x) <==> init.contains(x) || x == n);
                if s.contains(x) && x != last {
                    let k = choose|k: int| 0 <= k < s.len() && s[k] == x;
                    assert(init[k] == x);
                }
                if init.contains(x) {
                    let k = choose|k: int| 0 <= k < init.len() && init[k] == x;
                    assert(s[k] == x);
                }
                if m.contains(x) {
                    let k = choose|k: int| 0 <= k < m.len() && m[k] == x;
                    assert(r[k] == x);
                }
                if r.contains(x) && x != last {
                    let k = choose|k: int| 0 <= k < r.len() && r[k] == x;
                    assert(m[k] == x);
                }
            }
            r
        }
    }
}

proof fn lemma_empty_orderly()
    ensures
        orderly(tree::empty_tree()),
{
    let none = Seq::<Seq<char>>::empty();
    assert(in_order(none, tree::empty_tree()));
}

/// Growing keeps a tree orderly.
proof fn lemma_grown_orderly(t: Tree, path: Seq<Seq<char>>)
    requires
        orderly(t),
    ensures
        orderly(tree::grown(t, path)),
    decreases path.len(),
{
    if path.len() > 0 {
        let n = path[0];
        lemma_empty_orderly();
        lemma_grown_orderly(tree::below(t, n), path.skip(1));
        let r = lemma_place_exists(tree::names_in_order(t), n);
        let g = tree::grown(t, path);
        assert forall|x: Seq<char>|
            r.contains(x) <==> #[trigger] g.branches.dom().contains(x) by {
            assert(tree::names_in_order(t).contains(x) <==> t.branches.dom().contains(x));
        }
        assert(in_order(r, g));
        assert forall|m: Seq<char>| #[trigger] g.branches.dom().contains(m) implies orderly(
            g.branches[m],
        ) by {
            if m != n {
                assert(t.branches.dom().contains(m));
            }
        }
    }
}

/// The tree of some lines is orderly.
pub proof fn lemma_tree_orderly(lines: Seq<Seq<char>>)
    ensures
        orderly(tree::tree_of(lines)),
    decreases lines.len(),
{
    if lines.len() == 0 {
        lemma_empty_orderly();
    } else {
        lemma_tree_orderly(lines.drop_last());
        match tree::listed_path(lines.last()) {
            Some(path) => {
                lemma_grown_orderly(tree::tree_of(lines.drop_last()), tree::path_names(path));
            },
            None => {},
        }
    }
}

/// The line that draws the last name of a path that is not empty.
pub open spec fn path_line(t: Tree, path: Seq<Seq<char>>, prefix: Seq<char>) -> Seq<char>
    decreases path.len(),
{
    let last = path[0] == tree::names_in_order(t).last();
    if path.len() <= 1 {
        tree::name_line(path[0], prefix, last)
    } else {
        path_line(t.branches[path[0]], path.skip(1), tree::prefix_below(prefix, last))
    }
}

/// The paths with `name` put in front of each.
pub open spec fn prefixed(name: Seq<char>, paths: Seq<Seq<Seq<char>>>) -> Seq<Seq<Seq<char>>> {
    paths.map_values(|q: Seq<Seq<char>>| seq![name] + q)
}

/// The path of one name, and behind it those that go on below that name.
pub open spec fn node_paths(name: Seq<char>, t: Tree) -> Seq<Seq<Seq<char>>>
    decreases t, tree::names_in_order(t).len() + 1,
{
    seq![seq![name]] + prefixed(name, first_paths(t, tree::names_in_order(t).len()))
}

/// The paths that begin with one of the first `k` names of a tree.
pub open spec fn first_paths(t: Tree, k: nat) -> Seq<Seq<Seq<char>>>
    decreases t, k,
{
    let all = tree::names_in_order(t);
    if k == 0 || k > all.len() || !t.branches.dom().contains(all[k - 1]) {
        Seq::empty()
    } else {
        first_paths(t, (k - 1) as nat) + node_paths(all[k - 1], t.branches[all[k - 1]])
    }
}

/// All paths of a tree that are not empty: by name, and a directory before what lies below it.
pub open spec fn paths_in_order(t: Tree) -> Seq<Seq<Seq<char>>> {
    first_paths(t, tree::names_in_order(t).len())
}

/// The lines that draw the last names of `paths`.
pub open spec fn lines_for(
    t: Tree,
    paths: Seq<Seq<Seq<char>>>,
    prefix: Seq<char>,
) -> Seq<Seq<char>> {
    paths.map_values(|q: Seq<Seq<char>>| path_line(t, q, prefix))
}

/// Whether `q` is a path of `t` that begins with one of its first `k` names.
pub open spec fn begins_early(t: Tree, k: nat, q: Seq<Seq<char>>) -> bool {
    q.len() > 0 && has_path(t, q) && exists|j: int|
        0 <= j < k && #[trigger] tree::names_in_order(t)[j] == q[0]
}

proof fn lemma_first_paths(t: Tree, k: nat, q: Seq<Seq<char>>)
    requires
        orderly(t),
        k <= tree::names_in_order(t).len(),
    ensures
        first_paths(t, k).contains(q) <==> begins_early(t, k, q),
    decreases t, k,
{
    let all = tree::names_in_order(t);
    if k > 0 {
        let n = all[k - 1];
        assert(all.contains(n));
        assert(t.branches.dom().contains(n));
        let sub = t.branches[n];
        let rest = paths_in_order(sub);
        let early = first_paths(t, (k - 1) as nat);
        let here = node_paths(n, sub);
        lemma_first_paths(t, (k - 1) as nat, q);
        assert(first_paths(t, k) == early + here);
        assert(here[0] == seq![n]);
        assert(begins_early(t, k, q) <==> begins_early(t, (k - 1) as nat, q) || (q.len() > 0
            && has_path(t, q) && q[0] == n)) by {
            if begins_early(t, k, q) {
                let j = choose|j: int| 0 <= j < k && #[trigger] all[j] == q[0];
                assert(all[j] == q[0]);
            }
            if begins_early(t, (k - 1) as nat, q) {
                let j = choose|j: int| 0 <= j < k - 1 && #[trigger] all[j] == q[0];
                assert(all[j] == q[0]);
            }
        }
        assert(here.contains(q) <==> q.len() > 0 && has_path(t, q) && q[0] == n) by {
            lemma_first_paths(sub, tree::names_in_order(sub).len(), q.skip(1));
            if here.contains(q) {
                let i = choose|i: int| 0 <= i < here.len() && here[i] == q;
                if i == 0 {
                    assert(q.skip(1).len() == 0);
                    reveal_with_fuel(has_path, 2);
                } else {
                    assert(q == seq![n] + rest[i - 1]);
                    assert(q.skip(1) =~= rest[i - 1]);
                    assert(rest.contains(q.skip(1)));
                }
            }
            if q.len() > 0 && has_path(t, q) && q[0] == n {
                if q.len() == 1 {
                    assert(q =~= seq![n]);
                } else {
                    let r = q.skip(1);
                    assert(has_path(sub, r));
                    assert(tree::names_in_order(sub).contains(r[0])) by {
                        assert(in_order(tree::names_in_order(sub), sub)) by {
                            assert(orderly(sub));
                        }
                        assert(sub.branches.dom().contains(r[0]));
                    }
                    assert(begins_early(sub, tree::names_in_order(sub).len(), r));
                    let i = choose|i: int| 0 <= i < rest.len() && rest[i] == r;
                    assert(seq![n] + r =~= q);
                    assert(here[i + 1] == q);
                }
            }
        }
        if early.contains(q) {
            let i = choose|i: int| 0 <= i < early.len() && early[i] == q;
            assert((early + here)[i] == q);
        }
        if here.contains(q) {
            let i = choose|i: int| 0 <= i < here.len() && here[i] == q;
            assert((early + here)[early.len() + i] == q);
        }
    } else {
        assert(first_paths(t, k).len() == 0);
    }
}

proof fn lemma_first_paths_distinct(t: Tree, k: nat)
    requires
        orderly(t),
        k <= tree::names_in_order(t).len(),
    ensures
        first_paths(t, k).no_duplicates(),
    decreases t, k,
{
    let all = tree::names_in_order(t);
    if k > 0 {
        let n = all[k - 1];
        assert(all.contains(n));
        assert(t.branches.dom().contains(n));
        let sub = t.branches[n];
        let rest = paths_in_order(sub);
        let early = first_paths(t, (k - 1) as nat);
        let here = node_paths(n, sub);
        let paths = first_paths(t, k);
        lemma_first_paths_distinct(t, (k - 1) as nat);
        lemma_first_paths_distinct(sub, tree::names_in_order(sub).len());
        assert(paths == early + here);
        assert forall|i: int, j: int| 0 <= i < j < paths.len() implies paths[i] != paths[j] by {
            if j < early.len() {
                assert(early[i] != early[j]);
            } else if i < early.len() {
                assert(early.contains(early[i]));
                lemma_first_paths(t, (k - 1) as nat, early[i]);
                let m = choose|m: int| 0 <= m < k - 1 && #[trigger] all[m] == early[i][0];
                assert(order::less(all[m], all[k - 1]));
                order::lemma_less_asymmetric(all[m], n);
                assert(here[j - early.len()][0] == n);
            } else {
                let a = i - early.len();
                let b = j - early.len();
                assert(here[b] == seq![n] + rest[b - 1]);
                assert(here[b].skip(1) =~= rest[b - 1]);
                assert(rest.contains(rest[b - 1]));
                lemma_first_paths(sub, tree::names_in_order(sub).len(), rest[b - 1]);
                if a > 0 {
                    assert(here[a] == seq![n] + rest[a - 1]);
                    assert(here[a].skip(1) =~= rest[a - 1]);
                    assert(rest[a - 1] != rest[b - 1]);
                }
            }
        }
    }
}

proof fn lemma_lines_are_paths(t: Tree, k: nat, prefix: Seq<char>)
    requires
        orderly(t),
        k <= tree::names_in_order(t).len(),
    ensures
        tree::children_lines(t, k, prefix) == lines_for(t, first_paths(t, k), prefix),
    decreases t, k,
{
    let all = tree::names_in_order(t);
    if k == 0 {
        assert(tree::children_lines(t, k, prefix) =~= lines_for(t, first_paths(t, k), prefix));
    } else {
        let n = all[k - 1];
        assert(all.contains(n));
        assert(t.branches.dom().contains(n));
        let sub = t.branches[n];
        let size = tree::names_in_order(sub).len();
        let rest = paths_in_order(sub);
        let early = first_paths(t, (k - 1) as nat);
        let here = node_paths(n, sub);
        let last = k == all.len();
        let deeper = tree::prefix_below(prefix, last);
        lemma_lines_are_paths(t, (k - 1) as nat, prefix);
        lemma_lines_are_paths(sub, size, deeper);
        assert(last <==> n == all.last()) by {
            if !last {
                assert(order::less(all[k - 1], all[all.len() - 1]));
                order::lemma_less_asymmetric(n, all.last());
            }
        }
        let drawn = tree::node_lines(n, sub, prefix, last);
        assert(drawn.len() == here.len());
        assert forall|i: int| 0 <= i < here.len() implies #[trigger] drawn[i] == path_line(
            t,
            here[i],
            prefix,
        ) by {
            if i > 0 {
                let q = rest[i - 1];
                assert(rest.contains(q));
                lemma_first_paths(sub, size, q);
                assert(here[i] == seq![n] + q);
                assert(here[i].skip(1) =~= q);
                assert(drawn[i] == tree::children_lines(sub, size, deeper)[i - 1]);
                assert(drawn[i] == path_line(sub, q, deeper));
            }
        }
        assert(tree::children_lines(t, k, prefix) =~= lines_for(t, early + here, prefix));
    }
}

/// Each path of the tree that itemized output lists is drawn by one line, and no line draws
/// anything else. The line says whether the name, and each directory above it, is the last of its
/// neighbours.
pub proof fn law_every_path_is_drawn_once(output: Seq<char>)
    ensures
        ({
            let t = tree::tree_of(text::lines_of(output));
            let paths = paths_in_order(t);
            &&& tree::tree_lines(t) == lines_for(t, paths, Seq::empty())
            &&& paths.no_duplicates()
            &&& forall|q: Seq<Seq<char>>| #[trigger]
                paths.contains(q) <==> q.len() > 0 && begins_listed_path(
                    text::lines_of(output),
                    q,
                )
        }),
{
    let lines = text::lines_of(output);
    let t = tree::tree_of(lines);
    let size = tree::names_in_order(t).len();
    lemma_tree_orderly(lines);
    lemma_lines_are_paths(t, size, Seq::empty());
    law_paths_in_order_are_all_paths(t);
    assert forall|q: Seq<Seq<char>>| #[trigger]
        paths_in_order(t).contains(q) <==> q.len() > 0 && begins_listed_path(lines, q) by {
        law_tree_paths(lines, q);
    }
}

/// The lines, with `prefix` before each.
pub open spec fn behind_prefix(lines: Seq<Seq<char>>, prefix: Seq<char>) -> Seq<Seq<char>> {
    lines.map_values(|line: Seq<char>| prefix + line)
}

proof fn lemma_node_behind_prefix(
    name: Seq<char>,
    t: Tree,
    prefix: Seq<char>,
    inner: Seq<char>,
    last: bool,
)
    ensures
        tree::node_lines(name, t, prefix + inner, last) == behind_prefix(
            tree::node_lines(name, t, inner, last),
            prefix,
        ),
    decreases t, tree::names_in_order(t).len() + 1,
{
    let size = tree::names_in_order(t).len();
    let deeper = tree::prefix_below(inner, last);
    lemma_children_behind_prefix(t, size, prefix, deeper);
    assert(tree::prefix_below(prefix + inner, last) =~= prefix + deeper);
    assert(tree::name_line(name, prefix + inner, last) =~= prefix + tree::name_line(
        name,
        inner,
        last,
    ));
    assert(tree::node_lines(name, t, prefix + inner, last) =~= behind_prefix(
        tree::node_lines(name, t, inner, last),
        prefix,
    ));
}

proof fn lemma_children_behind_prefix(t: Tree, k: nat, prefix: Seq<char>, inner: Seq<char>)
    ensures
        tree::children_lines(t, k, prefix + inner) == behind_prefix(
            tree::children_lines(t, k, inner),
            prefix,
        ),
    decreases t, k,
{
    let all = tree::names_in_order(t);
    if !(k == 0 || k > all.len() || !t.branches.dom().contains(all[k - 1])) {
        let n = all[k - 1];
        lemma_children_behind_prefix(t, (k - 1) as nat, prefix, inner);
        lemma_node_behind_prefix(n, t.branches[n], prefix, inner, k == all.len());
    }
    assert(tree::children_lines(t, k, prefix + inner) =~= behind_prefix(
        tree::children_lines(t, k, inner),
        prefix,
    ));
}

/// The paths in order are the paths of the tree that are not empty, each once: one for each name
/// that lies below it, at whatever depth.
pub proof fn law_paths_in_order_are_all_paths(t: Tree)
    requires
        orderly(t),
    ensures
        paths_in_order(t).no_duplicates(),
        forall|q: Seq<Seq<char>>| #[trigger]
            paths_in_order(t).contains(q) <==> q.len() > 0 && has_path(t, q),
{
    let size = tree::names_in_order(t).len();
    lemma_first_paths_distinct(t, size);
    assert forall|q: Seq<Seq<char>>| #[trigger]
        paths_in_order(t).contains(q) <==> q.len() > 0 && has_path(t, q) by {
        lemma_first_paths(t, size, q);
        if q.len() > 0 && has_path(t, q) {
            assert(t.branches.dom().contains(q[0]));
            assert(tree::names_in_order(t).contains(q[0]));
        }
    }
}

/// What is drawn with a prefix is what is drawn without, with the prefix before each line. The
/// first line is for the name itself, and one follows for each path below it.
pub proof fn law_prefix_stands_before_each_line(
    name: Seq<char>,
    t: Tree,
    prefix: Seq<char>,
    last: bool,
)
    requires
        orderly(t),
    ensures
        tree::node_lines(name, t, prefix, last) == behind_prefix(
            tree::node_lines(name, t, Seq::empty(), last),
            prefix,
        ),
        tree::node_lines(name, t, prefix, last).len() == 1 + paths_in_order(t).len(),
        tree::node_lines(name, t, prefix, last)[0] == tree::name_line(name, prefix, last),
{
    let size = tree::names_in_order(t).len();
    lemma_node_behind_prefix(name, t, prefix, Seq::empty(), last);
    assert(prefix + Seq::<char>::empty() =~= prefix);
    lemma_lines_are_paths(t, size, tree::prefix_below(prefix, last));
}

/// `n` times a dot and a slash.
pub open spec fn dot_slashes(n: nat) -> Seq<char> {
    Seq::new(
        2 * n,
        |i: int|
            if i % 2 == 0 {
                '.'
            } else {
                '/'
            },
    )
}

proof fn lemma_dot_slashes_skipped(n: nat, rest: Seq<char>)
    requires
        rest.len() >= 2 ==> !(rest[0] == '.' && rest[1] == '/'),
    ensures
        tree::without_dot_slashes(dot_slashes(n) + rest) == rest,
    decreases n,
{
    let s = dot_slashes(n) + rest;
    if n == 0 {
        assert(s =~= rest);
    } else {
        assert(s[0] == '.');
        assert(s[1] == '/');
        assert(s.skip(2) =~= dot_slashes((n - 1) as nat) + rest);
        lemma_dot_slashes_skipped((n - 1) as nat, rest);
    }
}

/// A line lists what stands between its first bar and the second, or the end: all of it, whatever
/// characters it holds, but for dots with a slash at the start. What begins with a dot then is
/// hidden, and a line without a bar lists nothing.
pub proof fn law_listed_path_is_the_second_field(
    a: Seq<char>,
    dots: nat,
    path: Seq<char>,
    b: Seq<char>,
)
    requires
        !a.contains('|'),
        !path.contains('|'),
        path.len() >= 2 ==> !(path[0] == '.' && path[1] == '/'),
    ensures
        ({
            let field = dot_slashes(dots) + path;
            let listed = if path.len() == 0 || path[0] == '.' {
                None
            } else {
                Some(path)
            };
            &&& tree::listed_path(a) is None
            &&& tree::listed_path(a + seq!['|'] + field) == listed
            &&& tree::listed_path(a + seq!['|'] + field + seq!['|'] + b) == listed
        }),
{
    let cuts = set!['|'];
    let field = dot_slashes(dots) + path;
    let one = a + seq!['|'] + field;
    let two = one + seq!['|'] + b;
    assert forall|i: int| 0 <= i < a.len() implies !cuts.contains(#[trigger] a[i]) by {
        assert(a.contains(a[i]));
    }
    assert forall|i: int| 0 <= i < field.len() implies !cuts.contains(#[trigger] field[i]) by {
        if i >= dot_slashes(dots).len() {
            assert(path.contains(path[i - dot_slashes(dots).len()]));
        }
    }
    text_laws::lemma_pieces_of_free(a, cuts);
    text_laws::lemma_pieces_of_free(field, cuts);
    text_laws::lemma_pieces_around(a, '|', field, cuts);
    text_laws::lemma_pieces_around(one, '|', b, cuts);
    text::lemma_pieces_nonempty(b, cuts);
    assert(text::pieces(one, cuts)[1] == field);
    assert(text::pieces(two, cuts)[1] == field);
    lemma_dot_slashes_skipped(dots, path);
    text_laws::law_only_blank_text_is_trimmed_away(one);
    text_laws::law_only_blank_text_is_trimmed_away(two);
    let at = a.len() as int;
    assert(one[at] == '|' && !text::is_space(one[at]));
    assert(two[at] == '|' && !text::is_space(two[at]));
}

/// The names on a path are what stands between its slashes, where anything does.
pub proof fn law_slashes_part_names(a: Seq<char>, b: Seq<char>, name: Seq<char>)
    requires
        !name.contains('/'),
    ensures
        tree::path_names(a + seq!['/'] + b) == tree::path_names(a) + tree::path_names(b),
        tree::path_names(name) == if name.len() == 0 {
            Seq::<Seq<char>>::empty()
        } else {
            seq![name]
        },
{
    let cuts = set!['/'];
    assert forall|i: int| 0 <= i < name.len() implies !cuts.contains(#[trigger] name[i]) by {
        assert(name.contains(name[i]));
    }
    text_laws::law_filled_pieces_around(a, '/', b, cuts);
    text_laws::law_filled_piece_alone(name, cuts);
}

/// Whether one path comes before another: a directory comes before what lies in it, and otherwise
/// the first different name decides.
pub open spec fn path_before(p: Seq<Seq<char>>, q: Seq<Seq<char>>) -> bool
    decreases p.len(),
{
    if q.len() == 0 {
        false
    } else if p.len() == 0 {
        true
    } else if p[0] == q[0] {
        path_before(p.skip(1), q.skip(1))
    } else {
        order::less(p[0], q[0])
    }
}

proof fn lemma_first_paths_ordered(t: Tree, k: nat)
    requires
        orderly(t),
        k <= tree::names_in_order(t).len(),
    ensures
        forall|i: int, j: int|
            0 <= i < j < first_paths(t, k).len() ==> path_before(
                #[trigger] first_paths(t, k)[i],
                #[trigger] first_paths(t, k)[j],
            ),
    decreases t, k,
{
    let all = tree::names_in_order(t);
    if k > 0 {
        let n = all[k - 1];
        assert(all.contains(n));
        assert(t.branches.dom().contains(n));
        let sub = t.branches[n];
        let rest = paths_in_order(sub);
        let early = first_paths(t, (k - 1) as nat);
        let here = node_paths(n, sub);
        let paths = first_paths(t, k);
        lemma_first_paths_ordered(t, (k - 1) as nat);
        lemma_first_paths_ordered(sub, tree::names_in_order(sub).len());
        assert(paths == early + here);
        assert forall|i: int, j: int| 0 <= i < j < paths.len() implies path_before(
            #[trigger] paths[i],
            #[trigger] paths[j],
        ) by {
            if j < early.len() {
                assert(path_before(early[i], early[j]));
            } else if i < early.len() {
                assert(early.contains(early[i]));
                lemma_first_paths(t, (k - 1) as nat, early[i]);
                let m = choose|m: int| 0 <= m < k - 1 && #[trigger] all[m] == early[i][0];
                assert(order::less(all[m], all[k - 1]));
                order::lemma_less_asymmetric(all[m], n);
                assert(here[j - early.len()][0] == n);
            } else {
                let a = i - early.len();
                let b = j - early.len();
                assert(here[b] == seq![n] + rest[b - 1]);
                assert(here[b].skip(1) =~= rest[b - 1]);
                assert(rest.contains(rest[b - 1]));
                lemma_first_paths(sub, tree::names_in_order(sub).len(), rest[b - 1]);
                if a > 0 {
                    assert(here[a] == seq![n] + rest[a - 1]);
                    assert(here[a].skip(1) =~= rest[a - 1]);
                    assert(path_before(rest[a - 1], rest[b - 1]));
                } else {
                    assert(here[0] == seq![n]);
                    assert(here[0].skip(1).len() == 0);
                    reveal_with_fuel(path_before, 2);
                }
            }
        }
    }
}

/// The paths are drawn in order: a directory before what lies in it, and names by their characters.
pub proof fn law_paths_are_drawn_in_order(t: Tree)
    requires
        orderly(t),
    ensures
        forall|i: int, j: int|
            0 <= i < j < paths_in_order(t).len() ==> path_before(
                #[trigger] paths_in_order(t)[i],
                #[trigger] paths_in_order(t)[j],
            ),
{
    lemma_first_paths_ordered(t, tree::names_in_order(t).len());
}

/// The line of a path: for each directory above the name a bar, or a gap below the last of its
/// neighbours; then the branch, and the whole name.
pub proof fn law_line_of_a_path(
    t: Tree,
    n: Seq<char>,
    below: Seq<Seq<char>>,
    prefix: Seq<char>,
)
    requires
        orderly(t),
        t.branches.dom().contains(n),
        below.len() > 0,
    ensures
        ({
            let last = forall|m: Seq<char>| #[trigger]
                t.branches.dom().contains(m) ==> m == n || order::less(m, n);
            &&& path_line(t, seq![n], prefix) == prefix + (if last {
                "+-- "@
            } else {
                "|-- "@
            }) + n
            &&& path_line(t, seq![n] + below, prefix) == path_line(
                t.branches[n],
                below,
                prefix + (if last {
                    "   "@
                } else {
                    "|  "@
                }),
            )
        }),
{
    let all = tree::names_in_order(t);
    let last = forall|m: Seq<char>| #[trigger]
        t.branches.dom().contains(m) ==> m == n || order::less(m, n);
    assert(all.contains(n));
    let k = choose|k: int| 0 <= k < all.len() && all[k] == n;
    let top = all[all.len() - 1];
    assert(all.contains(top));
    assert(t.branches.dom().contains(top));
    assert(last <==> n == all.last()) by {
        if n == all.last() {
            assert forall|m: Seq<char>| #[trigger] t.branches.dom().contains(m) implies m == n
                || order::less(m, n) by {
                assert(all.contains(m));
                let j = choose|j: int| 0 <= j < all.len() && all[j] == m;
                if j < all.len() - 1 {
                    assert(order::less(all[j], all[all.len() - 1]));
                }
            }
        } else {
            assert(order::less(all[k], all[all.len() - 1]));
            order::lemma_less_asymmetric(n, top);
        }
    }
    reveal_strlit("+-- ");
    reveal_strlit("|-- ");
    reveal_strlit("+--");
    reveal_strlit("|--");
    reveal_strlit(" ");
    assert("+--"@ + " "@ =~= "+-- "@);
    assert("|--"@ + " "@ =~= "|-- "@);
    assert(path_line(t, seq![n], prefix) =~= prefix + (if last {
        "+-- "@
    } else {
        "|-- "@
    }) + n);
    assert((seq![n] + below).skip(1) =~= below);
}

/// The drawing is the lines of the paths, one below the other.
pub proof fn law_drawing_is_made_of_lines(output: Seq<char>)
    ensures
        ({
            let t = tree::tree_of(text::lines_of(output));
            tree::tree_text(output) == text::joined(
                lines_for(t, paths_in_order(t), Seq::empty()),
                seq!['\n'],
            )
        }),
{
    law_every_path_is_drawn_once(output);
    reveal_strlit("\n");
    assert("\n"@ =~= seq!['\n']);
}

} // verus!
