//! The tree of changed paths, and how it is drawn.

use vstd::prelude::*;
use vstd::slice::{slice_subrange, slice_to_vec};

use crate::order;
use crate::text;
use crate::tree_laws;

verus! {

/// A tree of names: below each name another tree.
pub struct Tree {
    pub branches: Map<Seq<char>, Tree>,
}

/// A directory or file in the tree, with what lies below it in the order of the names.
pub struct TreeNode {
    children: Vec<Child>,
}

struct Child {
    name: Vec<char>,
    node: TreeNode,
}

/// The tree without names.
pub open spec fn empty_tree() -> Tree {
    Tree { branches: Map::empty() }
}

/// The tree below `name`, which is empty where `t` does not have that name.
pub open spec fn below(t: Tree, name: Seq<char>) -> Tree {
    if t.branches.dom().contains(name) {
        t.branches[name]
    } else {
        empty_tree()
    }
}

/// `t` with the names of `path` in it, each below the one before.
pub open spec fn grown(t: Tree, path: Seq<Seq<char>>) -> Tree
    decreases path.len(),
{
    if path.len() == 0 {
        t
    } else {
        Tree { branches: t.branches.insert(path[0], grown(below(t, path[0]), path.skip(1))) }
    }
}

spec fn names(c: Seq<Child>) -> Seq<Seq<char>> {
    c.map_values(|d: Child| d.name@)
}

spec fn branches(c: Seq<Child>) -> Map<Seq<char>, Tree>
    decreases c,
{
    if c.len() == 0 {
        Map::empty()
    } else {
        branches(c.drop_last()).insert(c.last().name@, c.last().node@)
    }
}

impl TreeNode {
    /// The tree that the node holds.
    pub closed spec fn view(&self) -> Tree
        decreases self,
    {
        Tree { branches: branches(self.children@) }
    }

    /// The children stand in the order of their names, here and below.
    pub closed spec fn wf(&self) -> bool
        decreases self,
    {
        &&& order::increasing(names(self.children@))
        &&& forall|i: int|
            0 <= i < self.children@.len() ==> (#[trigger] self.children@[i]).node.wf()
    }

    /// A node with nothing below it.
    pub fn new() -> (r: TreeNode)
        ensures
            r@ == empty_tree(),
            r.wf(),
    {
        TreeNode { children: Vec::new() }
    }
}

/// The branches are those of the children, each under its name.
proof fn lemma_branches(c: Seq<Child>)
    requires
        order::increasing(names(c)),
    ensures
        forall|n: Seq<char>|
            #[trigger] branches(c).dom().contains(n) <==> names(c).contains(n),
        forall|i: int|
            0 <= i < c.len() ==> branches(c)[(#[trigger] c[i]).name@] == c[i].node@,
    decreases c.len(),
{
    if c.len() > 0 {
        let d = c.drop_last();
        assert(names(d) =~= names(c).drop_last());
        lemma_branches(d);
        let last = c.last();
        assert(names(c)[c.len() - 1] == last.name@);
        assert forall|n: Seq<char>|
            #[trigger] branches(c).dom().contains(n) <==> names(c).contains(n) by {
            assert(branches(d).dom().contains(n) <==> names(d).contains(n));
            if names(c).contains(n) && n != last.name@ {
                let k = choose|k: int| 0 <= k < names(c).len() && names(c)[k] == n;
                assert(names(d)[k] == n);
            }
            if names(d).contains(n) {
                let k = choose|k: int| 0 <= k < names(d).len() && names(d)[k] == n;
                assert(names(c)[k] == n);
            }
        }
        assert forall|i: int| 0 <= i < c.len() implies branches(c)[(#[trigger] c[i]).name@]
            == c[i].node@ by {
            if i < d.len() {
                assert(d[i] == c[i]);
                assert(names(c)[i] == c[i].name@);
                assert(order::less(names(c)[i], names(c)[c.len() - 1]));
                order::lemma_less_asymmetric(c[i].name@, last.name@);
            }
        }
    }
}

/// Putting a child with a new name at its place.
proof fn lemma_branches_insert(c: Seq<Child>, i: int, d: Child)
    requires
        order::increasing(names(c)),
        0 <= i <= c.len(),
        forall|j: int| 0 <= j < i ==> order::less(#[trigger] names(c)[j], d.name@),
        forall|j: int| i <= j < c.len() ==> order::less(d.name@, #[trigger] names(c)[j]),
    ensures
        order::increasing(names(c.insert(i, d))),
        branches(c.insert(i, d)) == branches(c).insert(d.name@, d.node@),
        !branches(c).dom().contains(d.name@),
{
    let e = c.insert(i, d);
    assert forall|a: int, b: int| 0 <= a < b < names(e).len() implies order::less(
        #[trigger] names(e)[a],
        #[trigger] names(e)[b],
    ) by {
        let a0 = if a < i { a } else { a - 1 };
        let b0 = if b < i { b } else { b - 1 };
        if a != i {
            assert(names(e)[a] == names(c)[a0]);
        }
        if b != i {
            assert(names(e)[b] == names(c)[b0]);
        }
    }
    lemma_branches(c);
    lemma_branches(e);
    if names(c).contains(d.name@) {
        let k = choose|k: int| 0 <= k < names(c).len() && names(c)[k] == d.name@;
        order::lemma_less_asymmetric(d.name@, d.name@);
    }
    assert(e[i] == d);
    assert(names(e)[i] == d.name@);
    assert forall|n: Seq<char>| #[trigger]
        branches(e).dom().contains(n) <==> branches(c).insert(d.name@, d.node@).dom().contains(
            n,
        ) by {
        if names(e).contains(n) && n != d.name@ {
            let k = choose|k: int| 0 <= k < names(e).len() && names(e)[k] == n;
            assert(names(c)[if k < i { k } else { k - 1 }] == n);
        }
        if names(c).contains(n) {
            let k = choose|k: int| 0 <= k < names(c).len() && names(c)[k] == n;
            assert(names(e)[if k < i { k } else { k + 1 }] == n);
        }
    }
    assert forall|n: Seq<char>| #[trigger] branches(e).dom().contains(n) implies branches(e)[n]
        == branches(c).insert(d.name@, d.node@)[n] by {
        if n != d.name@ {
            let k = choose|k: int| 0 <= k < names(e).len() && names(e)[k] == n;
            let k0 = if k < i { k } else { k - 1 };
            assert(e[k] == c[k0]);
            assert(e[k].name@ == n);
            assert(c[k0].name@ == n);
        }
    }
    assert(branches(e) =~= branches(c).insert(d.name@, d.node@));
}

/// Putting another child of the same name in the place of one.
proof fn lemma_branches_update(c: Seq<Child>, i: int, d: Child)
    requires
        order::increasing(names(c)),
        0 <= i < c.len(),
        c[i].name@ == d.name@,
    ensures
        order::increasing(names(c.update(i, d))),
        branches(c.update(i, d)) == branches(c).insert(d.name@, d.node@),
        branches(c).dom().contains(d.name@),
        branches(c)[d.name@] == c[i].node@,
{
    let e = c.update(i, d);
    assert(names(e) =~= names(c));
    lemma_branches(c);
    lemma_branches(e);
    assert(names(c)[i] == d.name@);
    assert forall|n: Seq<char>| #[trigger] branches(e).dom().contains(n) implies branches(e)[n]
        == branches(c).insert(d.name@, d.node@)[n] by {
        let k = choose|k: int| 0 <= k < names(e).len() && names(e)[k] == n;
        assert(e[k].name@ == n);
        if n == d.name@ {
            assert(e[i].name@ == n);
        } else {
            assert(e[k] == c[k]);
            assert(c[k].name@ == n);
        }
    }
    assert(branches(e) =~= branches(c).insert(d.name@, d.node@));
}

/// Puts the names of `parts`, from the one at `k` on, below `node`, each below the one before.
fn insert_parts(node: &mut TreeNode, parts: &Vec<&[char]>, k: usize)
    requires
        old(node).wf(),
        k <= parts.len(),
    ensures
        final(node).wf(),
        final(node)@ == grown(old(node)@, text::views(parts@).skip(k as int)),
    decreases parts.len() - k,
{
    if k == parts.len() {
        return;
    }
    let ghost path = text::views(parts@).skip(k as int);
    let ghost c = node.children@;
    let name = parts[k];
    assert(path[0] == name@);
    assert(path.skip(1) =~= text::views(parts@).skip(k + 1));
    let mut i: usize = node.children.len();
    while i > 0 && order::compare(name, node.children[i - 1].name.as_slice()) == order::Place::Before
        invariant
            i <= c.len(),
            node.children@ == c,
            forall|j: int| i <= j < c.len() ==> order::less(name@, #[trigger] names(c)[j]),
        decreases i,
    {
        assert(names(c)[i - 1] == c[i - 1].name@);
        i -= 1;
    }
    if i > 0 && text::same(name, node.children[i - 1].name.as_slice()) {
        insert_parts(&mut node.children[i - 1].node, parts, k + 1);
        proof {
            let d = node.children@[i - 1];
            assert(node.children@ =~= c.update(i - 1, d));
            lemma_branches_update(c, i - 1, d);
        }
    } else {
        let mut below = TreeNode::new();
        insert_parts(&mut below, parts, k + 1);
        let d = Child { name: slice_to_vec(name), node: below };
        proof {
            assert forall|j: int| 0 <= j < i implies order::less(
                #[trigger] names(c)[j],
                d.name@,
            ) by {
                let last = c[i - 1].name@;
                assert(names(c)[i - 1] == last);
                order::lemma_less_total(last, name@);
                if j < i - 1 {
                    order::lemma_less_transitive(names(c)[j], last, name@);
                }
            }
            lemma_branches_insert(c, i as int, d);
        }
        node.children.insert(i, d);
    }
}

/// The names on a path: what stands between its slashes, where anything does.
pub open spec fn path_names(path: Seq<char>) -> Seq<Seq<char>> {
    text::filled_pieces(path, set!['/'])
}

fn insert_chars(root: &mut TreeNode, path: &[char])
    requires
        old(root).wf(),
    ensures
        final(root).wf(),
        final(root)@ == grown(old(root)@, path_names(path@)),
{
    let parts = text::split_filled(path, text::Separator::Symbol('/'));
    assert(text::views(parts@).skip(0) =~= text::views(parts@));
    insert_parts(root, &parts, 0);
}

/// Puts `path` into the tree below `root`, with the directories that it leads through.
pub fn insert_path(root: &mut TreeNode, path: &str)
    requires
        old(root).wf(),
    ensures
        final(root).wf(),
        final(root)@ == grown(old(root)@, path_names(path@)),
{
    insert_chars(root, text::chars_of(path).as_slice());
}

/// The names of a tree, in order.
pub open spec fn names_in_order(t: Tree) -> Seq<Seq<char>> {
    choose|s: Seq<Seq<char>>|
        order::increasing(s) && (forall|n: Seq<char>|
            s.contains(n) <==> #[trigger] t.branches.dom().contains(n))
}

/// The line for one name.
pub open spec fn name_line(name: Seq<char>, prefix: Seq<char>, last: bool) -> Seq<char> {
    prefix + (if last {
        "+--"@
    } else {
        "|--"@
    }) + " "@ + name
}

/// What the lines below a name begin with.
pub open spec fn prefix_below(prefix: Seq<char>, last: bool) -> Seq<char> {
    prefix + (if last {
        "   "@
    } else {
        "|  "@
    })
}

/// The lines for a name and for the tree below it.
pub open spec fn node_lines(
    name: Seq<char>,
    t: Tree,
    prefix: Seq<char>,
    last: bool,
) -> Seq<Seq<char>>
    decreases t, names_in_order(t).len() + 1,
{
    seq![name_line(name, prefix, last)] + children_lines(
        t,
        names_in_order(t).len(),
        prefix_below(prefix, last),
    )
}

/// The lines for the first `k` names of a tree and for what lies below them.
pub open spec fn children_lines(t: Tree, k: nat, prefix: Seq<char>) -> Seq<Seq<char>>
    decreases t, k,
{
    let all = names_in_order(t);
    if k == 0 || k > all.len() || !t.branches.dom().contains(all[k - 1]) {
        Seq::empty()
    } else {
        children_lines(t, (k - 1) as nat, prefix) + node_lines(
            all[k - 1],
            t.branches[all[k - 1]],
            prefix,
            k == all.len(),
        )
    }
}

/// The lines that draw a whole tree.
pub open spec fn tree_lines(t: Tree) -> Seq<Seq<char>> {
    children_lines(t, names_in_order(t).len(), Seq::empty())
}

/// The children stand in the order in which they are drawn.
proof fn lemma_children_in_order(node: TreeNode)
    requires
        node.wf(),
    ensures
        names(node.children@) == names_in_order(node@),
        forall|i: int|
            0 <= i < node.children@.len() ==> node@.branches.dom().contains(
                (#[trigger] node.children@[i]).name@,
            ) && node@.branches[node.children@[i].name@] == node.children@[i].node@,
{
    let c = node.children@;
    let t = node@;
    lemma_branches(c);
    let mine = names(c);
    assert(order::increasing(mine) && (forall|n: Seq<char>|
        mine.contains(n) <==> #[trigger] t.branches.dom().contains(n)));
    let chosen = names_in_order(t);
    assert forall|x: Seq<char>| mine.contains(x) <==> chosen.contains(x) by {
        assert(mine.contains(x) <==> t.branches.dom().contains(x));
    }
    order::lemma_increasing_unique(mine, chosen);
    assert forall|i: int| 0 <= i < c.len() implies t.branches.dom().contains(
        (#[trigger] c[i]).name@,
    ) by {
        assert(mine[i] == c[i].name@);
    }
}

/// A well-formed node holds a tree whose names can be put in order, here and below; so all that lies
/// below it is drawn.
pub proof fn law_well_formed_is_orderly(node: TreeNode)
    requires
        node.wf(),
    ensures
        tree_laws::orderly(node@),
    decreases node,
{
    let c = node.children@;
    let t = node@;
    lemma_children_in_order(node);
    lemma_branches(c);
    assert forall|n: Seq<char>| #[trigger] t.branches.dom().contains(n) implies tree_laws::orderly(
        t.branches[n],
    ) by {
        let i = choose|i: int| 0 <= i < names(c).len() && names(c)[i] == n;
        assert(c[i].name@ == n);
        law_well_formed_is_orderly(c[i].node);
    }
}

/// Appends the lines for what lies below `node`.
fn render_children(lines: &mut Vec<String>, node: &TreeNode, prefix: &str)
    requires
        node.wf(),
    ensures
        text::texts(final(lines)@) == text::texts(old(lines)@) + children_lines(
            node@,
            names_in_order(node@).len(),
            prefix@,
        ),
    decreases node, 0int,
{
    let ghost before = text::texts(lines@);
    let n: usize = node.children.len();
    let mut i: usize = 0;
    proof {
        lemma_children_in_order(*node);
    }
    assert(before =~= before + children_lines(node@, 0, prefix@));
    while i < n
        invariant
            i <= n,
            n == node.children@.len(),
            node.wf(),
            names(node.children@) == names_in_order(node@),
            forall|j: int|
                0 <= j < node.children@.len() ==> node@.branches.dom().contains(
                    (#[trigger] node.children@[j]).name@,
                ) && node@.branches[node.children@[j].name@] == node.children@[j].node@,
            text::texts(lines@) == before + children_lines(node@, i as nat, prefix@),
        decreases n - i,
    {
        let child = &node.children[i];
        assert(names(node.children@)[i as int] == child.name@);
        let name = text::string_of(child.name.as_slice());
        render_node(lines, name.as_str(), &child.node, prefix, i + 1 == n);
        i += 1;
        assert(text::texts(lines@) =~= before + children_lines(node@, i as nat, prefix@));
    }
}

/// Appends the lines for `name` and for what lies below it, in `node`.
pub fn render_node(lines: &mut Vec<String>, name: &str, node: &TreeNode, prefix: &str, last: bool)
    requires
        node.wf(),
    ensures
        text::texts(final(lines)@) == text::texts(old(lines)@) + node_lines(
            name@,
            node@,
            prefix@,
            last,
        ),
    decreases node, 1int,
{
    let ghost before = text::texts(lines@);
    let mut line = prefix.to_string();
    let mut next = prefix.to_string();
    if last {
        line.append("+--");
        next.append("   ");
    } else {
        line.append("|--");
        next.append("|  ");
    }
    line.append(" ");
    line.append(name);
    lines.push(line);
    assert(text::texts(lines@) =~= before.push(name_line(name@, prefix@, last)));
    render_children(lines, node, next.as_str());
    assert(text::texts(lines@) =~= before + node_lines(name@, node@, prefix@, last));
}

/// `s` without any `./` at its start.
pub open spec fn without_dot_slashes(s: Seq<char>) -> Seq<char>
    decreases s.len(),
{
    if s.len() >= 2 && s[0] == '.' && s[1] == '/' {
        without_dot_slashes(s.skip(2))
    } else {
        s
    }
}

/// The path that a line of itemized output lists: what stands behind the first bar, unless that
/// is hidden or nothing.
pub open spec fn listed_path(line: Seq<char>) -> Option<Seq<char>> {
    let fields = text::pieces(line, set!['|']);
    if text::trimmed(line).len() == 0 || fields.len() < 2 {
        None
    } else {
        let path = without_dot_slashes(fields[1]);
        if path.len() == 0 || path[0] == '.' {
            None
        } else {
            Some(path)
        }
    }
}

/// The tree of all paths that the lines list.
pub open spec fn tree_of(lines: Seq<Seq<char>>) -> Tree
    decreases lines.len(),
{
    if lines.len() == 0 {
        empty_tree()
    } else {
        let before = tree_of(lines.drop_last());
        match listed_path(lines.last()) {
            Some(path) => grown(before, path_names(path)),
            None => before,
        }
    }
}

/// The drawing of the paths that itemized output lists.
pub open spec fn tree_text(output: Seq<char>) -> Seq<char> {
    text::joined(tree_lines(tree_of(text::lines_of(output))), "\n"@)
}

/// The path that a line of itemized output lists.
fn list_path<'a>(line: &'a [char]) -> (r: Option<&'a [char]>)
    ensures
        match r {
            Some(path) => listed_path(line@) == Some(path@),
            None => listed_path(line@) is None,
        },
{
    if text::trim(line).len() == 0 {
        return None;
    }
    let fields = text::split(line, text::Separator::Symbol('|'));
    if fields.len() < 2 {
        return None;
    }
    let field = fields[1];
    assert(text::views(fields@)[1] == field@);
    let mut i: usize = 0;
    assert(field@.skip(0) =~= field@);
    while field.len() - i >= 2 && field[i] == '.' && field[i + 1] == '/'
        invariant
            i <= field.len(),
            without_dot_slashes(field@) == without_dot_slashes(field@.skip(i as int)),
        decreases field.len() - i,
    {
        assert(field@.skip(i as int).skip(2) =~= field@.skip(i + 2));
        i += 2;
    }
    let path = slice_subrange(field, i, field.len());
    assert(path@ =~= field@.skip(i as int));
    if path.len() == 0 || path[0] == '.' {
        None
    } else {
        Some(path)
    }
}

/// Draws the tree of the paths that itemized output lists.
pub fn render_tree(output: &str) -> (r: String)
    ensures
        r@ == tree_text(output@),
{
    let chars = text::chars_of(output);
    let lines = text::lines(chars.as_slice());
    let ghost all = text::views(lines@);
    let mut root = TreeNode::new();
    let mut i: usize = 0;
    while i < lines.len()
        invariant
            i <= lines.len(),
            all == text::views(lines@),
            root.wf(),
            root@ == tree_of(all.take(i as int)),
        decreases lines.len() - i,
    {
        assert(all.take(i + 1).drop_last() =~= all.take(i as int));
        assert(all[i as int] == lines@[i as int]@);
        match list_path(lines[i]) {
            Some(path) => insert_chars(&mut root, path),
            None => {},
        }
        i += 1;
    }
    assert(all.take(i as int) =~= all);
    let mut drawn: Vec<String> = Vec::new();
    render_children(&mut drawn, &root, "");
    proof {
        reveal_strlit("");
        assert(""@ =~= Seq::empty());
        assert(text::texts(drawn@) =~= tree_lines(root@));
    }
    text::join(drawn.as_slice(), "\n")
}

} // verus!
