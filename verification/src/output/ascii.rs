//! Text drawings of impact trees and dependency paths.

use vstd::prelude::*;
use crate::models::{ImpactNode, format_node_ref, forest_size, ref_text, tree_size};
use crate::text::views;

verus! {

/// `depth` indentation steps of four spaces.
pub open spec fn indent(depth: nat) -> Seq<char>
    decreases depth,
{
    if depth == 0 {
        Seq::empty()
    } else {
        indent((depth - 1) as nat) + "    "@
    }
}

/// The connector drawn before a child: a corner for the last child, a tee
/// otherwise.
pub open spec fn connector(last: bool) -> Seq<char> {
    if last {
        "└── "@
    } else {
        "├── "@
    }
}

/// What continues the prefix below a child: blank under the last child, a
/// vertical bar otherwise.
pub open spec fn extension(last: bool) -> Seq<char> {
    if last {
        "    "@
    } else {
        "│   "@
    }
}

/// The lines that draw the descendants of `n`, each line starting with
/// `prefix`.
pub open spec fn deep_lines(n: ImpactNode, prefix: Seq<char>) -> Seq<Seq<char>>
    decreases n, 1nat,
{
    forest_lines(n.children@, prefix)
}

/// The lines that draw the children `f` of one node (the last of them with a
/// corner) and their descendants.
pub open spec fn forest_lines(f: Seq<ImpactNode>, prefix: Seq<char>) -> Seq<Seq<char>>
    decreases f, 0nat,
{
    if f.len() == 0 {
        Seq::empty()
    } else {
        inner_lines(f.drop_last(), prefix) + child_lines(f.last(), prefix, true)
    }
}

/// The lines that draw children that are not the last one.
pub open spec fn inner_lines(f: Seq<ImpactNode>, prefix: Seq<char>) -> Seq<Seq<char>>
    decreases f, 0nat,
{
    if f.len() == 0 {
        Seq::empty()
    } else {
        inner_lines(f.drop_last(), prefix) + child_lines(f.last(), prefix, false)
    }
}

/// The line of the child `c` and the lines of its descendants.
pub open spec fn child_lines(c: ImpactNode, prefix: Seq<char>, last: bool) -> Seq<Seq<char>>
    decreases c, 2nat,
{
    seq![prefix + connector(last) + ref_text(c.node_type@, c.node_id@)] + deep_lines(
        c,
        prefix + extension(last),
    )
}

/// The drawing of the tree rooted at `n`, indented `depth` steps; the root
/// itself is drawn only at depth 0.
pub open spec fn tree_lines(n: ImpactNode, depth: nat) -> Seq<Seq<char>> {
    (if depth == 0 {
        seq![ref_text(n.node_type@, n.node_id@)]
    } else {
        Seq::empty()
    }) + deep_lines(n, indent(depth))
}

/// The indentation for `depth`.
pub fn build_prefix(depth: usize, _is_last: bool) -> (r: String)
    ensures
        r@ == indent(depth as nat),
{
    let mut r = String::new();
    let mut k: usize = 0;
    while k < depth
        invariant
            k <= depth,
            r@ == indent(k as nat),
        decreases depth - k,
    {
        r.append("    ");
        k = k + 1;
    }
    r
}

/// The indentation for `depth` followed by the prefix of the parent.
pub fn build_prefix_with_parent(depth: usize, parent_prefix: &str) -> (r: String)
    ensures
        r@ == indent(depth as nat) + parent_prefix@,
{
    let mut r = build_prefix(depth, false);
    r.append(parent_prefix);
    r
}

/// Appends the lines that draw the descendants of `node`, each starting with
/// `prefix`.
pub fn render_subtree_deep(node: &ImpactNode, prefix: &str, out: &mut Vec<String>)
    ensures
        views(final(out)@) == views(old(out)@) + deep_lines(*node, prefix@),
    decreases *node,
{
    let total = node.children.len();
    let ghost start = views(out@);
    let ghost kids = node.children@;
    let mut i: usize = 0;
    assert(kids.take(0) =~= Seq::<ImpactNode>::empty());
    assert(start + inner_lines(kids.take(0), prefix@) =~= start);
    while i < total
        invariant
            total == kids.len(),
            kids == node.children@,
            i <= total,
            i == 0 ==> views(out@) == start,
            i < total ==> views(out@) == start + inner_lines(kids.take(i as int), prefix@),
            i == total && total > 0 ==> views(out@) == start + forest_lines(kids, prefix@),
        decreases total - i,
    {
        let child = &node.children[i];
        assert(decreases_to!(*node => node.children));
        let is_last = i == total - 1;
        let mut line = String::from_str(prefix);
        if is_last {
            line.append("└── ");
        } else {
            line.append("├── ");
        }
        line.append(format_node_ref(child.node_type.as_str(), child.node_id.as_str()).as_str());
        let ghost before = views(out@);
        out.push(line);
        assert(views(out@) =~= before.push(line@));
        let mut child_prefix = String::from_str(prefix);
        if is_last {
            child_prefix.append("    ");
        } else {
            child_prefix.append("│   ");
        }
        if node.children[i].children.len() > 0 {
            render_subtree_deep(child, child_prefix.as_str(), out);
        } else {
            assert(deep_lines(*child, child_prefix@) =~= Seq::<Seq<char>>::empty());
        }
        assert(kids.take(i + 1).drop_last() =~= kids.take(i as int));
        assert(kids.take(i + 1).last() == *child);
        assert(line@ == prefix@ + connector(is_last) + ref_text(child.node_type@, child.node_id@));
        assert(child_prefix@ == prefix@ + extension(is_last));
        assert(views(out@) =~= before + child_lines(*child, prefix@, is_last));
        if is_last {
            assert(kids.take(i as int) =~= kids.drop_last());
            assert(views(out@) =~= start + forest_lines(kids, prefix@));
        } else {
            assert(views(out@) =~= start + inner_lines(kids.take(i + 1), prefix@));
        }
        i = i + 1;
    }
}

/// Appends the lines that draw the descendants of `node` below a parent drawn
/// at `parent_depth` whose descendants continue with `parent_prefix`.
pub fn render_subtree(node: &ImpactNode, parent_depth: usize, parent_prefix: &str, out: &mut Vec<String>)
    ensures
        views(final(out)@) == views(old(out)@) + deep_lines(
            *node,
            indent(parent_depth as nat) + parent_prefix@,
        ),
{
    let prefix = build_prefix_with_parent(parent_depth, parent_prefix);
    render_subtree_deep(node, prefix.as_str(), out);
}

/// The lines that draw the tree rooted at `node`, indented `depth` steps (the
/// root is drawn at depth 0 only).
pub fn render_tree(node: &ImpactNode, depth: usize) -> (out: Vec<String>)
    ensures
        views(out@) == tree_lines(*node, depth as nat),
{
    let mut out: Vec<String> = Vec::new();
    if depth == 0 {
        out.push(format_node_ref(node.node_type.as_str(), node.node_id.as_str()));
    }
    let ghost first = views(out@);
    render_subtree(node, depth, "", &mut out);
    assert(indent(depth as nat) + ""@ =~= indent(depth as nat)) by {
        reveal_strlit("");
    }
    assert(views(out@) =~= tree_lines(*node, depth as nat));
    out
}


/// The drawing of a tree has one line per descendant, whatever the prefix.
pub proof fn drawing_lines_per_descendant(n: ImpactNode, prefix: Seq<char>)
    ensures
        deep_lines(n, prefix).len() == forest_size(n.children@),
    decreases n, 1nat,
{
    drawing_lines_per_node_forest(n.children@, prefix);
}

/// The drawing of a list of children has one line per node of their trees.
pub proof fn drawing_lines_per_node_forest(f: Seq<ImpactNode>, prefix: Seq<char>)
    ensures
        forest_lines(f, prefix).len() == forest_size(f),
        inner_lines(f, prefix).len() == forest_size(f),
    decreases f, 0nat,
{
    if f.len() > 0 {
        drawing_lines_per_node_forest(f.drop_last(), prefix);
        drawing_lines_per_node_child(f.last(), prefix, true);
        drawing_lines_per_node_child(f.last(), prefix, false);
    }
}

/// The drawing of one child has one line per node of its tree.
pub proof fn drawing_lines_per_node_child(c: ImpactNode, prefix: Seq<char>, last: bool)
    ensures
        child_lines(c, prefix, last).len() == tree_size(c),
    decreases c, 2nat,
{
    drawing_lines_per_descendant(c, prefix + extension(last));
}

/// Drawn from depth 0, a tree takes one line per node: as many as
/// `count_all` counts.
pub proof fn tree_drawing_has_one_line_per_node(n: ImpactNode)
    ensures
        tree_lines(n, 0).len() == tree_size(n),
{
    drawing_lines_per_descendant(n, indent(0));
}

/// The lines that draw a path: the first node, then each further node after
/// an arrow.
pub open spec fn path_lines_of(path: Seq<Seq<char>>) -> Seq<Seq<char>> {
    Seq::new(
        path.len(),
        |i: int|
            if i == 0 {
                "  "@ + path[i]
            } else {
                "  → "@ + path[i]
            },
    )
}

/// The lines that draw `path` (none for an empty path).
pub fn path_lines(path: &[String]) -> (out: Vec<String>)
    ensures
        views(out@) == path_lines_of(views(path@)),
{
    let mut out: Vec<String> = Vec::new();
    let mut i: usize = 0;
    while i < path.len()
        invariant
            i <= path@.len(),
            views(out@) =~= path_lines_of(views(path@)).take(i as int),
        decreases path@.len() - i,
    {
        let mut line = if i == 0 {
            String::from_str("  ")
        } else {
            String::from_str("  → ")
        };
        line.append(path[i].as_str());
        let ghost before = views(out@);
        out.push(line);
        assert(views(out@) =~= before.push(line@));
        assert(views(path@)[i as int] == path@[i as int]@);
        assert(path_lines_of(views(path@)).take(i + 1) =~= path_lines_of(views(path@)).take(
            i as int,
        ).push(line@));
        i = i + 1;
    }
    out
}

} // verus!
