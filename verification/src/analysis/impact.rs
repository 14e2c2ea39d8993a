//! Node references and downstream impact trees.

use vstd::prelude::*;
use crate::models::{ImpactNode, format_node_ref, ref_text};
use crate::text::{chars_of, first_index};

verus! {

/// The type used for a node reference that names no type.
pub open spec fn default_node_type() -> Seq<char> {
    seq!['S', 'e', 'r', 'v', 'i', 'c', 'e']
}

/// The type and id that the reference `s` names: the text before and after
/// its first `:`, or `Service` and the whole text when it holds no `:`.
pub open spec fn node_ref_parts(s: Seq<char>) -> (Seq<char>, Seq<char>) {
    match first_index(s, ':') {
        Some(p) => (s.take(p), s.skip(p + 1)),
        None => (default_node_type(), s),
    }
}

/// Splits a node reference such as `Service:postgresql` into its type and id.
pub fn parse_node_ref(node: &str) -> (r: (&str, &str))
    ensures
        (r.0@, r.1@) == node_ref_parts(node@),
{
    let v = chars_of(node);
    match crate::text::find_char(&v, ':') {
        Some(pos) => {
            let t = node.substring_char(0, pos);
            let id = node.substring_char(pos + 1, v.len());
            assert(v@.subrange(0, pos as int) =~= v@.take(pos as int));
            assert(v@.subrange(pos + 1, v.len() as int) =~= v@.skip(pos + 1));
            (t, id)
        },
        None => {
            proof {
                reveal_strlit("Service");
            }
            ("Service", node)
        },
    }
}

proof fn lemma_first_colon_of_ref(t: Seq<char>, id: Seq<char>)
    requires
        first_index(t, ':') is None,
    ensures
        first_index(ref_text(t, id), ':') == Some(t.len() as int),
    decreases t.len(),
{
    if t.len() == 0 {
        assert(ref_text(t, id)[0] == ':');
    } else {
        assert(t[0] != ':');
        lemma_first_colon_of_ref(t.drop_first(), id);
        assert(ref_text(t, id).drop_first() =~= ref_text(t.drop_first(), id));
    }
}

/// Reading back a reference written as `Type:id` gives the type and the id,
/// whenever the type holds no `:` (the id may hold any text).
pub proof fn node_ref_round_trip(t: Seq<char>, id: Seq<char>)
    requires
        first_index(t, ':') is None,
    ensures
        node_ref_parts(ref_text(t, id)) == (t, id),
{
    lemma_first_colon_of_ref(t, id);
    assert(ref_text(t, id).take(t.len() as int) =~= t);
    assert(ref_text(t, id).skip(t.len() as int + 1) =~= id);
}

/// A row of a downstream query: target type, target id, relation type and
/// path length.
pub type ImpactRow = (String, String, String, i64);

/// The `Type:id` text of the target of a row.
pub open spec fn row_key(r: ImpactRow) -> Seq<char> {
    ref_text(r.0@, r.1@)
}

/// Row `i` lies at `depth` and no earlier row at `depth` names the same
/// `Type:id`.
pub open spec fn first_at_depth(rows: Seq<ImpactRow>, depth: i64, i: int) -> bool {
    &&& rows[i].3 == depth
    &&& forall|j: int| 0 <= j < i && #[trigger] rows[j].3 == depth ==> row_key(rows[j]) != row_key(
        rows[i],
    )
}

/// The rows among the first `n` that are the first at `depth` for their
/// `Type:id`, in order.
pub open spec fn distinct_at_depth(rows: Seq<ImpactRow>, depth: i64, n: int) -> Seq<ImpactRow>
    decreases n,
{
    if n <= 0 {
        Seq::empty()
    } else {
        let p = distinct_at_depth(rows, depth, n - 1);
        if first_at_depth(rows, depth, n - 1) {
            p.push(rows[n - 1])
        } else {
            p
        }
    }
}

/// The rows kept at a depth all lie at that depth and name pairwise
/// different `Type:id`s: an impact tree lists each node once per level.
pub proof fn distinct_rows_are_distinct(rows: Seq<ImpactRow>, depth: i64, n: int)
    requires
        0 <= n <= rows.len(),
    ensures
        forall|k: int|
            0 <= k < distinct_at_depth(rows, depth, n).len() ==> (#[trigger] distinct_at_depth(
                rows,
                depth,
                n,
            )[k]).3 == depth,
        forall|i: int, j: int|
            0 <= i < j < distinct_at_depth(rows, depth, n).len() ==> row_key(
                #[trigger] distinct_at_depth(rows, depth, n)[i],
            ) != row_key(#[trigger] distinct_at_depth(rows, depth, n)[j]),
    decreases n,
{
    if n > 0 {
        distinct_rows_are_distinct(rows, depth, n - 1);
        lemma_distinct_rows_from(rows, depth, n - 1);
        let p = distinct_at_depth(rows, depth, n - 1);
        let d = distinct_at_depth(rows, depth, n);
        if first_at_depth(rows, depth, n - 1) {
            assert(d == p.push(rows[n - 1]));
            assert forall|k: int| 0 <= k < d.len() implies (#[trigger] d[k]).3 == depth by {
                if k < p.len() {
                    assert(d[k] == p[k]);
                }
            }
            assert forall|i: int, j: int| 0 <= i < j < d.len() implies row_key(#[trigger] d[i])
                != row_key(#[trigger] d[j]) by {
                assert(d[i] == p[i]);
                if j < p.len() {
                    assert(d[j] == p[j]);
                } else {
                    let m = choose|m: int| 0 <= m < n - 1 && p[i] == rows[m] && rows[m].3 == depth;
                    assert(rows[m].3 == depth);
                }
            }
        } else {
            assert(d == p);
        }
    }
}

proof fn lemma_distinct_rows_from(rows: Seq<ImpactRow>, depth: i64, n: int)
    requires
        0 <= n <= rows.len(),
    ensures
        forall|k: int|
            0 <= k < distinct_at_depth(rows, depth, n).len() ==> exists|j: int|
                0 <= j < n && #[trigger] distinct_at_depth(rows, depth, n)[k] == rows[j]
                    && rows[j].3 == depth,
    decreases n,
{
    if n > 0 {
        lemma_distinct_rows_from(rows, depth, n - 1);
        let p = distinct_at_depth(rows, depth, n - 1);
        assert forall|k: int|
            0 <= k < distinct_at_depth(rows, depth, n).len() implies exists|j: int|
                0 <= j < n && #[trigger] distinct_at_depth(rows, depth, n)[k] == rows[j]
                    && rows[j].3 == depth by {
            if k < p.len() {
                let j = choose|j: int| 0 <= j < n - 1 && p[k] == rows[j] && rows[j].3 == depth;
                assert(distinct_at_depth(rows, depth, n)[k] == rows[j]);
            } else {
                assert(distinct_at_depth(rows, depth, n)[k] == rows[n - 1]);
            }
        }
    }
}

/// `n` is a node without children that stands for the target of row `r`.
pub open spec fn leaf_of_row(n: ImpactNode, r: ImpactRow) -> bool {
    &&& n.node_type@ == r.0@
    &&& n.node_id@ == r.1@
    &&& n.relation@ == r.2@
    &&& n.children@.len() == 0
}

/// `nodes` are the leaves for `rows`, one for one and in order.
pub open spec fn leaves_of_rows(nodes: Seq<ImpactNode>, rows: Seq<ImpactRow>) -> bool {
    &&& nodes.len() == rows.len()
    &&& forall|k: int| 0 <= k < rows.len() ==> leaf_of_row(#[trigger] nodes[k], rows[k])
}

/// The rows at `depth`, each `Type:id` once, in the order of first occurrence.
fn distinct_rows(rows: &[ImpactRow], depth: i64) -> (out: Vec<usize>)
    ensures
        out@.len() == distinct_at_depth(rows@, depth, rows@.len() as int).len(),
        forall|k: int|
            0 <= k < out@.len() ==> #[trigger] out@[k] < rows@.len() && rows@[out@[k] as int]
                == distinct_at_depth(rows@, depth, rows@.len() as int)[k],
{
    let mut out: Vec<usize> = Vec::new();
    let mut i: usize = 0;
    while i < rows.len()
        invariant
            i <= rows@.len(),
            out@.len() == distinct_at_depth(rows@, depth, i as int).len(),
            forall|k: int|
                0 <= k < out@.len() ==> #[trigger] out@[k] < rows@.len() && rows@[out@[k] as int]
                    == distinct_at_depth(rows@, depth, i as int)[k],
        decreases rows@.len() - i,
    {
        if rows[i].3 == depth {
            let key = format_node_ref(rows[i].0.as_str(), rows[i].1.as_str());
            let mut j: usize = 0;
            let mut first = true;
            while j < i
                invariant
                    i < rows@.len(),
                    j <= i,
                    key@ == row_key(rows@[i as int]),
                    first == forall|m: int|
                        0 <= m < j && #[trigger] rows@[m].3 == depth ==> row_key(rows@[m])
                            != row_key(rows@[i as int]),
                decreases i - j,
            {
                if rows[j].3 == depth {
                    let other = format_node_ref(rows[j].0.as_str(), rows[j].1.as_str());
                    if other == key {
                        first = false;
                    }
                }
                j = j + 1;
            }
            if first {
                out.push(i);
            }
        }
        i = i + 1;
    }
    out
}

/// Leaves for the rows at the given positions.
fn leaves_for(rows: &[ImpactRow], picks: &Vec<usize>, chosen: Ghost<Seq<ImpactRow>>) -> (out: Vec<
    ImpactNode,
>)
    requires
        picks@.len() == chosen@.len(),
        forall|k: int|
            0 <= k < picks@.len() ==> #[trigger] picks@[k] < rows@.len() && rows@[picks@[k] as int]
                == chosen@[k],
    ensures
        leaves_of_rows(out@, chosen@),
{
    let mut out: Vec<ImpactNode> = Vec::new();
    let mut k: usize = 0;
    while k < picks.len()
        invariant
            k <= picks@.len(),
            picks@.len() == chosen@.len(),
            forall|m: int|
                0 <= m < picks@.len() ==> #[trigger] picks@[m] < rows@.len()
                    && rows@[picks@[m] as int] == chosen@[m],
            out@.len() == k,
            forall|m: int| 0 <= m < k ==> leaf_of_row(#[trigger] out@[m], chosen@[m]),
        decreases picks@.len() - k,
    {
        let r = &rows[picks[k]];
        let leaf = ImpactNode::leaf(r.1.clone(), r.0.clone(), r.2.clone());
        out.push(leaf);
        k = k + 1;
    }
    out
}

/// Builds the downstream impact tree of `node` from the rows of the
/// downstream query: the children are the distinct targets at path length 1,
/// and each child holds the distinct targets at path length 2.
pub fn analyze_impact(node: &str, downstream: &[ImpactRow]) -> (root: ImpactNode)
    ensures
        (root.node_type@, root.node_id@) == node_ref_parts(node@),
        root.relation@ == seq!['R', 'O', 'O', 'T'],
        root.children@.len() == distinct_at_depth(downstream@, 1, downstream@.len() as int).len(),
        forall|k: int|
            0 <= k < root.children@.len() ==> {
                let child = #[trigger] root.children@[k];
                let r = distinct_at_depth(downstream@, 1, downstream@.len() as int)[k];
                &&& child.node_type@ == r.0@
                &&& child.node_id@ == r.1@
                &&& child.relation@ == r.2@
                &&& leaves_of_rows(
                    child.children@,
                    distinct_at_depth(downstream@, 2, downstream@.len() as int),
                )
            },
{
    let (node_type, node_id) = parse_node_ref(node);
    let ghost ones = distinct_at_depth(downstream@, 1, downstream@.len() as int);
    let ghost twos = distinct_at_depth(downstream@, 2, downstream@.len() as int);
    let first_picks = distinct_rows(downstream, 1);
    let second_picks = distinct_rows(downstream, 2);
    let mut children: Vec<ImpactNode> = Vec::new();
    let mut k: usize = 0;
    while k < first_picks.len()
        invariant
            first_picks@.len() == ones.len(),
            forall|m: int|
                0 <= m < first_picks@.len() ==> #[trigger] first_picks@[m] < downstream@.len()
                    && downstream@[first_picks@[m] as int] == ones[m],
            second_picks@.len() == twos.len(),
            forall|m: int|
                0 <= m < second_picks@.len() ==> #[trigger] second_picks@[m] < downstream@.len()
                    && downstream@[second_picks@[m] as int] == twos[m],
            k <= first_picks@.len(),
            children@.len() == k,
            forall|m: int|
                0 <= m < k ==> {
                    let child = #[trigger] children@[m];
                    &&& child.node_type@ == ones[m].0@
                    &&& child.node_id@ == ones[m].1@
                    &&& child.relation@ == ones[m].2@
                    &&& leaves_of_rows(child.children@, twos)
                },
        decreases first_picks@.len() - k,
    {
        let r = &downstream[first_picks[k]];
        let grandchildren = leaves_for(downstream, &second_picks, Ghost(twos));
        let child = ImpactNode {
            node_id: r.1.clone(),
            node_type: r.0.clone(),
            relation: r.2.clone(),
            children: grandchildren,
        };
        children.push(child);
        k = k + 1;
    }
    proof {
        reveal_strlit("ROOT");
    }
    ImpactNode {
        node_id: String::from_str(node_id),
        node_type: String::from_str(node_type),
        relation: String::from_str("ROOT"),
        children,
    }
}

/// No target is lost: every row at `depth` among the first `n` names the
/// `Type:id` of some row kept at that depth.
pub proof fn distinct_rows_cover_every_target(rows: Seq<ImpactRow>, depth: i64, n: int)
    requires
        0 <= n <= rows.len(),
    ensures
        forall|j: int|
            0 <= j < n && (#[trigger] rows[j]).3 == depth ==> exists|k: int|
                0 <= k < distinct_at_depth(rows, depth, n).len() && row_key(
                    #[trigger] distinct_at_depth(rows, depth, n)[k],
                ) == row_key(rows[j]),
    decreases n,
{
    if n > 0 {
        distinct_rows_cover_every_target(rows, depth, n - 1);
        let p = distinct_at_depth(rows, depth, n - 1);
        let d = distinct_at_depth(rows, depth, n);
        assert forall|k: int| 0 <= k < p.len() implies #[trigger] d[k] == p[k] by {}
        assert forall|j: int| 0 <= j < n && (#[trigger] rows[j]).3 == depth implies exists|k: int|
            0 <= k < d.len() && row_key(#[trigger] d[k]) == row_key(rows[j]) by {
            if j < n - 1 {
                let k = choose|k: int| 0 <= k < p.len() && row_key(#[trigger] p[k]) == row_key(rows[j]);
                assert(d[k] == p[k]);
            } else if first_at_depth(rows, depth, n - 1) {
                assert(d[p.len() as int] == rows[n - 1]);
            } else {
                let m = choose|m: int| 0 <= m < n - 1 && #[trigger] rows[m].3 == depth && row_key(rows[m]) == row_key(rows[n - 1]);
                let k = choose|k: int| 0 <= k < p.len() && row_key(#[trigger] p[k]) == row_key(rows[m]);
                assert(d[k] == p[k]);
            }
        }
    }
}

} // verus!
