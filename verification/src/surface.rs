//! Index bookkeeping of `<surface>` resolution: which children are the
//! indexed `<path>` rows, which rows a sweep chain reads, and whether a
//! chain or a Coons patch only names rows that exist.
use vstd::prelude::*;

use crate::dom::{Document, ElementKind, Node, NodeId};
use crate::surface_d::{CoonsPatch, SurfacePatch};

verus! {

broadcast use NodeId::lemma_idx_range;

/// The `<path>` children among `children`, in order: the `k`-th of them is
/// surface row `k`, whatever other children lie between.
pub open spec fn path_rows(nodes: Seq<Node>, children: Seq<NodeId>) -> Seq<NodeId>
    decreases children.len(),
{
    if children.len() == 0 {
        Seq::empty()
    } else {
        let before = path_rows(nodes, children.drop_last());
        let c = children.last();
        if 0 <= c.idx() < nodes.len() && nodes[c.idx()].element.kind is Path {
            before.push(c)
        } else {
            before
        }
    }
}

/// The rows of `<surface>` node `surface`: its `<path>` children, in order.
pub fn surface_path_children(document: &Document, surface: NodeId) -> (r: Vec<NodeId>)
    requires
        document.wf(),
        document.contains(surface),
    ensures
        r@ == path_rows(document.nodes_view(), document.node_at(surface).children@),
{
    let children = &document.node(surface).children;
    let ghost nodes = document.nodes_view();
    let mut rows: Vec<NodeId> = Vec::new();
    let mut i: usize = 0;
    while i < children.len()
        invariant
            i <= children@.len(),
            document.wf(),
            nodes == document.nodes_view(),
            *children == document.node_at(surface).children,
            document.contains(surface),
            rows@ == path_rows(nodes, children@.take(i as int)),
        decreases children@.len() - i,
    {
        let c = children[i];
        proof {
            assert(children@.take(i + 1).drop_last() =~= children@.take(i as int));
            assert(children@.take(i + 1).last() == c);
            assert(document.contains(c));
        }
        if let ElementKind::Path = document.element(c).kind {
            rows.push(c);
        }
        i = i + 1;
    }
    proof {
        assert(children@.take(children@.len() as int) =~= children@);
    }
    rows
}

/// The rows one sweep patch reads besides its start row.
pub open spec fn patch_rows(p: SurfacePatch) -> Set<u32> {
    match p {
        SurfacePatch::Linear { end } => set![end],
        SurfacePatch::Quadratic { ctrl, end } => set![ctrl, end],
        SurfacePatch::Cubic { ctrl1, ctrl2, end } => set![ctrl1, ctrl2, end],
        SurfacePatch::Close => Set::empty(),
    }
}

/// Every row a sweep chain from `start` through `patches` reads.
pub open spec fn sweep_rows(start: u32, patches: Seq<SurfacePatch>) -> Set<u32>
    decreases patches.len(),
{
    if patches.len() == 0 {
        set![start]
    } else {
        sweep_rows(start, patches.drop_last()).union(patch_rows(patches.last()))
    }
}

/// Whether `v` is strictly increasing.
pub open spec fn strictly_increasing(v: Seq<u32>) -> bool {
    forall|i: int, j: int| 0 <= i < j < v.len() ==> v[i] < v[j]
}

/// Add `x` to a strictly increasing list, keeping it so.
fn insert_row(rows: &mut Vec<u32>, x: u32)
    requires
        strictly_increasing(old(rows)@),
    ensures
        strictly_increasing(final(rows)@),
        final(rows)@.to_set() == old(rows)@.to_set().insert(x),
{
    let mut i: usize = 0;
    while i < rows.len() && rows[i] < x
        invariant
            i <= rows@.len(),
            forall|j: int| 0 <= j < i ==> rows@[j] < x,
        decreases rows@.len() - i,
    {
        i = i + 1;
    }
    let ghost before = rows@;
    if i < rows.len() && rows[i] == x {
        proof {
            assert(before.to_set().insert(x) =~= before.to_set()) by {
                assert(before.to_set().contains(x));
            }
        }
        return;
    }
    rows.insert(i, x);
    proof {
        let after = rows@;
        assert(after =~= before.take(i as int).push(x) + before.skip(i as int));
        assert forall|a: int, b: int| 0 <= a < b < after.len() implies after[a] < after[b] by {
            if b == i {
                assert(after[a] == before[a]);
            } else if a == i {
                assert(after[b] == before[b - 1]);
                assert(before[b - 1] >= x);
                if b - 1 > i {
                    assert(before[i as int] < before[b - 1]);
                }
            } else {
                let a0 = if a < i { a } else { a - 1 };
                let b0 = if b < i { b } else { b - 1 };
                assert(after[a] == before[a0]);
                assert(after[b] == before[b0]);
            }
        }
        assert forall|y: u32| after.to_set().contains(y) <==> before.to_set().insert(x).contains(y) by {
            if after.contains(y) {
                let k = choose|k: int| 0 <= k < after.len() && after[k] == y;
                if k < i {
                    assert(before[k] == y);
                } else if k > i {
                    assert(before[k - 1] == y);
                }
            }
            if before.contains(y) {
                let k = choose|k: int| 0 <= k < before.len() && before[k] == y;
                if k < i {
                    assert(after[k] == y);
                } else {
                    assert(after[k + 1] == y);
                }
            }
            if y == x {
                assert(after[i as int] == x);
            }
        }
        assert(after.to_set() =~= before.to_set().insert(x));
    }
}

/// The rows a sweep chain reads, each once and in increasing order, or
/// `None` when one of them is not below `row_count`.
pub fn sweep_references(start: u32, patches: &[SurfacePatch], row_count: u32) -> (r: Option<Vec<u32>>)
    ensures
        r matches Some(rows) ==> strictly_increasing(rows@) && rows@.to_set() == sweep_rows(
            start,
            patches@,
        ) && forall|k: u32| sweep_rows(start, patches@).contains(k) ==> k < row_count,
        r is None ==> exists|k: u32| sweep_rows(start, patches@).contains(k) && k >= row_count,
{
    let mut rows: Vec<u32> = Vec::new();
    insert_row(&mut rows, start);
    proof {
        assert(Seq::<u32>::empty().to_set() =~= Set::<u32>::empty());
        assert(set![start] =~= Set::<u32>::empty().insert(start));
    }
    let mut i: usize = 0;
    while i < patches.len()
        invariant
            i <= patches@.len(),
            strictly_increasing(rows@),
            rows@.to_set() == sweep_rows(start, patches@.take(i as int)),
        decreases patches@.len() - i,
    {
        let ghost before = rows@.to_set();
        match patches[i] {
            SurfacePatch::Linear { end } => {
                insert_row(&mut rows, end);
            },
            SurfacePatch::Quadratic { ctrl, end } => {
                insert_row(&mut rows, ctrl);
                insert_row(&mut rows, end);
            },
            SurfacePatch::Cubic { ctrl1, ctrl2, end } => {
                insert_row(&mut rows, ctrl1);
                insert_row(&mut rows, ctrl2);
                insert_row(&mut rows, end);
            },
            SurfacePatch::Close => {},
        }
        proof {
            let t = patches@.take(i + 1);
            assert(t.drop_last() =~= patches@.take(i as int));
            assert(t.last() == patches@[i as int]);
            assert(rows@.to_set() =~= before.union(patch_rows(patches@[i as int])));
        }
        i = i + 1;
    }
    proof {
        assert(patches@.take(patches@.len() as int) =~= patches@);
    }
    let mut k: usize = 0;
    while k < rows.len()
        invariant
            k <= rows@.len(),
            rows@.to_set() == sweep_rows(start, patches@),
            forall|j: int| 0 <= j < k ==> rows@[j] < row_count,
        decreases rows@.len() - k,
    {
        if rows[k] >= row_count {
            proof {
                assert(rows@.to_set().contains(rows@[k as int]));
            }
            return None;
        }
        k = k + 1;
    }
    proof {
        assert forall|x: u32| sweep_rows(start, patches@).contains(x) implies x < row_count by {
            assert(rows@.to_set().contains(x));
            let j = choose|j: int| 0 <= j < rows@.len() && rows@[j] == x;
        }
    }
    Some(rows)
}

/// Whether the four boundary rows of a Coons patch all exist.
pub fn coons_rows_in_range(patch: CoonsPatch, row_count: u32) -> (r: bool)
    ensures
        r == (patch.top < row_count && patch.right < row_count && patch.bottom < row_count
            && patch.left < row_count),
{
    patch.top < row_count && patch.right < row_count && patch.bottom < row_count && patch.left
        < row_count
}

} // verus!
