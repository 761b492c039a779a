//! Texture bookkeeping for `<svg>` paint servers: the distinct texture
//! sources a render plan uses, the layer each of them gets, and the side of
//! the layered texture.
use vstd::prelude::*;
use vstd::arithmetic::power2::{pow2, lemma_pow2_unfold, lemma2_to64};

use crate::dom::NodeId;
use crate::paint::PAINT_SVG_TEXTURE;

verus! {

/// Whether `v` is a power of two.
pub open spec fn is_power_of_two(v: int) -> bool {
    exists|k: nat| pow2(k) == v
}

/// The least power of two that is at least `v`, and at least 1.
pub open spec fn next_pow2(v: int) -> int
    decreases v,
{
    if v <= 1 {
        1
    } else {
        2 * next_pow2((v + 1) / 2)
    }
}

/// A power of two at least `v` whose half is below `v` is the least one.
proof fn lemma_least_pow2(v: int, k: nat)
    requires
        v >= 2,
        pow2(k) >= v,
        pow2(k) / 2 < v,
    ensures
        pow2(k) == next_pow2(v),
    decreases v,
{
    lemma2_to64();
    if k == 0 {
        assert(pow2(0) == 1);
    } else {
        let j = (k - 1) as nat;
        lemma_pow2_unfold(k);
        assert(pow2(k) == 2 * pow2(j));
        let w = (v + 1) / 2;
        assert(next_pow2(v) == 2 * next_pow2(w));
        assert(pow2(k) / 2 == pow2(j));
        if w <= 1 {
            assert(v == 2);
            assert(next_pow2(w) == 1);
            assert(pow2(j) == 1);
        } else {
            assert(pow2(j) >= w);
            assert(pow2(j) / 2 < w);
            lemma_least_pow2(w, j);
        }
    }
}

/// `value` rounded up to the next power of two, with a floor of 1; a power
/// of two is returned unchanged. Used to pick a power-of-two texture side
/// from a content size.
pub fn next_power_of_two(value: u32) -> (r: u32)
    requires
        value <= 0x8000_0000,
    ensures
        r == next_pow2(value as int),
        is_power_of_two(r as int),
        r >= value,
        r >= 1,
        r == 1 || (r / 2) < value,
{
    proof {
        lemma2_to64();
    }
    if value <= 1 {
        assert(pow2(0) == 1);
        return 1;
    }
    let mut p: u32 = 1;
    let ghost mut k: nat = 0;
    while p < value
        invariant
            1 <= p <= 0x8000_0000,
            pow2(k) == p,
            p == 1 || (p / 2) < value,
            1 < value <= 0x8000_0000,
        decreases 0x8000_0000 - p,
    {
        proof {
            lemma_pow2_unfold(k + 1);
            assert(p * 2 <= 0x8000_0000) by {
                assert(p < 0x8000_0000);
                lemma_pow2_gap(k);
            }
            k = k + 1;
        }
        p = p * 2;
    }
    proof {
        lemma_least_pow2(value as int, k);
    }
    p
}

/// No power of two lies strictly between 2^30 and 2^31.
proof fn lemma_pow2_gap(k: nat)
    ensures
        pow2(k) <= 0x4000_0000 || pow2(k) >= 0x8000_0000,
{
    lemma2_to64();
    if k > 31 {
        vstd::arithmetic::power2::lemma_pow2_strictly_increases(31, k);
    } else if k < 31 {
        if k < 30 {
            vstd::arithmetic::power2::lemma_pow2_strictly_increases(k, 30);
        }
    }
}

/// The node indices of the `<svg>` texture sources among paint server
/// `metas`, each once, in the order of their first use. A texture server's
/// meta is `[PAINT_SVG_TEXTURE, node index, mapping, 0]`.
pub open spec fn texture_sources(metas: Seq<[u32; 4]>) -> Seq<u32>
    decreases metas.len(),
{
    if metas.len() == 0 {
        Seq::empty()
    } else {
        let before = texture_sources(metas.drop_last());
        let m = metas.last();
        if m[0] == PAINT_SVG_TEXTURE && !before.contains(m[1]) {
            before.push(m[1])
        } else {
            before
        }
    }
}

/// The distinct `<svg>` texture sources referenced by paint servers, in
/// first-seen order, so that texture layer indices stay stable across
/// re-encodes of the same document. `metas` lists the `meta` words of
/// every paint server of every mesh of a render plan, in plan order.
pub fn collect_texture_node_ids(metas: &[[u32; 4]]) -> (r: Vec<NodeId>)
    ensures
        r@.len() == texture_sources(metas@).len(),
        forall|i: int| 0 <= i < r@.len() ==> (#[trigger] r@[i]).idx() == texture_sources(metas@)[i],
{
    let mut seen: Vec<u32> = Vec::new();
    let mut ids: Vec<NodeId> = Vec::new();
    let mut i: usize = 0;
    while i < metas.len()
        invariant
            i <= metas@.len(),
            seen@ == texture_sources(metas@.take(i as int)),
            ids@.len() == seen@.len(),
            forall|j: int| 0 <= j < ids@.len() ==> (#[trigger] ids@[j]).idx() == seen@[j],
        decreases metas@.len() - i,
    {
        let meta = metas[i];
        proof {
            assert(metas@.take(i + 1).drop_last() =~= metas@.take(i as int));
            assert(metas@.take(i + 1).last() == meta);
        }
        if meta[0] == PAINT_SVG_TEXTURE {
            let mut found = false;
            let mut j: usize = 0;
            while j < seen.len()
                invariant
                    j <= seen@.len(),
                    found == seen@.take(j as int).contains(meta[1]),
                decreases seen@.len() - j,
            {
                let ghost t = seen@.take(j as int);
                let ghost t1 = seen@.take(j + 1);
                proof {
                    assert(t1 =~= t.push(seen@[j as int]));
                    assert(t1[j as int] == seen@[j as int]);
                    if t.contains(meta[1]) {
                        let k = choose|k: int| 0 <= k < t.len() && t[k] == meta[1];
                        assert(t1[k] == t[k]);
                    }
                    if t1.contains(meta[1]) && seen@[j as int] != meta[1] {
                        let k = choose|k: int| 0 <= k < t1.len() && t1[k] == meta[1];
                        assert(k < j);
                        assert(t[k] == t1[k]);
                    }
                }
                if seen[j] == meta[1] {
                    found = true;
                }
                j = j + 1;
            }
            proof {
                assert(seen@.take(seen@.len() as int) =~= seen@);
            }
            if !found {
                let id = NodeId::from_index(meta[1] as usize);
                seen.push(meta[1]);
                ids.push(id);
            }
        }
        i = i + 1;
    }
    proof {
        assert(metas@.take(metas@.len() as int) =~= metas@);
    }
    ids
}

/// Each texture source is listed once.
pub proof fn lemma_texture_sources_distinct(metas: Seq<[u32; 4]>)
    ensures
        texture_sources(metas).no_duplicates(),
    decreases metas.len(),
{
    if metas.len() > 0 {
        lemma_texture_sources_distinct(metas.drop_last());
    }
}

/// A node index is listed exactly when some texture server uses it.
pub proof fn lemma_texture_sources_complete(metas: Seq<[u32; 4]>, index: u32)
    ensures
        texture_sources(metas).contains(index) <==> exists|i: int|
            0 <= i < metas.len() && (#[trigger] metas[i])[0] == PAINT_SVG_TEXTURE && metas[i][1] == index,
    decreases metas.len(),
{
    if metas.len() > 0 {
        let rest = metas.drop_last();
        lemma_texture_sources_complete(rest, index);
        let before = texture_sources(rest);
        let m = metas.last();
        if texture_sources(metas).contains(index) {
            if !before.contains(index) {
                assert(texture_sources(metas) == before.push(m[1]));
                let k = choose|k: int| 0 <= k < texture_sources(metas).len() && texture_sources(metas)[k] == index;
                assert(k == before.len());
                assert(metas[metas.len() - 1] == m);
            } else {
                let i = choose|i: int|
                    0 <= i < rest.len() && (#[trigger] rest[i])[0] == PAINT_SVG_TEXTURE && rest[i][1] == index;
                assert(metas[i] == rest[i]);
            }
        }
        if exists|i: int| 0 <= i < metas.len() && (#[trigger] metas[i])[0] == PAINT_SVG_TEXTURE && metas[i][1] == index {
            let i = choose|i: int| 0 <= i < metas.len() && (#[trigger] metas[i])[0] == PAINT_SVG_TEXTURE && metas[i][1] == index;
            if i < metas.len() - 1 {
                assert(rest[i] == metas[i]);
                assert(before.contains(index));
                if m[0] == PAINT_SVG_TEXTURE && !before.contains(m[1]) {
                    let k = choose|k: int| 0 <= k < before.len() && before[k] == index;
                    assert(texture_sources(metas)[k] == index);
                }
            } else {
                if !before.contains(index) {
                    assert(texture_sources(metas) == before.push(index));
                    assert(texture_sources(metas)[before.len() as int] == index);
                }
            }
        }
    }
}

/// The smallest texture side, in pixels.
pub const MIN_TEXTURE_SIDE: u32 = 256;

/// The largest texture side, in pixels.
pub const MAX_TEXTURE_SIDE: u32 = 2048;

/// The side a layer needs for content whose larger dimension rounds up to
/// `max_dim` pixels: the next power of two, kept within
/// [`MIN_TEXTURE_SIDE`, `MAX_TEXTURE_SIDE`].
pub open spec fn layer_side(max_dim: int) -> int {
    let p = next_pow2(max_dim);
    if p < MIN_TEXTURE_SIDE {
        MIN_TEXTURE_SIDE as int
    } else if p > MAX_TEXTURE_SIDE {
        MAX_TEXTURE_SIDE as int
    } else {
        p
    }
}

/// [`next_pow2`] is the least power of two at or above `v` (for `v >= 1`):
/// it reaches `v`, it is `1` or its half lies below `v`, and above `1` it
/// is even.
pub proof fn lemma_next_pow2_bounds(v: int)
    requires
        v >= 1,
    ensures
        next_pow2(v) >= v,
        next_pow2(v) >= 1,
        next_pow2(v) == 1 || next_pow2(v) / 2 < v,
        v >= 2 ==> next_pow2(v) % 2 == 0,
    decreases v,
{
    if v > 1 {
        let h = (v + 1) / 2;
        lemma_next_pow2_bounds(h);
    }
}

/// A layer's side lies in [[`MIN_TEXTURE_SIDE`], [`MAX_TEXTURE_SIDE`]],
/// holds a content size up to the maximum, and is no larger than needed:
/// above the minimum, its half is below the content size.
pub proof fn lemma_layer_side_fits(max_dim: int)
    requires
        max_dim >= 0,
    ensures
        MIN_TEXTURE_SIDE <= layer_side(max_dim) <= MAX_TEXTURE_SIDE,
        max_dim <= MAX_TEXTURE_SIDE ==> max_dim <= layer_side(max_dim),
        layer_side(max_dim) > MIN_TEXTURE_SIDE ==> layer_side(max_dim) / 2 < max_dim,
{
    if max_dim >= 1 {
        lemma_next_pow2_bounds(max_dim);
    }
}

/// The side shared by all layers: the largest layer side, and
/// [`MIN_TEXTURE_SIDE`] when there is no layer.
pub open spec fn shared_side(max_dims: Seq<u32>) -> int
    decreases max_dims.len(),
{
    if max_dims.len() == 0 {
        MIN_TEXTURE_SIDE as int
    } else {
        let before = shared_side(max_dims.drop_last());
        let here = layer_side(max_dims.last() as int);
        if here > before {
            here
        } else {
            before
        }
    }
}

/// The side of the layered texture, from each layer's larger content
/// Every layer of the array has the same side, the largest any entry
/// needs: the shared side is at least each entry's layer side, equals one
/// of them (or [`MIN_TEXTURE_SIDE`] when there is no entry), and so does
/// not depend on the entries' order.
pub proof fn lemma_shared_side_is_largest(max_dims: Seq<u32>)
    ensures
        shared_side(max_dims) >= MIN_TEXTURE_SIDE,
        forall|i: int| 0 <= i < max_dims.len() ==> layer_side(#[trigger] max_dims[i] as int) <= shared_side(max_dims),
        max_dims.len() == 0 ==> shared_side(max_dims) == MIN_TEXTURE_SIDE,
        max_dims.len() > 0 ==> exists|i: int|
            0 <= i < max_dims.len() && shared_side(max_dims) == layer_side(#[trigger] max_dims[i] as int),
    decreases max_dims.len(),
{
    if max_dims.len() > 0 {
        let rest = max_dims.drop_last();
        lemma_shared_side_is_largest(rest);
        let n = max_dims.len() - 1;
        lemma_layer_side_fits(max_dims[n] as int);
        assert forall|i: int| 0 <= i < max_dims.len() implies layer_side(#[trigger] max_dims[i] as int)
            <= shared_side(max_dims) by {
            if i < n {
                assert(rest[i] == max_dims[i]);
            }
        }
        if layer_side(max_dims[n] as int) > shared_side(rest) {
            assert(shared_side(max_dims) == layer_side(max_dims[n] as int));
        } else if rest.len() > 0 {
            let k = choose|k: int| 0 <= k < rest.len() && shared_side(rest) == layer_side(#[trigger] rest[k] as int);
            assert(rest[k] == max_dims[k]);
            assert(shared_side(max_dims) == layer_side(max_dims[k] as int));
        } else {
            lemma_layer_side_fits(max_dims[n] as int);
            assert(shared_side(max_dims) == layer_side(max_dims[n] as int));
        }
    }
}

/// dimension rounded up to whole pixels (see [`shared_side`]).
pub fn texture_side(max_dims: &[u32]) -> (r: u32)
    requires
        forall|i: int| 0 <= i < max_dims@.len() ==> max_dims@[i] <= 0x8000_0000,
    ensures
        r == shared_side(max_dims@),
{
    let mut side: u32 = MIN_TEXTURE_SIDE;
    let mut i: usize = 0;
    while i < max_dims.len()
        invariant
            i <= max_dims@.len(),
            forall|j: int| 0 <= j < max_dims@.len() ==> max_dims@[j] <= 0x8000_0000,
            side == shared_side(max_dims@.take(i as int)),
        decreases max_dims@.len() - i,
    {
        let p = next_power_of_two(max_dims[i]);
        let here = if p < MIN_TEXTURE_SIDE {
            MIN_TEXTURE_SIDE
        } else if p > MAX_TEXTURE_SIDE {
            MAX_TEXTURE_SIDE
        } else {
            p
        };
        proof {
            let t = max_dims@.take(i + 1);
            assert(t.drop_last() =~= max_dims@.take(i as int));
            assert(t.last() == max_dims@[i as int]);
        }
        if here > side {
            side = here;
        }
        i = i + 1;
    }
    proof {
        assert(max_dims@.take(max_dims@.len() as int) =~= max_dims@);
    }
    side
}

/// The layer sources among `candidates`, in order: each node that can be
/// rasterized (its flag) gets the next layer the first time it comes up.
pub open spec fn layer_sources(candidates: Seq<(NodeId, bool)>) -> Seq<NodeId>
    decreases candidates.len(),
{
    if candidates.len() == 0 {
        Seq::empty()
    } else {
        let before = layer_sources(candidates.drop_last());
        let (id, drawable) = candidates.last();
        if drawable && !before.contains(id) {
            before.push(id)
        } else {
            before
        }
    }
}

/// The layers of the layered texture: layer `i` holds the `i`-th source.
pub struct TextureLayers {
    sources: Vec<NodeId>,
}

impl View for TextureLayers {
    type V = Seq<NodeId>;

    closed spec fn view(&self) -> Seq<NodeId> {
        self.sources@
    }
}

impl TextureLayers {
    /// Give each rasterizable candidate a layer, first use first.
    pub fn assign(candidates: &[(NodeId, bool)]) -> (r: Self)
        ensures
            r@ == layer_sources(candidates@),
    {
        let mut sources: Vec<NodeId> = Vec::new();
        let mut i: usize = 0;
        while i < candidates.len()
            invariant
                i <= candidates@.len(),
                sources@ == layer_sources(candidates@.take(i as int)),
            decreases candidates@.len() - i,
        {
            let (id, drawable) = candidates[i];
            proof {
                let t = candidates@.take(i + 1);
                assert(t.drop_last() =~= candidates@.take(i as int));
                assert(t.last() == (id, drawable));
            }
            if drawable {
                let mut seen = false;
                let mut j: usize = 0;
                while j < sources.len()
                    invariant
                        j <= sources@.len(),
                        seen == sources@.take(j as int).contains(id),
                    decreases sources@.len() - j,
                {
                    let ghost t = sources@.take(j as int);
                    let ghost t1 = sources@.take(j + 1);
                    proof {
                        assert(t1 =~= t.push(sources@[j as int]));
                        if t.contains(id) {
                            let k = choose|k: int| 0 <= k < t.len() && t[k] == id;
                            assert(t1[k] == t[k]);
                        }
                        if t1.contains(id) && sources@[j as int] != id {
                            let k = choose|k: int| 0 <= k < t1.len() && t1[k] == id;
                            assert(k < j);
                            assert(t[k] == t1[k]);
                        }
                    }
                    if sources[j] == id {
                        proof {
                            assert(t1[j as int] == id);
                        }
                        seen = true;
                    }
                    j = j + 1;
                }
                proof {
                    assert(sources@.take(sources@.len() as int) =~= sources@);
                }
                if !seen {
                    sources.push(id);
                }
            }
            i = i + 1;
        }
        proof {
            assert(candidates@.take(candidates@.len() as int) =~= candidates@);
        }
        TextureLayers { sources }
    }

    /// The layer of `node`, or layer 0 when it has none. Layer numbers are
    /// 32-bit, as the GPU reads them.
    pub fn layer_for(&self, node: NodeId) -> (r: u32)
        requires
            self@.len() <= u32::MAX,
        ensures
            (exists|i: int| 0 <= i < self@.len() && self@[i] == node) ==> (0 <= r < self@.len()
                && self@[r as int] == node && forall|j: int| 0 <= j < r ==> self@[j] != node),
            !(exists|i: int| 0 <= i < self@.len() && self@[i] == node) ==> r == 0,
    {
        let mut i: usize = 0;
        while i < self.sources.len()
            invariant
                i <= self.sources@.len() <= u32::MAX,
                forall|j: int| 0 <= j < i ==> self.sources@[j] != node,
            decreases self.sources@.len() - i,
        {
            if self.sources[i] == node {
                return i as u32;
            }
            i = i + 1;
        }
        0
    }

    /// The number of layers.
    pub fn layer_count(&self) -> (r: usize)
        ensures
            r == self@.len(),
    {
        self.sources.len()
    }
}

} // verus!
