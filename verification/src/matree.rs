//! Meta-adaptive decision tree of the single-channel Modular coding:
//! inner nodes test `property[k] > threshold` (left on true, right on
//! false); leaves select the context used for the residual.
use vstd::prelude::*;
use crate::error::{JxlError, invalid};

verus! {

/// Hard cap on the number of MA-tree nodes a single decode may allocate.
pub const MAX_MA_TREE_NODES: usize = 1048576;

/// Hard cap on the height of an MA tree.
pub const MAX_MA_TREE_DEPTH: usize = 1024;

/// Hard cap on the value bit depth `n` an MA tree is built for.
pub const MAX_VALUE_BIT_DEPTH: u32 = 32;

/// A single MA-tree node.
#[derive(Debug, Clone)]
pub enum Node {
    /// If `property[property_index] > threshold` take `left`, otherwise
    /// take `right`.
    Decision { property_index: usize, threshold: i32, left: usize, right: usize },
    /// Residuals at this context are decoded with the leaf's own
    /// adaptive state, which the entropy decoder keys by the leaf's index.
    Leaf,
}

/// A decoded MA tree.
#[derive(Debug, Clone)]
pub struct MaTree {
    /// All nodes in DFS order; node 0 is the root.
    pub nodes: Vec<Node>,
    /// Number of properties the tree was built for.
    pub n_props: usize,
    /// Value bit depth the leaves were sized for.
    pub max_bits: u32,
}

/// Per-property `(min, max)` range.
#[derive(Debug, Clone, Copy)]
pub struct PropRange {
    pub min: i32,
    pub max: i32,
}

/// Children of every decision node come after it and lie inside the
/// node list, as in the depth-first layout the tree is decoded into;
/// the list is not empty.
pub open spec fn nodes_wf(nodes: Seq<Node>) -> bool {
    &&& nodes.len() > 0
    &&& forall|i: int|
        0 <= i < nodes.len() ==> match #[trigger] nodes[i] {
            Node::Decision { left, right, .. } => i < left < nodes.len() && i < right < nodes.len(),
            Node::Leaf => true,
        }
}

/// The leaf reached from node `idx` for the property vector `props`, or
/// `None` when a decision node tests a property the vector lacks.
pub open spec fn spec_walk(nodes: Seq<Node>, props: Seq<i32>, idx: int) -> Option<usize>
    decreases nodes.len() - idx,
{
    if !(0 <= idx < nodes.len()) {
        None
    } else {
        match nodes[idx] {
            Node::Leaf => Some(idx as usize),
            Node::Decision { property_index, threshold, left, right } => {
                if property_index >= props.len() {
                    None
                } else {
                    let next = if props[property_index as int] > threshold { left } else { right };
                    if next <= idx || next >= nodes.len() {
                        None
                    } else {
                        spec_walk(nodes, props, next as int)
                    }
                }
            },
        }
    }
}

impl MaTree {
    /// Walk the tree to find the leaf index for the given property
    /// vector.
    pub fn walk(&self, properties: &[i32]) -> (r: Result<usize, JxlError>)
        requires
            nodes_wf(self.nodes@),
        ensures
            r is Ok <==> spec_walk(self.nodes@, properties@, 0) is Some,
            r is Ok ==> r->Ok_0 == spec_walk(self.nodes@, properties@, 0)->0,
            r is Ok ==> r->Ok_0 < self.nodes@.len() && self.nodes@[r->Ok_0 as int] is Leaf,
            r is Err ==> r->Err_0 is InvalidData,
    {
        let mut idx: usize = 0;
        loop
            invariant
                nodes_wf(self.nodes@),
                idx < self.nodes@.len(),
                spec_walk(self.nodes@, properties@, 0) == spec_walk(self.nodes@, properties@, idx as int),
            decreases self.nodes@.len() - idx,
        {
            match &self.nodes[idx] {
                Node::Leaf => {
                    return Ok(idx);
                },
                Node::Decision { property_index, threshold, left, right } => {
                    if *property_index >= properties.len() {
                        return Err(invalid("MA tree: property index out of range during walk"));
                    }
                    assert(self.nodes@[idx as int] matches Node::Decision { .. });
                    if properties[*property_index] > *threshold {
                        idx = *left;
                    } else {
                        idx = *right;
                    }
                },
            }
        }
    }
}

/// `ceil(log2(x))`, at least 1: the number of bits needed for values in
/// `[0, x)`.
pub open spec fn spec_ilog2_at_least(x: u32) -> nat {
    if x <= 1 {
        1
    } else {
        spec_bit_length((x - 1) as u32)
    }
}

/// Number of significant bits of `v` (`32 - leading_zeros(v)`).
pub open spec fn spec_bit_length(v: u32) -> nat
    decreases v,
{
    if v == 0 {
        0
    } else {
        1 + spec_bit_length(v / 2)
    }
}

/// The bit length of `v` is the least `b` with `v < 2^b`: `v` is below
/// `2^b` and, unless `v` is 0, at least `2^(b - 1)`.
pub proof fn law_bit_length_bounds(v: u32)
    ensures
        (v as nat) < vstd::arithmetic::power2::pow2(spec_bit_length(v)),
        v > 0 ==> vstd::arithmetic::power2::pow2((spec_bit_length(v) - 1) as nat) <= v,
        v == 0 ==> spec_bit_length(v) == 0,
    decreases v,
{
    vstd::arithmetic::power2::lemma2_to64();
    if v > 0 {
        law_bit_length_bounds(v / 2);
        let b = spec_bit_length(v);
        let bh = spec_bit_length(v / 2);
        assert(b == bh + 1);
        vstd::arithmetic::power2::lemma_pow2_unfold(b);
        assert(vstd::arithmetic::power2::pow2(b) == 2 * vstd::arithmetic::power2::pow2(bh));
        if v / 2 > 0 {
            assert(bh > 0);
            vstd::arithmetic::power2::lemma_pow2_unfold(bh);
        }
    }
}

/// Number of significant bits of `v`.
pub fn bit_length(v: u32) -> (r: u32)
    ensures
        r == spec_bit_length(v),
        r <= 32,
{
    let mut n: u32 = 0;
    let mut w: u32 = v;
    proof {
        lemma_bit_length_le(v);
    }
    while w > 0
        invariant
            n + spec_bit_length(w) == spec_bit_length(v),
            spec_bit_length(v) <= 32,
        decreases w,
    {
        proof {
            lemma_bit_length_le(w);
        }
        n = n + 1;
        w = w / 2;
    }
    n
}

/// The bit length of a value below `2^k` is at most `k`.
pub proof fn lemma_bit_length_bound(v: u32, k: nat)
    requires
        v < vstd::arithmetic::power2::pow2(k),
    ensures
        spec_bit_length(v) <= k,
    decreases v,
{
    if v > 0 {
        if k == 0 {
            vstd::arithmetic::power2::lemma2_to64();
        } else {
            vstd::arithmetic::power2::lemma_pow2_unfold(k);
            lemma_bit_length_bound(v / 2, (k - 1) as nat);
        }
    }
}

/// The bit length of a `u32` is at most 32.
pub proof fn lemma_bit_length_le(v: u32)
    ensures
        spec_bit_length(v) <= 32,
        v > 0 ==> spec_bit_length(v) >= 1,
{
    vstd::arithmetic::power2::lemma2_to64();
    lemma_bit_length_bound(v, 32);
}

/// `ceil(log2(x))`, at least 1.
pub fn ilog2_at_least(x: u32) -> (r: u32)
    ensures
        r == spec_ilog2_at_least(x),
{
    if x <= 1 {
        1
    } else {
        bit_length(x - 1)
    }
}


/// Every value `read` hands back lies in the range it was asked for, and
/// `read` accepts every request.
pub open spec fn reads_in_range<F: FnMut(u32, i32, i32) -> Result<i32, JxlError>>(read: F) -> bool {
    &&& forall|k: u32, lo: i32, hi: i32| call_requires(read, (k, lo, hi))
    &&& forall|k: u32, lo: i32, hi: i32, r: Result<i32, JxlError>|
        #[trigger] call_ensures(read, (k, lo, hi), r) ==> (r is Ok ==> lo <= r->Ok_0 <= hi)
}

/// The nodes in `[lo, hi)` form a subtree laid out depth first: each
/// decision's children follow it and stay below `hi`.
pub open spec fn subtree_wf(nodes: Seq<Node>, lo: int, hi: int) -> bool {
    forall|i: int|
        lo <= i < hi ==> match #[trigger] nodes[i] {
            Node::Decision { left, right, .. } => i < left < hi && i < right < hi,
            Node::Leaf => true,
        }
}

/// A request of the tree decoder: coder `k` and the range `[lo, hi]`.
pub type TreeRequest = (u32, i32, i32);

/// The subtree decoded from the values `toks` at `pos` (D.7.2) for the
/// property ranges `ranges`, its root at index `base`: its nodes in
/// depth-first order, the requests made for the values it used, and the
/// position after them. A property below 1 makes a leaf (with its
/// zero-probability and, below -2, sign seeds when `signal_init`);
/// property `p` splits on property `p - 1` at a threshold in its range,
/// the left child seeing values above the threshold. `None` when the
/// values run out, a property is out of range, a range is empty, or the
/// depth exceeds `fuel`.
pub open spec fn spec_subtree(toks: Seq<i32>, pos: int, ranges: Seq<PropRange>, signal_init: bool, base: int, fuel: nat)
    -> Option<(Seq<Node>, Seq<TreeRequest>, int)>
    decreases fuel,
{
    if fuel == 0 || pos < 0 || pos >= toks.len() {
        None
    } else {
        let rq1: TreeRequest = (1u32, 0i32, (ranges.len() - 1) as i32);
        let p = toks[pos];
        if p < 1 {
            if !signal_init {
                Some((seq![Node::Leaf], seq![rq1], pos + 1))
            } else if pos + 1 >= toks.len() {
                None
            } else if toks[pos + 1] < -2 {
                if pos + 2 >= toks.len() {
                    None
                } else {
                    Some((seq![Node::Leaf], seq![rq1, (2u32, -5i32, 5i32), (3u32, -3i32, 3i32)], pos + 3))
                }
            } else {
                Some((seq![Node::Leaf], seq![rq1, (2u32, -5i32, 5i32)], pos + 2))
            }
        } else if p - 1 >= ranges.len() || pos + 1 >= toks.len() {
            None
        } else {
            let k = p - 1;
            let pr = ranges[k];
            if pr.min >= pr.max {
                None
            } else {
                let v = toks[pos + 1];
                let rq4: TreeRequest = (4u32, pr.min, (pr.max - 1) as i32);
                match spec_subtree(toks, pos + 2, ranges.update(k, PropRange { min: (v + 1) as i32, max: pr.max }),
                    signal_init, base + 1, (fuel - 1) as nat) {
                    None => None,
                    Some((ln, lq, p1)) => match spec_subtree(toks, p1, ranges.update(k, PropRange { min: pr.min, max: v }),
                        signal_init, base + 1 + ln.len(), (fuel - 1) as nat) {
                        None => None,
                        Some((rn, rq, p2)) => Some((
                            seq![Node::Decision { property_index: k as usize, threshold: v, left: (base + 1) as usize,
                                right: (base + 1 + ln.len()) as usize }] + ln + rn,
                            seq![rq1, rq4] + lq + rq,
                            p2,
                        )),
                    },
                }
            }
        }
    }
}

/// A subtree uses values only from its start on and ends after it, and
/// it reads the same when its values are embedded in a longer sequence.
proof fn lemma_subtree_frame(toks: Seq<i32>, pos: int, pre: Seq<i32>, post: Seq<i32>, ranges: Seq<PropRange>,
    signal_init: bool, base: int, fuel: nat)
    requires
        spec_subtree(toks, pos, ranges, signal_init, base, fuel) is Some,
        spec_subtree(toks, pos, ranges, signal_init, base, fuel).unwrap().2 <= toks.len(),
    ensures
        ({
            let (n, q, e) = spec_subtree(toks, pos, ranges, signal_init, base, fuel).unwrap();
            &&& pos < e
            &&& spec_subtree(pre + toks + post, pre.len() + pos, ranges, signal_init, base, fuel)
                == Some((n, q, pre.len() + e))
        }),
    decreases fuel,
{
    let all = pre + toks + post;
    assert forall|j: int| 0 <= j < toks.len() implies #[trigger] all[pre.len() + j] == toks[j] by {}
    let p = toks[pos];
    if p >= 1 {
        let k = p - 1;
        let pr = ranges[k];
        let v = toks[pos + 1];
        let lr = ranges.update(k, PropRange { min: (v + 1) as i32, max: pr.max });
        let rr = ranges.update(k, PropRange { min: pr.min, max: v });
        let (ln, lq, p1) = spec_subtree(toks, pos + 2, lr, signal_init, base + 1, (fuel - 1) as nat).unwrap();
        let (rn, rq, p2) = spec_subtree(toks, p1, rr, signal_init, base + 1 + ln.len(), (fuel - 1) as nat).unwrap();
        lemma_subtree_end(toks, p1, rr, signal_init, base + 1 + ln.len(), (fuel - 1) as nat);
        lemma_subtree_frame(toks, pos + 2, pre, post, lr, signal_init, base + 1, (fuel - 1) as nat);
        lemma_subtree_frame(toks, p1, pre, post, rr, signal_init, base + 1 + ln.len(), (fuel - 1) as nat);
    }
}

/// A subtree ends after its start.
proof fn lemma_subtree_end(toks: Seq<i32>, pos: int, ranges: Seq<PropRange>, signal_init: bool, base: int, fuel: nat)
    requires
        spec_subtree(toks, pos, ranges, signal_init, base, fuel) is Some,
    ensures
        pos < spec_subtree(toks, pos, ranges, signal_init, base, fuel).unwrap().2,
    decreases fuel,
{
    let p = toks[pos];
    if p >= 1 {
        let k = p - 1;
        let pr = ranges[k];
        let v = toks[pos + 1];
        let lr = ranges.update(k, PropRange { min: (v + 1) as i32, max: pr.max });
        let rr = ranges.update(k, PropRange { min: pr.min, max: v });
        let (ln, lq, p1) = spec_subtree(toks, pos + 2, lr, signal_init, base + 1, (fuel - 1) as nat).unwrap();
        lemma_subtree_end(toks, pos + 2, lr, signal_init, base + 1, (fuel - 1) as nat);
        lemma_subtree_end(toks, p1, rr, signal_init, base + 1 + ln.len(), (fuel - 1) as nat);
    }
}

/// The values `toks`, read for the requests `reqs`, are ones `read` may
/// return for them.
pub open spec fn read_for<F: FnMut(u32, i32, i32) -> Result<i32, JxlError>>(read: F, reqs: Seq<TreeRequest>, toks: Seq<i32>) -> bool {
    &&& reqs.len() == toks.len()
    &&& forall|i: int| 0 <= i < toks.len() ==> #[trigger] call_ensures(read, reqs[i], Ok::<i32, JxlError>(toks[i]))
}

/// A decision node followed by its two subtrees is the subtree its
/// values give, read for the requests it makes.
proof fn lemma_decision_read<F: FnMut(u32, i32, i32) -> Result<i32, JxlError>>(
    read0: F, p: i32, v: i32, lt: Seq<i32>, lq: Seq<TreeRequest>, rt: Seq<i32>, rq: Seq<TreeRequest>,
    ranges0: Seq<PropRange>, signal_init: bool, base: int, fuel: nat, ln: Seq<Node>, rn: Seq<Node>,
)
    requires
        fuel >= 1,
        p >= 1,
        p - 1 < ranges0.len(),
        ranges0.len() <= i32::MAX - 12,
        ranges0[p - 1].min < ranges0[p - 1].max,
        spec_subtree(lt, 0, ranges0.update(p - 1, PropRange { min: (v + 1) as i32, max: ranges0[p - 1].max }), signal_init,
            base + 1, (fuel - 1) as nat) == Some((ln, lq, lt.len() as int)),
        spec_subtree(rt, 0, ranges0.update(p - 1, PropRange { min: ranges0[p - 1].min, max: v }), signal_init,
            base + 1 + ln.len(), (fuel - 1) as nat) == Some((rn, rq, rt.len() as int)),
        call_ensures(read0, (1u32, 0i32, (ranges0.len() - 1) as i32), Ok::<i32, JxlError>(p)),
        call_ensures(read0, (4u32, ranges0[p - 1].min, (ranges0[p - 1].max - 1) as i32), Ok::<i32, JxlError>(v)),
        read_for(read0, lq, lt),
        read_for(read0, rq, rt),
    ensures
        spec_subtree(seq![p, v] + lt + rt, 0, ranges0, signal_init, base, fuel) == Some((
            seq![Node::Decision { property_index: (p - 1) as usize, threshold: v, left: (base + 1) as usize,
                right: (base + 1 + ln.len()) as usize }] + ln + rn,
            seq![(1u32, 0i32, (ranges0.len() - 1) as i32), (4u32, ranges0[p - 1].min, (ranges0[p - 1].max - 1) as i32)] + lq + rq,
            (2 + lt.len() + rt.len()) as int,
        )),
        read_for(read0, seq![(1u32, 0i32, (ranges0.len() - 1) as i32), (4u32, ranges0[p - 1].min, (ranges0[p - 1].max - 1) as i32)]
            + lq + rq, seq![p, v] + lt + rt),
{
    let k = p - 1;
    let pr = ranges0[k];
    let lr = ranges0.update(k, PropRange { min: (v + 1) as i32, max: pr.max });
    let rr = ranges0.update(k, PropRange { min: pr.min, max: v });
    let toks = seq![p, v] + lt + rt;
    let reqs = seq![(1u32, 0i32, (ranges0.len() - 1) as i32), (4u32, pr.min, (pr.max - 1) as i32)] + lq + rq;
    lemma_subtree_frame(lt, 0, seq![p, v], rt, lr, signal_init, base + 1, (fuel - 1) as nat);
    lemma_subtree_frame(rt, 0, seq![p, v] + lt, Seq::empty(), rr, signal_init, base + 1 + ln.len(), (fuel - 1) as nat);
    assert(seq![p, v] + lt + rt == toks);
    assert(seq![p, v] + lt + rt + Seq::<i32>::empty() == toks);
    assert(toks[0] == p);
    assert(toks[1] == v);
    assert forall|i: int| 0 <= i < toks.len() implies #[trigger] call_ensures(read0, reqs[i], Ok::<i32, JxlError>(toks[i])) by {
        if i >= 2 {
            if i < 2 + lt.len() {
                assert(toks[i] == lt[i - 2]);
                assert(reqs[i] == lq[i - 2]);
            } else {
                assert(toks[i] == rt[i - 2 - lt.len()]);
                assert(reqs[i] == rq[i - 2 - lt.len()]);
            }
        }
    }
}

/// `e` is an error `read` may return.
pub open spec fn read_error<F: FnMut(u32, i32, i32) -> Result<i32, JxlError>>(read: F, e: JxlError) -> bool {
    exists|k: u32, lo: i32, hi: i32| call_ensures(read, (k, lo, hi), Err::<i32, JxlError>(e))
}

/// `read` may name a decision node: a property value of at least 1 for
/// the property request over `n` properties. Every rejection of the tree
/// (node or depth cap, a property index out of range, a degenerate
/// range) comes after such a read.
pub open spec fn decision_read<F: FnMut(u32, i32, i32) -> Result<i32, JxlError>>(read: F, n: int) -> bool {
    exists|p: i32| p >= 1 && #[trigger] call_ensures(read, (1u32, 0i32, (n - 1) as i32), Ok::<i32, JxlError>(p))
}

/// Decode the subtree rooted at the next node (D.7.2), appending it to
/// `nodes` depth first, and return its root's index with the values read
/// and the requests made for them. `ranges` holds the current range of
/// each property and is restored on success.
#[verifier::rlimit(100)]
#[verifier::spinoff_prover]
fn decode_subtree<F: FnMut(u32, i32, i32) -> Result<i32, JxlError>>(
    read: &mut F,
    nodes: &mut Vec<Node>,
    ranges: &mut Vec<PropRange>,
    n: u32,
    signal_init: bool,
    depth: usize,
) -> (r: Result<(usize, Ghost<(Seq<i32>, Seq<TreeRequest>)>), JxlError>)
    requires
        reads_in_range(*old(read)),
        old(ranges)@.len() <= i32::MAX - 12,
        old(nodes)@.len() <= MAX_MA_TREE_NODES,
        depth <= MAX_MA_TREE_DEPTH,
        depth == 0 ==> old(nodes)@.len() == 0,
        depth > 0 ==> decision_read(*old(read), old(ranges)@.len() as int),
    ensures
        *final(read) == *old(read),
        final(ranges)@.len() == old(ranges)@.len(),
        final(nodes)@.len() <= MAX_MA_TREE_NODES,
        r matches Ok((idx, g)) ==> {
            &&& idx == old(nodes)@.len()
            &&& final(nodes)@.len() > old(nodes)@.len()
            &&& final(ranges)@ == old(ranges)@
            &&& forall|i: int| 0 <= i < old(nodes)@.len() ==> #[trigger] final(nodes)@[i] == old(nodes)@[i]
            &&& subtree_wf(final(nodes)@, old(nodes)@.len() as int, final(nodes)@.len() as int)
            &&& spec_subtree(g@.0, 0, old(ranges)@, signal_init, old(nodes)@.len() as int, (MAX_MA_TREE_DEPTH - depth) as nat)
                == Some((final(nodes)@.subrange(old(nodes)@.len() as int, final(nodes)@.len() as int), g@.1, g@.0.len() as int))
            &&& read_for(*old(read), g@.1, g@.0)
        },
        r matches Err(e) ==> read_error(*old(read), e) || (e is InvalidData && decision_read(*old(read),
            old(ranges)@.len() as int)),
    decreases MAX_MA_TREE_DEPTH - depth,
{
    if nodes.len() >= MAX_MA_TREE_NODES {
        return Err(invalid("MA tree: node count exceeds cap"));
    }
    if depth >= MAX_MA_TREE_DEPTH {
        return Err(invalid("MA tree: depth exceeds cap"));
    }
    let ghost read0 = *read;
    let ghost fuel: nat = (MAX_MA_TREE_DEPTH - depth) as nat;
    let n_props = ranges.len() as i32;
    let ghost rq1: TreeRequest = (1u32, 0i32, (n_props - 1) as i32);
    let p = read(1, 0, n_props - 1)?;
    let my_idx = nodes.len();
    if p < 1 {
        let ghost mut toks: Seq<i32> = seq![p];
        let ghost mut reqs: Seq<TreeRequest> = seq![rq1];
        if signal_init {
            let zc = read(2, -5, 5)?;
            proof {
                toks = toks.push(zc);
                reqs = reqs.push((2u32, -5i32, 5i32));
            }
            if zc < -2 {
                let sign = read(3, -3, 3)?;
                proof {
                    toks = toks.push(sign);
                    reqs = reqs.push((3u32, -3i32, 3i32));
                }
            }
        }
        nodes.push(Node::Leaf);
        proof {
            assert forall|i: int| my_idx <= i < nodes@.len() implies match #[trigger] nodes@[i] {
                Node::Decision { left, right, .. } => i < left < nodes@.len() && i < right < nodes@.len(),
                Node::Leaf => true,
            } by {
                assert(i == my_idx);
            }
            assert(nodes@.subrange(my_idx as int, nodes@.len() as int) =~= seq![Node::Leaf]);
            assert forall|i: int| 0 <= i < toks.len() implies #[trigger] call_ensures(read0, reqs[i], Ok::<i32, JxlError>(toks[i])) by {}
        }
        return Ok((my_idx, Ghost((toks, reqs))));
    }
    proof {
        assert(decision_read(read0, ranges@.len() as int));
    }
    let prop_idx = (p - 1) as usize;
    if prop_idx >= ranges.len() {
        return Err(invalid("MA tree: property index out of range"));
    }
    let pr = ranges[prop_idx];
    if pr.min >= pr.max {
        return Err(invalid("MA tree: degenerate property range at decision node"));
    }
    let v = read(4, pr.min, pr.max - 1)?;
    let ghost rq4: TreeRequest = (4u32, pr.min, (pr.max - 1) as i32);
    nodes.push(Node::Decision { property_index: prop_idx, threshold: v, left: 0, right: 0 });
    let ghost ranges0 = ranges@;
    let ghost nodes1 = nodes@;
    ranges.set(prop_idx, PropRange { min: v + 1, max: pr.max });
    let ghost lranges = ranges@;
    let (left, lg) = decode_subtree(read, nodes, ranges, n, signal_init, depth + 1)?;
    let ghost nodes2 = nodes@;
    ranges.set(prop_idx, PropRange { min: pr.min, max: v });
    let ghost rranges = ranges@;
    let (right, rg) = decode_subtree(read, nodes, ranges, n, signal_init, depth + 1)?;
    let ghost nodes3 = nodes@;
    ranges.set(prop_idx, pr);
    nodes.set(my_idx, Node::Decision { property_index: prop_idx, threshold: v, left, right });
    let ghost toks: Seq<i32> = seq![p, v] + lg@.0 + rg@.0;
    let ghost reqs: Seq<TreeRequest> = seq![rq1, rq4] + lg@.1 + rg@.1;
    proof {
        assert(ranges@ =~= ranges0);
        assert(lranges =~= ranges0.update(prop_idx as int, PropRange { min: (v + 1) as i32, max: pr.max }));
        assert(rranges =~= ranges0.update(prop_idx as int, PropRange { min: pr.min, max: v }));
        assert forall|i: int| 0 <= i < old(nodes)@.len() implies #[trigger] nodes@[i] == old(nodes)@[i] by {
            assert(nodes2[i] == nodes1[i]);
            assert(nodes3[i] == nodes2[i]);
        }
        assert forall|i: int| my_idx <= i < nodes@.len() implies match #[trigger] nodes@[i] {
            Node::Decision { left, right, .. } => i < left < nodes@.len() && i < right < nodes@.len(),
            Node::Leaf => true,
        } by {
            if i > my_idx {
                if i < right {
                    assert(nodes3[i] == nodes2[i]);
                    assert(match nodes2[i] {
                        Node::Decision { left, right, .. } => i < left < nodes2.len() && i < right < nodes2.len(),
                        Node::Leaf => true,
                    });
                } else {
                    assert(match nodes3[i] {
                        Node::Decision { left, right, .. } => i < left < nodes3.len() && i < right < nodes3.len(),
                        Node::Leaf => true,
                    });
                }
            }
        }
        let ln = nodes2.subrange(my_idx + 1, nodes2.len() as int);
        let rn = nodes3.subrange(nodes2.len() as int, nodes3.len() as int);
        lemma_decision_read(read0, p, v, lg@.0, lg@.1, rg@.0, rg@.1, ranges0, signal_init, my_idx as int, fuel, ln, rn);
        assert(nodes@.subrange(my_idx as int, nodes@.len() as int) =~= seq![Node::Decision { property_index: prop_idx,
            threshold: v, left, right }] + ln + rn);
    }
    Ok((my_idx, Ghost((toks, reqs))))
}

/// `nodes` is the tree decoded from values that `read` may return for
/// the requests the decoder makes (see [`spec_subtree`]), using all of
/// them.
pub open spec fn tree_read_by<F: FnMut(u32, i32, i32) -> Result<i32, JxlError>>(
    read: F, ranges: Seq<PropRange>, signal_init: bool, nodes: Seq<Node>,
) -> bool {
    exists|toks: Seq<i32>, reqs: Seq<TreeRequest>|
        #![trigger spec_subtree(toks, 0, ranges, signal_init, 0, MAX_MA_TREE_DEPTH as nat), read_for(read, reqs, toks)]
        spec_subtree(toks, 0, ranges, signal_init, 0, MAX_MA_TREE_DEPTH as nat)
            == Some((nodes, reqs, toks.len() as int)) && read_for(read, reqs, toks)
}

impl MaTree {
    /// Decode a complete MA tree (D.7.2) for properties with the initial
    /// ranges `ranges` and leaf values of bit depth `n`. `read(k, lo, hi)`
    /// decodes a value in `[lo, hi]` with the `k`-th adaptive integer coder
    /// (1: property, 2: zero-probability seed, 3: sign seed, 4: threshold);
    /// `signal_init` is set when leaves signal their initial state.
    pub fn decode<F: FnMut(u32, i32, i32) -> Result<i32, JxlError>>(
        mut read: F,
        ranges: &[PropRange],
        n: u32,
        signal_init: bool,
    ) -> (r: Result<Self, JxlError>)
        requires
            reads_in_range(read),
            ranges@.len() <= i32::MAX - 12,
        ensures
            n > MAX_VALUE_BIT_DEPTH ==> (r matches Err(e) && e is InvalidData),
            r matches Err(e) ==> (n > MAX_VALUE_BIT_DEPTH && e is InvalidData) || read_error(read, e)
                || (e is InvalidData && decision_read(read, ranges@.len() as int)),
            r matches Ok(t) ==> nodes_wf(t.nodes@) && t.n_props == ranges@.len() && t.max_bits == n
                && tree_read_by(read, ranges@, signal_init, t.nodes@),
    {
        if n > MAX_VALUE_BIT_DEPTH {
            return Err(invalid("MA tree: bit depth exceeds cap"));
        }
        let ghost read0 = read;
        let mut nodes: Vec<Node> = Vec::new();
        let mut ranges_vec: Vec<PropRange> = Vec::new();
        let mut i: usize = 0;
        while i < ranges.len()
            invariant
                i <= ranges@.len(),
                ranges_vec@ == ranges@.subrange(0, i as int),
            decreases ranges@.len() - i,
        {
            ranges_vec.push(ranges[i]);
            i = i + 1;
        }
        proof {
            assert(ranges_vec@ =~= ranges@);
        }
        let (_root, g) = decode_subtree(&mut read, &mut nodes, &mut ranges_vec, n, signal_init, 0)?;
        proof {
            assert(nodes@.subrange(0, nodes@.len() as int) =~= nodes@);
            assert(read == read0);
        }
        Ok(MaTree { nodes, n_props: ranges.len(), max_bits: n })
    }
}

} // verus!
