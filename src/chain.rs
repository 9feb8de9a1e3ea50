use vstd::prelude::*;

verus! {

/// One re-derivation of a joint: `child` is re-attached to `parent`, both
/// given as joint handles. The parent is read, the child is moved and turned.
#[derive(Clone, Copy, Debug, PartialEq, Eq, Structural)]
pub struct Link {
    pub child: usize,
    pub parent: usize,
}

/// The links of a root-to-tip sweep: every joint but the first is re-derived
/// from its predecessor. A sequence of fewer than two joints has none.
pub open spec fn forward_links(nodes: Seq<usize>) -> Seq<Link> {
    if nodes.len() < 2 {
        Seq::empty()
    } else {
        Seq::new((nodes.len() - 1) as nat, |i: int| Link { child: nodes[i + 1], parent: nodes[i] })
    }
}

/// The links of a tip-to-root sweep: from the joint before the tip down to
/// the root, every joint is re-derived from its tip-ward neighbour.
pub open spec fn backward_links(nodes: Seq<usize>) -> Seq<Link> {
    if nodes.len() < 2 {
        Seq::empty()
    } else {
        Seq::new(
            (nodes.len() - 1) as nat,
            |i: int| Link { child: nodes[nodes.len() - 2 - i], parent: nodes[nodes.len() - 1 - i] },
        )
    }
}

/// The links of a chain hung from a joint `root` outside it: its first joint
/// is re-derived from `root`, then the chain is swept. An empty chain has none.
pub open spec fn hung_links(root: usize, nodes: Seq<usize>) -> Seq<Link> {
    if nodes.len() == 0 {
        Seq::empty()
    } else {
        seq![Link { child: nodes[0], parent: root }] + forward_links(nodes)
    }
}

/// Every joint that a link names is a handle below `bound`.
pub open spec fn links_within(links: Seq<Link>, bound: nat) -> bool {
    forall|i: int|
        0 <= i < links.len() ==> (#[trigger] links[i]).child < bound && links[i].parent < bound
}

/// Every handle of `nodes` is below `bound`.
pub open spec fn handles_within(nodes: Seq<usize>, bound: nat) -> bool {
    forall|i: int| 0 <= i < nodes.len() ==> #[trigger] nodes[i] < bound
}

/// A forward-kinematics chain: joint handles from root to tip.
pub struct ForwardKinematic {
    pub nodes: Vec<usize>,
}

impl ForwardKinematic {
    pub fn new(nodes: Vec<usize>) -> (r: Self)
        ensures
            r.nodes@ == nodes@,
    {
        ForwardKinematic { nodes }
    }

    /// The re-derivations of one propagation, in the order they are applied:
    /// a single sweep from the root, each joint from its immediate predecessor.
    pub fn tick(&self) -> (r: Vec<Link>)
        ensures
            r@ == forward_links(self.nodes@),
    {
        let mut r: Vec<Link> = Vec::new();
        let n = self.nodes.len();
        if n < 2 {
            return r;
        }
        let mut i: usize = 1;
        while i < n
            invariant
                n == self.nodes@.len(),
                2 <= n,
                1 <= i <= n,
                r@ =~= forward_links(self.nodes@).take(i - 1),
            decreases n - i,
        {
            r.push(Link { child: self.nodes[i], parent: self.nodes[i - 1] });
            i = i + 1;
        }
        r
    }

    /// The re-derivations that hang this chain from the joint `root` and then
    /// propagate it, in the order they are applied.
    pub fn attach(&self, root: usize) -> (r: Vec<Link>)
        ensures
            r@ == hung_links(root, self.nodes@),
    {
        if self.nodes.len() == 0 {
            return Vec::new();
        }
        let mut r: Vec<Link> = Vec::new();
        r.push(Link { child: self.nodes[0], parent: root });
        let mut rest = self.tick();
        r.append(&mut rest);
        r
    }
}

/// A sweep only names joints of the chain it runs over.
pub proof fn lemma_links_within(nodes: Seq<usize>, bound: nat)
    requires
        handles_within(nodes, bound),
    ensures
        links_within(forward_links(nodes), bound),
        links_within(backward_links(nodes), bound),
{
    if nodes.len() >= 2 {
        assert forall|i: int| 0 <= i < forward_links(nodes).len() implies (#[trigger] forward_links(
            nodes,
        )[i]).child < bound && forward_links(nodes)[i].parent < bound by {
            assert(nodes[i + 1] < bound);
            assert(nodes[i] < bound);
        }
        assert forall|i: int| 0 <= i < backward_links(nodes).len() implies (
        #[trigger] backward_links(nodes)[i]).child < bound && backward_links(nodes)[i].parent
            < bound by {
            assert(nodes[nodes.len() - 2 - i] < bound);
            assert(nodes[nodes.len() - 1 - i] < bound);
        }
    }
}

} // verus!
