use vstd::prelude::*;

use crate::chain::{
    forward_links, handles_within, lemma_links_within, links_within, ForwardKinematic, Link,
};
use crate::fabrik::{InverseKinematic, REACH_CYCLES};

verus! {

/// One stage of a tick.
#[derive(Clone, Copy, Debug, PartialEq, Eq, Structural)]
pub enum Stage {
    /// A re-derivation of a forward-kinematics chain.
    Propagate(Link),
    /// A reach solve of the inverse-kinematics chain with this index, toward
    /// its current target.
    Solve(usize),
}

/// All forward-kinematics links of a tick: every chain's sweep, chain after
/// chain in registration order.
pub open spec fn propagation(chains: Seq<Seq<usize>>) -> Seq<Link>
    decreases chains.len(),
{
    if chains.len() == 0 {
        Seq::empty()
    } else {
        propagation(chains.drop_last()) + forward_links(chains.last())
    }
}

pub open spec fn propagate_stages(links: Seq<Link>) -> Seq<Stage> {
    links.map_values(|l: Link| Stage::Propagate(l))
}

/// A tick over forward chains `chains` and `solves` inverse chains: all the
/// forward chains in registration order, then every inverse chain in
/// registration order.
pub open spec fn tick_stages(chains: Seq<Seq<usize>>, solves: nat) -> Seq<Stage> {
    propagate_stages(propagation(chains)) + Seq::new(solves, |i: int| Stage::Solve(i as usize))
}

/// Where the links of chain `c` begin in a tick.
pub open spec fn chain_offset(chains: Seq<Seq<usize>>, c: int) -> nat {
    propagation(chains.take(c)).len()
}

/// The registry: it owns every joint, by a handle that is its index, and the
/// chains that are evaluated, in registration order, on every tick. `J` is
/// the joint's pose and `P` the point an inverse chain reaches for; the
/// registry only stores and hands them out.
pub struct Skeleton<J, P> {
    joints: Vec<J>,
    forward: Vec<ForwardKinematic>,
    inverse: Vec<InverseKinematic>,
    targets: Vec<P>,
}

impl<J, P> Skeleton<J, P> {
    /// The joints, by handle: the handles in use are `0..joints().len()`.
    pub closed spec fn joints(&self) -> Seq<J> {
        self.joints@
    }

    /// The forward-kinematics chains, in registration order.
    pub closed spec fn fk_chains(&self) -> Seq<Seq<usize>> {
        self.forward@.map_values(|c: ForwardKinematic| c.nodes@)
    }

    /// The inverse-kinematics chains, in registration order.
    pub closed spec fn ik_chains(&self) -> Seq<Seq<usize>> {
        self.inverse@.map_values(|c: InverseKinematic| c.nodes@)
    }

    /// The current target of each inverse-kinematics chain.
    pub closed spec fn targets(&self) -> Seq<P> {
        self.targets@
    }

    /// Every chain names only joints that exist, every inverse chain runs the
    /// default number of iterations and has a target.
    pub closed spec fn wf(&self) -> bool {
        &&& forall|c: int|
            0 <= c < self.forward@.len() ==> handles_within(
                (#[trigger] self.forward@[c]).nodes@,
                self.joints@.len(),
            )
        &&& forall|c: int|
            0 <= c < self.inverse@.len() ==> handles_within(
                (#[trigger] self.inverse@[c]).nodes@,
                self.joints@.len(),
            ) && self.inverse@[c].cycles == REACH_CYCLES
        &&& self.targets@.len() == self.inverse@.len()
    }

    pub fn new() -> (r: Self)
        ensures
            r.wf(),
            r.joints() == Seq::<J>::empty(),
            r.fk_chains() == Seq::<Seq<usize>>::empty(),
            r.ik_chains() == Seq::<Seq<usize>>::empty(),
            r.targets() == Seq::<P>::empty(),
    {
        let r = Skeleton {
            joints: Vec::new(),
            forward: Vec::new(),
            inverse: Vec::new(),
            targets: Vec::new(),
        };
        assert(r.fk_chains() =~= Seq::<Seq<usize>>::empty());
        assert(r.ik_chains() =~= Seq::<Seq<usize>>::empty());
        r
    }

    /// Takes `joint` in and returns its handle: handles count up from 0 in
    /// creation order, and no joint is ever removed, so none is given twice.
    pub fn create_joint(&mut self, joint: J) -> (handle: usize)
        requires
            old(self).wf(),
        ensures
            final(self).wf(),
            handle == old(self).joints().len(),
            final(self).joints() == old(self).joints().push(joint),
            final(self).fk_chains() == old(self).fk_chains(),
            final(self).ik_chains() == old(self).ik_chains(),
            final(self).targets() == old(self).targets(),
    {
        let handle = self.joints.len();
        self.joints.push(joint);
        assert forall|c: int| 0 <= c < self.forward@.len() implies handles_within(
            (#[trigger] self.forward@[c]).nodes@,
            self.joints@.len(),
        ) by {
            assert(handles_within(self.forward@[c].nodes@, handle as nat));
        }
        assert forall|c: int| 0 <= c < self.inverse@.len() implies handles_within(
            (#[trigger] self.inverse@[c]).nodes@,
            self.joints@.len(),
        ) by {
            assert(handles_within(self.inverse@[c].nodes@, handle as nat));
        }
        handle
    }

    pub fn joint_count(&self) -> (r: usize)
        ensures
            r == self.joints().len(),
    {
        self.joints.len()
    }

    pub fn joint(&self, handle: usize) -> (r: &J)
        requires
            handle < self.joints().len(),
        ensures
            *r == self.joints()[handle as int],
    {
        &self.joints[handle]
    }

    /// Replaces the pose of one joint; nothing else changes.
    pub fn set_joint(&mut self, handle: usize, joint: J)
        requires
            old(self).wf(),
            handle < old(self).joints().len(),
        ensures
            final(self).wf(),
            final(self).joints() == old(self).joints().update(handle as int, joint),
            final(self).fk_chains() == old(self).fk_chains(),
            final(self).ik_chains() == old(self).ik_chains(),
            final(self).targets() == old(self).targets(),
    {
        self.joints.set(handle, joint);
    }

    /// Whether every handle of `nodes` names a joint of this skeleton.
    pub fn knows_all(&self, nodes: &Vec<usize>) -> (r: bool)
        ensures
            r == handles_within(nodes@, self.joints().len()),
    {
        let mut i: usize = 0;
        while i < nodes.len()
            invariant
                i <= nodes@.len(),
                forall|j: int| 0 <= j < i ==> #[trigger] nodes@[j] < self.joints@.len(),
            decreases nodes@.len() - i,
        {
            if nodes[i] >= self.joints.len() {
                return false;
            }
            i = i + 1;
        }
        true
    }

    /// Registers a forward-kinematics chain (root first) after all chains
    /// registered so far, and returns its index.
    pub fn register_fk_chain(&mut self, nodes: Vec<usize>) -> (index: usize)
        requires
            old(self).wf(),
            handles_within(nodes@, old(self).joints().len()),
        ensures
            final(self).wf(),
            index == old(self).fk_chains().len(),
            final(self).joints() == old(self).joints(),
            final(self).fk_chains() == old(self).fk_chains().push(nodes@),
            final(self).ik_chains() == old(self).ik_chains(),
            final(self).targets() == old(self).targets(),
    {
        let index = self.forward.len();
        let ghost before = self.forward@;
        self.forward.push(ForwardKinematic::new(nodes));
        assert(self.forward@.map_values(|c: ForwardKinematic| c.nodes@) =~= before.map_values(
            |c: ForwardKinematic| c.nodes@,
        ).push(nodes@));
        index
    }

    /// Registers an inverse-kinematics chain (root first) reaching for
    /// `target`, after all chains registered so far, and returns its index.
    pub fn register_ik_chain(&mut self, nodes: Vec<usize>, target: P) -> (index: usize)
        requires
            old(self).wf(),
            handles_within(nodes@, old(self).joints().len()),
        ensures
            final(self).wf(),
            index == old(self).ik_chains().len(),
            final(self).joints() == old(self).joints(),
            final(self).fk_chains() == old(self).fk_chains(),
            final(self).ik_chains() == old(self).ik_chains().push(nodes@),
            final(self).targets() == old(self).targets().push(target),
    {
        let index = self.inverse.len();
        let ghost before = self.inverse@;
        self.inverse.push(InverseKinematic::new(nodes));
        self.targets.push(target);
        assert(self.inverse@.map_values(|c: InverseKinematic| c.nodes@) =~= before.map_values(
            |c: InverseKinematic| c.nodes@,
        ).push(nodes@));
        index
    }

    /// Moves the target of one inverse chain; nothing else changes.
    pub fn set_ik_target(&mut self, chain: usize, target: P)
        requires
            old(self).wf(),
            chain < old(self).ik_chains().len(),
        ensures
            final(self).wf(),
            final(self).targets() == old(self).targets().update(chain as int, target),
            final(self).joints() == old(self).joints(),
            final(self).fk_chains() == old(self).fk_chains(),
            final(self).ik_chains() == old(self).ik_chains(),
    {
        self.targets.set(chain, target);
    }

    pub fn ik_target(&self, chain: usize) -> (r: &P)
        requires
            self.wf(),
            chain < self.ik_chains().len(),
        ensures
            *r == self.targets()[chain as int],
    {
        &self.targets[chain]
    }

    pub fn fk_chain_count(&self) -> (r: usize)
        ensures
            r == self.fk_chains().len(),
    {
        self.forward.len()
    }

    pub fn ik_chain_count(&self) -> (r: usize)
        ensures
            r == self.ik_chains().len(),
    {
        self.inverse.len()
    }

    pub fn fk_chain(&self, index: usize) -> (r: &ForwardKinematic)
        requires
            self.wf(),
            index < self.fk_chains().len(),
        ensures
            r.nodes@ == self.fk_chains()[index as int],
            handles_within(r.nodes@, self.joints().len()),
    {
        &self.forward[index]
    }

    pub fn ik_chain(&self, index: usize) -> (r: &InverseKinematic)
        requires
            self.wf(),
            index < self.ik_chains().len(),
        ensures
            r.nodes@ == self.ik_chains()[index as int],
            r.cycles == REACH_CYCLES,
            handles_within(r.nodes@, self.joints().len()),
    {
        &self.inverse[index]
    }

    /// The stages of one tick, in the order they are applied: every forward
    /// chain in registration order, each swept once from its root, then a
    /// reach solve of every inverse chain in registration order. Every stage
    /// names only created joints and registered chains.
    pub fn tick(&self) -> (r: Vec<Stage>)
        requires
            self.wf(),
        ensures
            r@ == tick_stages(self.fk_chains(), self.ik_chains().len()),
            forall|i: int|
                0 <= i < r@.len() ==> match #[trigger] r@[i] {
                    Stage::Propagate(l) => l.child < self.joints().len() && l.parent
                        < self.joints().len(),
                    Stage::Solve(c) => c < self.ik_chains().len(),
                },
    {
        let ghost chains = self.fk_chains();
        let mut r: Vec<Stage> = Vec::new();
        let mut c: usize = 0;
        while c < self.forward.len()
            invariant
                self.wf(),
                chains == self.fk_chains(),
                c <= chains.len(),
                r@ =~= propagate_stages(propagation(chains.take(c as int))),
                links_within(propagation(chains.take(c as int)), self.joints().len()),
            decreases chains.len() - c,
        {
            let links = self.forward[c].tick();
            proof {
                lemma_links_within(chains[c as int], self.joints().len());
            }
            let ghost done = propagation(chains.take(c as int));
            let mut k: usize = 0;
            while k < links.len()
                invariant
                    links@ == forward_links(chains[c as int]),
                    k <= links@.len(),
                    r@ =~= propagate_stages(done) + propagate_stages(links@.take(k as int)),
                decreases links@.len() - k,
            {
                r.push(Stage::Propagate(links[k]));
                k = k + 1;
            }
            proof {
                assert(chains.take(c + 1).drop_last() =~= chains.take(c as int));
                assert(links@.take(k as int) =~= links@);
                assert(propagation(chains.take(c + 1)) == done + links@);
                assert(propagate_stages(done + links@) =~= propagate_stages(done)
                    + propagate_stages(links@));
            }
            c = c + 1;
        }
        assert(chains.take(chains.len() as int) =~= chains);
        let ghost head = r@;
        let mut i: usize = 0;
        while i < self.inverse.len()
            invariant
                head == propagate_stages(propagation(chains)),
                links_within(propagation(chains), self.joints().len()),
                i <= self.inverse@.len(),
                r@ =~= head + Seq::new(i as nat, |j: int| Stage::Solve(j as usize)),
            decreases self.inverse@.len() - i,
        {
            r.push(Stage::Solve(i));
            i = i + 1;
        }
        assert forall|j: int| 0 <= j < r@.len() implies match #[trigger] r@[j] {
            Stage::Propagate(l) => l.child < self.joints().len() && l.parent
                < self.joints().len(),
            Stage::Solve(c) => c < self.ik_chains().len(),
        } by {
            if j < head.len() {
                assert(propagation(chains)[j].child < self.joints().len());
            }
        }
        r
    }
}

proof fn lemma_propagation_prefix(chains: Seq<Seq<usize>>, m: int)
    requires
        0 <= m <= chains.len(),
    ensures
        propagation(chains.take(m)).len() <= propagation(chains).len(),
        forall|i: int|
            0 <= i < propagation(chains.take(m)).len() ==> #[trigger] propagation(chains)[i]
                == propagation(chains.take(m))[i],
    decreases chains.len(),
{
    if m == chains.len() {
        assert(chains.take(m) =~= chains);
    } else {
        let shorter = chains.drop_last();
        assert(shorter.take(m) =~= chains.take(m));
        lemma_propagation_prefix(shorter, m);
    }
}

/// The links of chain `c` stand together in a tick, from its offset on, in
/// the order of its own sweep.
pub proof fn lemma_chain_segment(chains: Seq<Seq<usize>>, solves: nat, c: int)
    requires
        0 <= c < chains.len(),
    ensures
        chain_offset(chains, c) + forward_links(chains[c]).len() == chain_offset(chains, c + 1),
        chain_offset(chains, c + 1) <= propagation(chains).len(),
        forall|i: int|
            0 <= i < forward_links(chains[c]).len() ==> tick_stages(chains, solves)[chain_offset(
                chains,
                c,
            ) + i] == Stage::Propagate(#[trigger] forward_links(chains[c])[i]),
{
    let before = chains.take(c);
    let upto = chains.take(c + 1);
    assert(upto.drop_last() =~= before);
    assert(upto.last() == chains[c]);
    lemma_propagation_prefix(chains, c + 1);
    let all = propagation(chains);
    assert forall|i: int| 0 <= i < forward_links(chains[c]).len() implies tick_stages(
        chains,
        solves,
    )[chain_offset(chains, c) + i] == Stage::Propagate(
        #[trigger] forward_links(chains[c])[i],
    ) by {
        let p = chain_offset(chains, c) + i;
        assert(propagation(upto)[p] == forward_links(chains[c])[i]);
        assert(all[p] == propagation(upto)[p]);
        assert(tick_stages(chains, solves)[p] == propagate_stages(all)[p]);
    }
}

/// Forward chains are evaluated in registration order: in a tick, every
/// stage of an earlier chain comes before every stage of a later one.
pub proof fn lemma_chains_in_registration_order(chains: Seq<Seq<usize>>, a: int, b: int)
    requires
        0 <= a < b < chains.len(),
    ensures
        chain_offset(chains, a) + forward_links(chains[a]).len() <= chain_offset(chains, b),
{
    let upto = chains.take(b);
    assert(upto.take(a + 1) =~= chains.take(a + 1));
    lemma_propagation_prefix(upto, a + 1);
    lemma_chain_segment(chains, 0, a);
}

/// A branch reads the pose of the current tick: when forward chain `a`
/// re-derives joint `chains[a][k]`, and a chain `b` registered after it is
/// rooted at that joint, the tick re-derives the joint in `a` before the
/// first stage of `b`, which reads it.
pub proof fn lemma_branch_reads_current_tick(
    chains: Seq<Seq<usize>>,
    solves: nat,
    a: int,
    b: int,
    k: int,
)
    requires
        0 <= a < b < chains.len(),
        1 <= k < chains[a].len(),
        2 <= chains[b].len(),
        chains[b][0] == chains[a][k],
    ensures
        chain_offset(chains, a) + k - 1 < chain_offset(chains, b),
        tick_stages(chains, solves)[chain_offset(chains, a) + k - 1] == Stage::Propagate(
            Link { child: chains[a][k], parent: chains[a][k - 1] },
        ),
        tick_stages(chains, solves)[chain_offset(chains, b) as int] == Stage::Propagate(
            Link { child: chains[b][1], parent: chains[a][k] },
        ),
{
    lemma_chains_in_registration_order(chains, a, b);
    lemma_chain_segment(chains, solves, a);
    lemma_chain_segment(chains, solves, b);
    assert(forward_links(chains[a])[k - 1] == Link {
        child: chains[a][k],
        parent: chains[a][k - 1],
    });
    assert(forward_links(chains[b])[0] == Link { child: chains[b][1], parent: chains[b][0] });
}

} // verus!
