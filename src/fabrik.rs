use vstd::prelude::*;

use crate::chain::{backward_links, forward_links, Link};

verus! {

/// How many reach-and-reconcile iterations a solve runs at most, unless the
/// chain says otherwise.
pub const REACH_CYCLES: usize = 20;

/// One unit of work of a reach iteration.
#[derive(Clone, Copy, Debug, PartialEq, Eq, Structural)]
pub enum Step {
    /// Put the joint exactly on the chain's target; its rotation is kept.
    SnapTip(usize),
    /// Re-derive `child` from `parent`, under the child's rotation limits.
    Attach(Link),
    /// Put the joint back on the anchor captured when the solve began; its
    /// rotation is kept as the backward sweep left it.
    Repin(usize),
}

/// Each link as a re-derivation step, in the same order.
pub open spec fn attach_steps(links: Seq<Link>) -> Seq<Step> {
    links.map_values(|l: Link| Step::Attach(l))
}

/// One iteration of the reach solver over a chain of at least three joints:
/// snap the tip to the target, sweep back to the root, re-pin the root, and
/// sweep forward to the tip. Shorter chains are not solved at all.
pub open spec fn iteration_steps(nodes: Seq<usize>) -> Seq<Step> {
    if nodes.len() < 3 {
        Seq::empty()
    } else {
        seq![Step::SnapTip(nodes.last())] + attach_steps(backward_links(nodes)) + seq![
            Step::Repin(nodes[0]),
        ] + attach_steps(forward_links(nodes))
    }
}

/// An inverse-kinematics chain: joint handles from root (the anchor) to tip,
/// and the most iterations a solve may run.
pub struct InverseKinematic {
    pub nodes: Vec<usize>,
    pub cycles: usize,
}

/// Progress of one solve: the iterations run so far and whether the solve is
/// over, and if so whether the tip landed on the target.
#[derive(Clone, Copy, Debug, PartialEq, Eq, Structural)]
pub struct FabrikRun {
    pub iterations: usize,
    pub cycles: usize,
    pub finished: bool,
    pub reached: bool,
}

impl FabrikRun {
    pub open spec fn wf(&self) -> bool {
        &&& self.iterations <= self.cycles
        &&& !self.finished ==> self.iterations < self.cycles
        &&& self.reached ==> self.finished
    }

    /// A solve of a chain of `len` joints that may run `cycles` iterations: it
    /// is over before it starts when the chain is too short or no iteration
    /// is allowed.
    pub open spec fn started(len: nat, cycles: usize) -> FabrikRun {
        FabrikRun { iterations: 0, cycles, finished: len < 3 || cycles == 0, reached: false }
    }

    /// The run after one more iteration whose convergence check gave `hit`.
    /// A finished run stays as it is.
    pub open spec fn checked(self, hit: bool) -> FabrikRun {
        if self.finished {
            self
        } else {
            FabrikRun {
                iterations: (self.iterations + 1) as usize,
                cycles: self.cycles,
                finished: hit || self.iterations + 1 == self.cycles,
                reached: hit,
            }
        }
    }

    /// Records the convergence check of the iteration just run: whether the
    /// tip now sits exactly on the target.
    pub fn record(&mut self, tip_reached: bool)
        requires
            old(self).wf(),
        ensures
            *final(self) == old(self).checked(tip_reached),
            final(self).wf(),
    {
        if !self.finished {
            self.iterations = self.iterations + 1;
            self.reached = tip_reached;
            self.finished = tip_reached || self.iterations == self.cycles;
        }
    }

    pub fn is_finished(&self) -> (r: bool)
        ensures
            r == self.finished,
    {
        self.finished
    }

    pub fn iterations(&self) -> (r: usize)
        ensures
            r == self.iterations,
    {
        self.iterations
    }

    pub fn reached(&self) -> (r: bool)
        ensures
            r == self.reached,
    {
        self.reached
    }
}

/// Where a run ends when the convergence checks of its iterations give
/// `checks`, one after another.
pub open spec fn run_checks(run: FabrikRun, checks: Seq<bool>) -> FabrikRun
    decreases checks.len(),
{
    if run.finished || checks.len() == 0 {
        run
    } else {
        run_checks(run.checked(checks[0]), checks.drop_first())
    }
}

/// A solve is bounded: given a check for each iteration it may still run, it
/// is over, and it has run no more iterations than its cap.
pub proof fn lemma_run_is_bounded(run: FabrikRun, checks: Seq<bool>)
    requires
        run.wf(),
        checks.len() >= run.cycles - run.iterations,
    ensures
        run_checks(run, checks).finished,
        run_checks(run, checks).iterations <= run.cycles,
        run_checks(run, checks).wf(),
    decreases checks.len(),
{
    if !run.finished && checks.len() > 0 {
        lemma_run_is_bounded(run.checked(checks[0]), checks.drop_first());
    }
}

proof fn lemma_misses_run_out(run: FabrikRun, checks: Seq<bool>)
    requires
        run.wf(),
        run.finished ==> run.iterations == run.cycles,
        !run.reached,
        checks.len() >= run.cycles - run.iterations,
        forall|i: int| 0 <= i < run.cycles - run.iterations ==> !#[trigger] checks[i],
    ensures
        run_checks(run, checks).finished,
        run_checks(run, checks).iterations == run.cycles,
        !run_checks(run, checks).reached,
    decreases checks.len(),
{
    if !run.finished {
        let rest = checks.drop_first();
        assert(!checks[0]);
        assert forall|i: int| 0 <= i < run.cycles - (run.iterations + 1) implies !#[trigger] rest[i]
        by {
            assert(!checks[i + 1]);
        }
        lemma_misses_run_out(run.checked(checks[0]), rest);
    }
}

/// A target that the tip never lands on: the solve of a chain of at least
/// three joints runs every iteration it may, and ends without convergence.
pub proof fn lemma_unreached_target_runs_every_cycle(len: nat, cycles: usize, checks: Seq<bool>)
    requires
        len >= 3,
        checks.len() >= cycles,
        forall|i: int| 0 <= i < cycles ==> !#[trigger] checks[i],
    ensures
        run_checks(FabrikRun::started(len, cycles), checks).finished,
        run_checks(FabrikRun::started(len, cycles), checks).iterations == cycles,
        !run_checks(FabrikRun::started(len, cycles), checks).reached,
{
    lemma_misses_run_out(FabrikRun::started(len, cycles), checks);
}

proof fn lemma_hit_ends_run(run: FabrikRun, checks: Seq<bool>, k: int)
    requires
        run.wf(),
        !run.finished,
        0 <= k < checks.len(),
        k < run.cycles - run.iterations,
        checks[k],
        forall|i: int| 0 <= i < k ==> !#[trigger] checks[i],
    ensures
        run_checks(run, checks).finished,
        run_checks(run, checks).reached,
        run_checks(run, checks).iterations == run.iterations + k + 1,
    decreases k,
{
    let rest = checks.drop_first();
    if k == 0 {
        assert(run_checks(run.checked(checks[0]), rest) == run.checked(checks[0]));
    } else {
        assert(!checks[0]);
        assert forall|i: int| 0 <= i < k - 1 implies !#[trigger] rest[i] by {
            assert(!checks[i + 1]);
        }
        lemma_hit_ends_run(run.checked(checks[0]), rest, k - 1);
    }
}

/// A solve of a chain of at least three joints stops at the first iteration
/// whose check finds the tip on the target, and reports convergence.
pub proof fn lemma_run_stops_at_first_hit(len: nat, cycles: usize, checks: Seq<bool>, k: int)
    requires
        len >= 3,
        0 <= k < cycles,
        k < checks.len(),
        checks[k],
        forall|i: int| 0 <= i < k ==> !#[trigger] checks[i],
    ensures
        run_checks(FabrikRun::started(len, cycles), checks).finished,
        run_checks(FabrikRun::started(len, cycles), checks).reached,
        run_checks(FabrikRun::started(len, cycles), checks).iterations == k + 1,
{
    lemma_hit_ends_run(FabrikRun::started(len, cycles), checks, k);
}

impl InverseKinematic {
    /// A chain over `nodes` that runs at most the default number of iterations.
    pub fn new(nodes: Vec<usize>) -> (r: Self)
        ensures
            r.nodes@ == nodes@,
            r.cycles == REACH_CYCLES,
    {
        InverseKinematic { nodes, cycles: REACH_CYCLES }
    }

    pub fn with_nodes(self, nodes: Vec<usize>) -> (r: Self)
        ensures
            r.nodes@ == self.nodes@ + nodes@,
            r.cycles == self.cycles,
    {
        let mut r = self;
        r.add_nodes(nodes);
        r
    }

    /// Appends joints at the tip end of the chain.
    pub fn add_nodes(&mut self, nodes: Vec<usize>)
        ensures
            final(self).nodes@ == old(self).nodes@ + nodes@,
            final(self).cycles == old(self).cycles,
    {
        let mut rest = nodes;
        self.nodes.append(&mut rest);
    }

    /// The root and the tip, when the chain is long enough to be solved.
    pub fn ends(&self) -> (r: Option<(usize, usize)>)
        ensures
            self.nodes@.len() < 3 ==> r.is_none(),
            self.nodes@.len() >= 3 ==> r == Some((self.nodes@[0], self.nodes@.last())),
    {
        let n = self.nodes.len();
        if n < 3 {
            None
        } else {
            Some((self.nodes[0], self.nodes[n - 1]))
        }
    }

    /// The steps of one reach iteration, in the order they are applied.
    pub fn iteration_steps(&self) -> (r: Vec<Step>)
        ensures
            r@ == iteration_steps(self.nodes@),
    {
        let mut r: Vec<Step> = Vec::new();
        let n = self.nodes.len();
        if n < 3 {
            return r;
        }
        let ghost nodes = self.nodes@;
        r.push(Step::SnapTip(self.nodes[n - 1]));
        let mut i: usize = n - 1;
        while i > 0
            invariant
                nodes == self.nodes@,
                n == nodes.len(),
                3 <= n,
                i <= n - 1,
                r@ =~= seq![Step::SnapTip(nodes.last())] + attach_steps(backward_links(nodes)).take(
                    n - 1 - i,
                ),
            decreases i,
        {
            r.push(Step::Attach(Link { child: self.nodes[i - 1], parent: self.nodes[i] }));
            i = i - 1;
        }
        assert(attach_steps(backward_links(nodes)).take(n - 1) =~= attach_steps(
            backward_links(nodes),
        ));
        r.push(Step::Repin(self.nodes[0]));
        let ghost head = r@;
        let mut j: usize = 1;
        while j < n
            invariant
                nodes == self.nodes@,
                n == nodes.len(),
                3 <= n,
                1 <= j <= n,
                head == seq![Step::SnapTip(nodes.last())] + attach_steps(backward_links(nodes))
                    + seq![Step::Repin(nodes[0])],
                r@ =~= head + attach_steps(forward_links(nodes)).take(j - 1),
            decreases n - j,
        {
            r.push(Step::Attach(Link { child: self.nodes[j], parent: self.nodes[j - 1] }));
            j = j + 1;
        }
        assert(attach_steps(forward_links(nodes)).take(n - 1) =~= attach_steps(
            forward_links(nodes),
        ));
        r
    }

    /// Starts a solve of this chain. The caller captures the root's position
    /// as the anchor, then, until the run is finished, applies the steps of
    /// one iteration and records whether the tip now sits exactly on the
    /// target.
    pub fn fabrik(&self) -> (r: FabrikRun)
        ensures
            r == FabrikRun::started(self.nodes@.len(), self.cycles),
            r.wf(),
    {
        FabrikRun {
            iterations: 0,
            cycles: self.cycles,
            finished: self.nodes.len() < 3 || self.cycles == 0,
            reached: false,
        }
    }
}

} // verus!
