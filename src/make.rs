//! Running a build: the decisions of `make`, one step at a time.
//!
//! A [`MakeRun`] walks the nodes of a graph in build order. For each node it asks
//! the caller to inspect the files (which dependencies exist, and their
//! modification times), then perhaps to run the node's build step, then perhaps
//! to check that the output now exists. The caller does the file system work and
//! reports each answer as an [`Event`]; the run answers with the next [`Action`].
//! The first failure ends the run.
//!
//! Staleness compares modification times only: an output is rebuilt when it is
//! missing or a dependency is strictly newer. Equal times count as up to date,
//! so a file system with a coarse clock can miss a change made within one tick.
use vstd::prelude::*;
use crate::digraph::lists_all_nodes;
use crate::error::Error;
use crate::graph::{deps_before, DepGraph};

verus! {

/// When running the build steps, either rebuild only what is out of date, or
/// run every step regardless.
#[derive(Debug, Clone, Copy, PartialEq, Eq, Structural)]
pub enum MakeParams {
    /// Rebuild a file only when it is missing or older than a dependency.
    Normal,
    /// Run every build step regardless of file times.
    ForceBuild,
}

/// What the caller is to do next.
#[derive(Debug)]
pub enum Action {
    /// Report on the files of this node: for each of its dependencies, in order,
    /// its modification time or `None` when it does not exist; and the same for
    /// the node's own file.
    Inspect(usize),
    /// Run this node's build step.
    Run(usize),
    /// Report whether this node's file exists.
    Verify(usize),
    /// The build is over, with this outcome.
    Finish(Result<(), Error>),
}

/// What the caller found out, in answer to an [`Action`].
#[derive(Debug)]
pub enum Event {
    /// Answers `Inspect`: the dependencies' modification times, in order, and
    /// the node's own; `None` for a file that does not exist.
    Inspected(Vec<Option<u128>>, Option<u128>),
    /// Answers `Run`: what the build step returned.
    Ran(Result<(), String>),
    /// Answers `Verify`: whether the node's file exists.
    Verified(bool),
}

/// Where a run stands.
#[derive(Debug, Clone, Copy, PartialEq, Eq, Structural)]
pub enum Phase {
    /// Waiting for `Inspected` on the current node.
    Inspecting,
    /// Waiting for `Ran` on the current node.
    Running,
    /// Waiting for `Verified` on the current node.
    Verifying,
    /// Over: no event is accepted.
    Done,
}

/// Whether `dts[k]` is the first file reported missing.
pub open spec fn is_first_missing(dts: Seq<Option<u128>>, k: int) -> bool {
    &&& 0 <= k < dts.len()
    &&& dts[k] is None
    &&& forall|j: int| 0 <= j < k ==> #[trigger] dts[j] is Some
}

/// Whether some file is reported missing.
pub open spec fn any_missing(dts: Seq<Option<u128>>) -> bool {
    exists|k: int| 0 <= k < dts.len() && #[trigger] dts[k] is None
}

/// Whether an output with modification time `output` (`None`: missing) is
/// stale against dependencies with times `deps`: it is missing, or some
/// dependency is strictly newer.
pub open spec fn stale(output: Option<u128>, deps: Seq<Option<u128>>) -> bool {
    match output {
        None => true,
        Some(t) => any_newer(deps, t),
    }
}

/// Whether some dependency time is strictly newer than `t`.
pub open spec fn any_newer(deps: Seq<Option<u128>>, t: u128) -> bool {
    exists|k: int| 0 <= k < deps.len() && #[trigger] newer(deps[k], t)
}

/// Whether a file with time `d` (`None`: missing) is strictly newer than `t`.
pub open spec fn newer(d: Option<u128>, t: u128) -> bool {
    match d {
        Some(x) => x > t,
        None => false,
    }
}

/// Whether the node's build step runs after inspection found every dependency.
pub open spec fn needs_build(force: bool, has_step: bool, output: Option<u128>, deps: Seq<Option<u128>>) -> bool {
    has_step && (force || stale(output, deps))
}

/// Whether `a` ends the build with `MissingFile` naming `p`.
pub open spec fn ends_missing(a: Action, p: Seq<char>) -> bool {
    a matches Action::Finish(Err(Error::MissingFile(q))) && q@ == p
}

/// Whether `a` ends the build with `BuildFailed` carrying `msg`.
pub open spec fn ends_failed(a: Action, msg: Seq<char>) -> bool {
    a matches Action::Finish(Err(Error::BuildFailed(q))) && q@ == msg
}

/// Checks whether any of the dependency times is newer than the output's, or
/// the output is missing.
pub fn dependencies_newer(output: Option<u128>, deps: &Vec<Option<u128>>) -> (r: bool)
    ensures
        r == stale(output, deps@),
{
    let t = match output {
        None => return true,
        Some(t) => t,
    };
    let mut k: usize = 0;
    while k < deps.len()
        invariant
            k <= deps.len(),
            output == Some(t),
            forall|j: int| 0 <= j < k ==> !#[trigger] newer(deps@[j], t),
        decreases deps.len() - k,
    {
        if let Some(d) = deps[k] {
            if d > t {
                assert(deps@[k as int] == Some(d));
                assert(0 <= k < deps@.len());
                assert(newer(deps@[k as int], t));
                assert(any_newer(deps@, t));
                return true;
            }
        }
        k = k + 1;
    }
    false
}

/// The position of the first `None`, if any.
fn first_missing(dts: &Vec<Option<u128>>) -> (r: Option<usize>)
    ensures
        r matches Some(k) ==> is_first_missing(dts@, k as int),
        r is None <==> !any_missing(dts@),
{
    let mut k: usize = 0;
    while k < dts.len()
        invariant
            k <= dts.len(),
            forall|j: int| 0 <= j < k ==> #[trigger] dts@[j] is Some,
        decreases dts.len() - k,
    {
        if dts[k].is_none() {
            return Some(k);
        }
        k = k + 1;
    }
    None
}

/// One run of the build over a graph.
pub struct MakeRun {
    order: Vec<usize>,
    pos: usize,
    force: bool,
    phase: Phase,
}

impl MakeRun {
    /// The nodes in the order they are handled.
    pub closed spec fn order(&self) -> Seq<usize> {
        self.order@
    }

    /// How many nodes of the order are done; the current node's position.
    pub closed spec fn pos(&self) -> int {
        self.pos as int
    }

    /// Whether every build step runs regardless of file times.
    pub closed spec fn forced(&self) -> bool {
        self.force
    }

    pub closed spec fn phase(&self) -> Phase {
        self.phase
    }

    /// The node being handled.
    pub open spec fn current(&self) -> usize {
        self.order()[self.pos()]
    }

    pub open spec fn is_done(&self) -> bool {
        self.phase() == Phase::Done
    }

    /// The run's invariant over the graph it runs on.
    pub open spec fn wf<F>(&self, g: DepGraph<F>) -> bool {
        &&& g.wf()
        &&& lists_all_nodes(self.order(), g.paths().len())
        &&& deps_before(self.order(), g)
        &&& 0 <= self.pos() <= self.order().len()
        &&& !self.is_done() ==> self.pos() < self.order().len()
    }

    /// Whether the run waits for `e`, and `e` is of the right shape.
    pub open spec fn accepts<F>(&self, g: DepGraph<F>, e: Event) -> bool {
        match self.phase() {
            Phase::Inspecting => e matches Event::Inspected(dts, _) && dts@.len() == g.node_deps(
                self.current() as int,
            ).len(),
            Phase::Running => e is Ran,
            Phase::Verifying => e is Verified,
            Phase::Done => false,
        }
    }

    /// Whether `next` and `a` move on from the current node of `prev`: to
    /// inspecting the next node, or to a successful end after the last one.
    pub open spec fn moved_on(prev: MakeRun, next: MakeRun, a: Action) -> bool {
        &&& next.pos() == prev.pos() + 1
        &&& if next.pos() == next.order().len() {
            a matches Action::Finish(Ok(())) && next.is_done()
        } else {
            a == Action::Inspect(next.current()) && next.phase() == Phase::Inspecting
        }
    }

    /// Whether `next` stopped on the current node of `prev`.
    pub open spec fn stopped(prev: MakeRun, next: MakeRun) -> bool {
        next.is_done() && next.pos() == prev.pos()
    }

    /// Starts a run over `g`: every node in build order, each after its
    /// dependencies.
    pub fn start<F>(g: &DepGraph<F>, params: MakeParams) -> (r: (MakeRun, Action))
        requires
            g.wf(),
        ensures
            r.0.wf(*g),
            r.0.forced() == (params == MakeParams::ForceBuild),
            r.0.pos() == 0,
            if g.paths().len() == 0 {
                r.1 matches Action::Finish(Ok(())) && r.0.is_done()
            } else {
                r.1 == Action::Inspect(r.0.current()) && r.0.phase() == Phase::Inspecting
            },
    {
        let order = match g.build_order() {
            Ok(order) => order,
            Err(e) => return (MakeRun { order: Vec::new(), pos: 0, force: false, phase: Phase::Done }, Action::Finish(Err(e))),
        };
        let force = match params {
            MakeParams::Normal => false,
            MakeParams::ForceBuild => true,
        };
        if order.len() == 0 {
            (MakeRun { order, pos: 0, force, phase: Phase::Done }, Action::Finish(Ok(())))
        } else {
            let first = order[0];
            (MakeRun { order, pos: 0, force, phase: Phase::Inspecting }, Action::Inspect(first))
        }
    }

    /// Moves on from the current node.
    fn move_on(&mut self) -> (a: Action)
        requires
            old(self).pos() < old(self).order().len(),
        ensures
            Self::moved_on(*old(self), *final(self), a),
            final(self).order() == old(self).order(),
            final(self).forced() == old(self).forced(),
    {
        assert(self.order@.len() == self.order.len());
        self.pos = self.pos + 1;
        if self.pos == self.order.len() {
            self.phase = Phase::Done;
            Action::Finish(Ok(()))
        } else {
            self.phase = Phase::Inspecting;
            Action::Inspect(self.order[self.pos])
        }
    }

    /// Takes the caller's answer for the current node and says what to do next.
    ///
    /// After inspection: a missing dependency ends the build with `MissingFile`
    /// naming the first one, before any step runs; otherwise the node's step
    /// runs when it has one and the build is forced or the output is stale; a
    /// node whose step does not run must already exist. A step that fails ends
    /// the build with `BuildFailed` and its message; after a step that succeeds,
    /// the output must exist. Once the build ends, no node is handled again.
    pub fn step<F>(&mut self, g: &DepGraph<F>, event: Event) -> (a: Action)
        requires
            old(self).wf(*g),
            old(self).accepts(*g, event),
        ensures
            final(self).wf(*g),
            final(self).order() == old(self).order(),
            final(self).forced() == old(self).forced(),
            a is Run ==> final(self).phase() == Phase::Running,
            a is Finish <==> final(self).is_done(),
            event matches Event::Inspected(dts, output) ==> ({
                let c = old(self).current() as int;
                if any_missing(dts@) {
                    &&& Self::stopped(*old(self), *final(self))
                    &&& exists|k: int| #[trigger] is_first_missing(dts@, k) && ends_missing(a, g.paths()[g.node_deps(c)[k] as int])
                } else if needs_build(old(self).forced(), g.has_step(c), output, dts@) {
                    a == Action::Run(c as usize) && final(self).pos() == old(self).pos()
                } else if output is None {
                    Self::stopped(*old(self), *final(self)) && ends_missing(a, g.paths()[c])
                } else {
                    Self::moved_on(*old(self), *final(self), a)
                }
            }),
            event matches Event::Ran(res) ==> (match res {
                Ok(()) => a == Action::Verify(old(self).current()) && final(self).pos() == old(self).pos()
                    && final(self).phase() == Phase::Verifying,
                Err(msg) => Self::stopped(*old(self), *final(self)) && ends_failed(a, msg@),
            }),
            event matches Event::Verified(exists) ==> (if exists {
                Self::moved_on(*old(self), *final(self), a)
            } else {
                Self::stopped(*old(self), *final(self)) && ends_missing(a, g.paths()[old(self).current() as int])
            }),
    {
        let c = self.order[self.pos];
        proof {
            g.lemma_bounds();
        }
        match event {
            Event::Inspected(dts, output) => {
                if let Some(k) = first_missing(&dts) {
                    let deps = g.dependencies(c);
                    let missing = g.path(deps[k]).clone();
                    self.phase = Phase::Done;
                    return Action::Finish(Err(Error::MissingFile(missing)));
                }
                let has_step = g.build_fn(c).is_some();
                if has_step && (self.force || dependencies_newer(output, &dts)) {
                    self.phase = Phase::Running;
                    Action::Run(c)
                } else if output.is_none() {
                    self.phase = Phase::Done;
                    Action::Finish(Err(Error::MissingFile(g.path(c).clone())))
                } else {
                    self.move_on()
                }
            },
            Event::Ran(res) => match res {
                Ok(()) => {
                    self.phase = Phase::Verifying;
                    Action::Verify(c)
                },
                Err(msg) => {
                    self.phase = Phase::Done;
                    Action::Finish(Err(Error::BuildFailed(msg)))
                },
            },
            Event::Verified(exists) => {
                if exists {
                    self.move_on()
                } else {
                    self.phase = Phase::Done;
                    Action::Finish(Err(Error::MissingFile(g.path(c).clone())))
                }
            },
        }
    }
}

} // verus!
