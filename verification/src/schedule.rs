//! The schedule: named stages, each an ordered list of systems.
//!
//! Stages run in order. Within a stage every system first runs against
//! the shared world — so no system observes another's pending commands —
//! and then the `NextFlush` systems flush in the order they stand in the
//! stage. An `Immediate` system flushes right after its own run instead.
//! Stage names and system names are unique across the schedule.

use vstd::prelude::*;

use crate::resources::Resources;
use crate::system::{System, ThreadLocalExecution};
use crate::world::World;

verus! {

/// One system's run-phase step: a run-relation step of the system, and
/// — for an `Immediate` system — its thread-local step right after,
/// which may change the world and the resources. A `NextFlush` system
/// leaves both untouched here.
pub open spec fn run_step<S: System>(
    pre: S,
    w0: World,
    r0: Resources,
    post: S,
    w1: World,
    r1: Resources,
) -> bool {
    exists|mid: S|
        #[trigger] pre.run_rel(w0, r0, mid) && if pre.policy_s()
            == ThreadLocalExecution::Immediate {
            mid.flush_rel(w0, r0, post, w1, r1)
        } else {
            post == mid && w1 == w0 && r1 == r0
        }
}

/// One system's flush-phase step: a `NextFlush` system takes its
/// thread-local step; an `Immediate` system already flushed and is
/// untouched.
pub open spec fn flush_step<S: System>(
    pre: S,
    w0: World,
    r0: Resources,
    post: S,
    w1: World,
    r1: Resources,
) -> bool {
    if pre.policy_s() == ThreadLocalExecution::NextFlush {
        pre.flush_rel(w0, r0, post, w1, r1)
    } else {
        post == pre && w1 == w0 && r1 == r0
    }
}

/// A stage's run phase: every system steps once, front to back.
pub open spec fn run_phase<S: System>(
    pre: Seq<S>,
    w0: World,
    r0: Resources,
    post: Seq<S>,
    w1: World,
    r1: Resources,
) -> bool
    decreases pre.len(),
{
    if pre.len() == 0 {
        post.len() == 0 && w1 == w0 && r1 == r0
    } else {
        post.len() == pre.len() && exists|wm: World, rm: Resources|
            #[trigger] run_step(pre[0], w0, r0, post[0], wm, rm) && run_phase(
                pre.skip(1),
                wm,
                rm,
                post.skip(1),
                w1,
                r1,
            )
    }
}

/// A stage's flush phase: every system steps once, front to back; only
/// the `NextFlush` ones do anything.
pub open spec fn flush_phase<S: System>(
    pre: Seq<S>,
    w0: World,
    r0: Resources,
    post: Seq<S>,
    w1: World,
    r1: Resources,
) -> bool
    decreases pre.len(),
{
    if pre.len() == 0 {
        post.len() == 0 && w1 == w0 && r1 == r0
    } else {
        post.len() == pre.len() && exists|wm: World, rm: Resources|
            #[trigger] flush_step(pre[0], w0, r0, post[0], wm, rm) && flush_phase(
                pre.skip(1),
                wm,
                rm,
                post.skip(1),
                w1,
                r1,
            )
    }
}

/// The stages execute strictly in order: each takes its whole run phase
/// and then its whole flush phase before the next stage begins — so a
/// `NextFlush` system's mutations become visible exactly at its stage's
/// flush, never during any run phase.
pub open spec fn stages_exec<S: System>(
    pre: Seq<Vec<S>>,
    w0: World,
    r0: Resources,
    post: Seq<Vec<S>>,
    w1: World,
    r1: Resources,
) -> bool
    decreases pre.len(),
{
    if pre.len() == 0 {
        post.len() == 0 && w1 == w0 && r1 == r0
    } else {
        post.len() == pre.len() && exists|mid: Seq<S>, wa: World, ra: Resources, wb: World, rb: Resources|
            {
                &&& #[trigger] run_phase(pre[0]@, w0, r0, mid, wa, ra)
                &&& #[trigger] flush_phase(mid, wa, ra, post[0]@, wb, rb)
                &&& stages_exec(pre.skip(1), wb, rb, post.skip(1), w1, r1)
            }
    }
}

/// A run phase extends on the right by one more system's step.
pub proof fn lemma_run_phase_snoc<S: System>(
    pre: Seq<S>,
    w0: World,
    r0: Resources,
    post: Seq<S>,
    w1: World,
    r1: Resources,
    s_pre: S,
    s_post: S,
    w2: World,
    r2: Resources,
)
    requires
        run_phase(pre, w0, r0, post, w1, r1),
        run_step(s_pre, w1, r1, s_post, w2, r2),
    ensures
        run_phase(pre.push(s_pre), w0, r0, post.push(s_post), w2, r2),
    decreases pre.len(),
{
    if pre.len() == 0 {
        assert(pre.push(s_pre)[0] == s_pre);
        assert(pre.push(s_pre).skip(1) =~= Seq::<S>::empty());
        assert(post.push(s_post).skip(1) =~= Seq::<S>::empty());
        assert(run_phase(pre.push(s_pre).skip(1), w2, r2, post.push(s_post).skip(1), w2, r2));
        assert(run_step(pre.push(s_pre)[0], w0, r0, post.push(s_post)[0], w2, r2));
    } else {
        let (wm, rm) = choose|wm: World, rm: Resources|
            #[trigger] run_step(pre[0], w0, r0, post[0], wm, rm) && run_phase(
                pre.skip(1),
                wm,
                rm,
                post.skip(1),
                w1,
                r1,
            );
        lemma_run_phase_snoc(pre.skip(1), wm, rm, post.skip(1), w1, r1, s_pre, s_post, w2, r2);
        assert(pre.push(s_pre)[0] == pre[0]);
        assert(post.push(s_post)[0] == post[0]);
        assert(pre.push(s_pre).skip(1) =~= pre.skip(1).push(s_pre));
        assert(post.push(s_post).skip(1) =~= post.skip(1).push(s_post));
        assert(run_step(pre.push(s_pre)[0], w0, r0, post.push(s_post)[0], wm, rm));
        assert(run_phase(pre.push(s_pre).skip(1), wm, rm, post.push(s_post).skip(1), w2, r2));
    }
}

/// A flush phase extends on the right by one more system's step.
pub proof fn lemma_flush_phase_snoc<S: System>(
    pre: Seq<S>,
    w0: World,
    r0: Resources,
    post: Seq<S>,
    w1: World,
    r1: Resources,
    s_pre: S,
    s_post: S,
    w2: World,
    r2: Resources,
)
    requires
        flush_phase(pre, w0, r0, post, w1, r1),
        flush_step(s_pre, w1, r1, s_post, w2, r2),
    ensures
        flush_phase(pre.push(s_pre), w0, r0, post.push(s_post), w2, r2),
    decreases pre.len(),
{
    if pre.len() == 0 {
        assert(pre.push(s_pre)[0] == s_pre);
        assert(pre.push(s_pre).skip(1) =~= Seq::<S>::empty());
        assert(post.push(s_post).skip(1) =~= Seq::<S>::empty());
        assert(flush_phase(pre.push(s_pre).skip(1), w2, r2, post.push(s_post).skip(1), w2, r2));
        assert(flush_step(pre.push(s_pre)[0], w0, r0, post.push(s_post)[0], w2, r2));
    } else {
        let (wm, rm) = choose|wm: World, rm: Resources|
            #[trigger] flush_step(pre[0], w0, r0, post[0], wm, rm) && flush_phase(
                pre.skip(1),
                wm,
                rm,
                post.skip(1),
                w1,
                r1,
            );
        lemma_flush_phase_snoc(pre.skip(1), wm, rm, post.skip(1), w1, r1, s_pre, s_post, w2, r2);
        assert(pre.push(s_pre)[0] == pre[0]);
        assert(post.push(s_post)[0] == post[0]);
        assert(pre.push(s_pre).skip(1) =~= pre.skip(1).push(s_pre));
        assert(post.push(s_post).skip(1) =~= post.skip(1).push(s_post));
        assert(flush_step(pre.push(s_pre)[0], w0, r0, post.push(s_post)[0], wm, rm));
        assert(flush_phase(pre.push(s_pre).skip(1), wm, rm, post.push(s_post).skip(1), w2, r2));
    }
}

/// A stage list extends on the right by one more fully executed stage.
pub proof fn lemma_stages_exec_snoc<S: System>(
    pre: Seq<Vec<S>>,
    w0: World,
    r0: Resources,
    post: Seq<Vec<S>>,
    w1: World,
    r1: Resources,
    st_pre: Vec<S>,
    st_post: Vec<S>,
    mid: Seq<S>,
    wa: World,
    ra: Resources,
    w2: World,
    r2: Resources,
)
    requires
        stages_exec(pre, w0, r0, post, w1, r1),
        run_phase(st_pre@, w1, r1, mid, wa, ra),
        flush_phase(mid, wa, ra, st_post@, w2, r2),
    ensures
        stages_exec(pre.push(st_pre), w0, r0, post.push(st_post), w2, r2),
    decreases pre.len(),
{
    if pre.len() == 0 {
        assert(pre.push(st_pre)[0] == st_pre);
        assert(pre.push(st_pre).skip(1) =~= Seq::<Vec<S>>::empty());
        assert(post.push(st_post).skip(1) =~= Seq::<Vec<S>>::empty());
        assert(stages_exec(pre.push(st_pre).skip(1), w2, r2, post.push(st_post).skip(1), w2, r2));
        assert(run_phase(pre.push(st_pre)[0]@, w0, r0, mid, wa, ra));
        assert(flush_phase(mid, wa, ra, post.push(st_post)[0]@, w2, r2));
    } else {
        let (m0, wa0, ra0, wb0, rb0) = choose|
            m0: Seq<S>,
            wa0: World,
            ra0: Resources,
            wb0: World,
            rb0: Resources,
        |
            {
                &&& #[trigger] run_phase(pre[0]@, w0, r0, m0, wa0, ra0)
                &&& #[trigger] flush_phase(m0, wa0, ra0, post[0]@, wb0, rb0)
                &&& stages_exec(pre.skip(1), wb0, rb0, post.skip(1), w1, r1)
            };
        lemma_stages_exec_snoc(
            pre.skip(1),
            wb0,
            rb0,
            post.skip(1),
            w1,
            r1,
            st_pre,
            st_post,
            mid,
            wa,
            ra,
            w2,
            r2,
        );
        assert(pre.push(st_pre)[0] == pre[0]);
        assert(post.push(st_post)[0] == post[0]);
        assert(pre.push(st_pre).skip(1) =~= pre.skip(1).push(st_pre));
        assert(post.push(st_post).skip(1) =~= post.skip(1).push(st_post));
        assert(run_phase(pre.push(st_pre)[0]@, w0, r0, m0, wa0, ra0));
        assert(flush_phase(m0, wa0, ra0, post.push(st_post)[0]@, wb0, rb0));
        assert(stages_exec(pre.push(st_pre).skip(1), wb0, rb0, post.push(st_post).skip(1), w2, r2));
    }
}

pub struct Schedule<S> {
    pub stage_order: Vec<String>,
    pub stages: Vec<Vec<S>>,
    pub system_names: Vec<String>,
}

impl<S: System> Schedule<S> {
    /// A stage of this name exists.
    pub open spec fn has_stage(self, name: Seq<char>) -> bool {
        exists|i: int| 0 <= i < self.stage_order@.len() && (#[trigger] self.stage_order@[i])@ == name
    }

    /// The position of the stage with this name.
    pub open spec fn stage_index_of(self, name: Seq<char>) -> int {
        choose|i: int| 0 <= i < self.stage_order@.len() && (#[trigger] self.stage_order@[i])@ == name
    }

    /// A system of this name was added somewhere in the schedule.
    pub open spec fn has_system_name(self, name: Seq<char>) -> bool {
        exists|i: int|
            0 <= i < self.system_names@.len() && (#[trigger] self.system_names@[i])@ == name
    }

    /// Stage lists and names line up, names are unique, and every held
    /// system keeps its own invariant.
    pub open spec fn well_formed(self) -> bool {
        &&& self.stages@.len() == self.stage_order@.len()
        &&& forall|i: int, j: int|
            0 <= i < j < self.stage_order@.len() ==> (#[trigger] self.stage_order@[i])@ != (
            #[trigger] self.stage_order@[j])@
        &&& forall|si: int, k: int|
            0 <= si < self.stages@.len() && 0 <= k < self.stages@[si]@.len() ==> (
            #[trigger] self.stages@[si]@[k]).inv()
        &&& forall|si: int, k: int|
            0 <= si < self.stages@.len() && 0 <= k < self.stages@[si]@.len()
                ==> self.has_system_name((#[trigger] self.stages@[si]@[k]).name_s())
        &&& forall|si: int, k: int, sj: int, m: int|
            0 <= si < self.stages@.len() && 0 <= k < self.stages@[si]@.len() && 0 <= sj
                < self.stages@.len() && 0 <= m < self.stages@[sj]@.len() && (si != sj || k != m)
                ==> (#[trigger] self.stages@[si]@[k]).name_s() != (
            #[trigger] self.stages@[sj]@[m]).name_s()
    }

    pub fn new() -> (r: Schedule<S>)
        ensures
            r.well_formed(),
            r.stage_order@.len() == 0,
            r.system_names@.len() == 0,
    {
        Schedule { stage_order: Vec::new(), stages: Vec::new(), system_names: Vec::new() }
    }

    /// Find a stage's position by name.
    fn find_stage(&self, name: &String) -> (r: Option<usize>)
        ensures
            match r {
                Some(i) => i < self.stage_order@.len() && self.stage_order@[i as int]@ == name@,
                None => !self.has_stage(name@),
            },
    {
        let mut i: usize = 0;
        let n = self.stage_order.len();
        while i < n
            invariant
                n == self.stage_order@.len(),
                forall|j: int| 0 <= j < i ==> (#[trigger] self.stage_order@[j])@ != name@,
            decreases n - i,
        {
            if self.stage_order[i].eq(name) {
                return Some(i);
            }
            i += 1;
        }
        None
    }

    /// Whether a system of this name was added already.
    pub fn knows_system(&self, name: &String) -> (r: bool)
        ensures
            r == self.has_system_name(name@),
    {
        let mut i: usize = 0;
        let n = self.system_names.len();
        while i < n
            invariant
                n == self.system_names@.len(),
                forall|j: int| 0 <= j < i ==> (#[trigger] self.system_names@[j])@ != name@,
            decreases n - i,
        {
            if self.system_names[i].eq(name) {
                return true;
            }
            i += 1;
        }
        false
    }

    /// Append a new, empty stage. Adding a stage that exists is a
    /// program bug, excluded by the precondition.
    pub fn add_stage(&mut self, stage: String)
        requires
            old(self).well_formed(),
            !old(self).has_stage(stage@),
        ensures
            final(self).well_formed(),
            final(self).stage_order@ == old(self).stage_order@.push(stage),
            final(self).stages@.len() == old(self).stages@.len() + 1,
            forall|i: int|
                0 <= i < old(self).stages@.len() ==> final(self).stages@[i] == old(self).stages@[i],
            final(self).stages@.last()@.len() == 0,
            final(self).system_names@ == old(self).system_names@,
    {
        let ghost at = self.stage_order@.len() as int;
        self.stage_order.push(stage);
        self.stages.push(Vec::new());
        proof {
            assert(self.stage_order@ =~= old(self).stage_order@.insert(at, stage));
            assert(self.stages@ =~= old(self).stages@.insert(at, self.stages@[at]));
            lemma_insert_stage_wf(*old(self), *self, at, stage);
        }
    }

    /// Insert a new, empty stage right after `target`. The target must
    /// exist and the new name must be fresh, else it is a program bug,
    /// excluded by the preconditions.
    pub fn add_stage_after(&mut self, target: String, stage: String)
        requires
            old(self).well_formed(),
            old(self).has_stage(target@),
            !old(self).has_stage(stage@),
        ensures
            final(self).well_formed(),
            final(self).stage_order@ == old(self).stage_order@.insert(
                old(self).stage_index_of(target@) + 1,
                stage,
            ),
            final(self).stages@.len() == old(self).stages@.len() + 1,
            forall|i: int|
                0 <= i <= old(self).stage_index_of(target@) ==> final(self).stages@[i] == old(self).stages@[i],
            final(self).stages@[old(self).stage_index_of(target@) + 1]@.len() == 0,
            forall|i: int|
                old(self).stage_index_of(target@) + 1 < i < final(self).stages@.len() ==> final(self).stages@[i] == old(self).stages@[i - 1],
            final(self).system_names@ == old(self).system_names@,
    {
        let ti = match self.find_stage(&target) {
            Some(i) => i,
            None => {
                proof {
                    assert(false);
                }
                0
            },
        };
        proof {
            lemma_stage_index(*old(self), target@, ti as int);
        }
        let n = self.stage_order.len();
        proof {
            assert(ti < n);
        }
        self.stage_order.insert(ti + 1, stage);
        self.stages.insert(ti + 1, Vec::new());
        proof {
            lemma_insert_stage_wf(*old(self), *self, ti + 1, stage);
        }
    }

    /// Insert a new, empty stage right before `target`; otherwise as
    /// `add_stage_after`.
    pub fn add_stage_before(&mut self, target: String, stage: String)
        requires
            old(self).well_formed(),
            old(self).has_stage(target@),
            !old(self).has_stage(stage@),
        ensures
            final(self).well_formed(),
            final(self).stage_order@ == old(self).stage_order@.insert(
                old(self).stage_index_of(target@),
                stage,
            ),
            final(self).stages@.len() == old(self).stages@.len() + 1,
            forall|i: int|
                0 <= i < old(self).stage_index_of(target@) ==> final(self).stages@[i] == old(self).stages@[i],
            final(self).stages@[old(self).stage_index_of(target@)]@.len() == 0,
            forall|i: int|
                old(self).stage_index_of(target@) < i < final(self).stages@.len() ==> final(self).stages@[i] == old(self).stages@[i - 1],
            final(self).system_names@ == old(self).system_names@,
    {
        let ti = match self.find_stage(&target) {
            Some(i) => i,
            None => {
                proof {
                    assert(false);
                }
                0
            },
        };
        proof {
            lemma_stage_index(*old(self), target@, ti as int);
        }
        self.stage_order.insert(ti, stage);
        self.stages.insert(ti, Vec::new());
        proof {
            lemma_insert_stage_wf(*old(self), *self, ti as int, stage);
        }
    }

    /// Append a system to a stage's list. A missing stage or a reused
    /// system name is a program bug, excluded by the preconditions.
    pub fn add_system_to_stage(&mut self, stage_name: String, system: S)
        requires
            old(self).well_formed(),
            old(self).has_stage(stage_name@),
            !old(self).has_system_name(system.name_s()),
            system.inv(),
        ensures
            final(self).well_formed(),
            final(self).stage_order@ == old(self).stage_order@,
            final(self).stages@.len() == old(self).stages@.len(),
            final(self).stages@[old(self).stage_index_of(stage_name@)]@ == old(self).stages@[old(self).stage_index_of(stage_name@)]@.push(system),
            forall|i: int|
                0 <= i < old(self).stages@.len() && i != old(self).stage_index_of(stage_name@)
                    ==> final(self).stages@[i] == old(self).stages@[i],
            final(self).has_system_name(system.name_s()),
    {
        let ti = match self.find_stage(&stage_name) {
            Some(i) => i,
            None => {
                proof {
                    assert(false);
                }
                0
            },
        };
        proof {
            lemma_stage_index(*old(self), stage_name@, ti as int);
        }
        let registered = system.name().to_owned();
        proof {
            assert(registered@ == system.name_s());
        }
        self.system_names.push(registered);
        proof {
            assert(self.system_names@[self.system_names@.len() - 1]@ == system.name_s());
        }
        self.stages[ti].push(system);
        proof {
            let s1 = *self;
            assert(s1.system_names@[s1.system_names@.len() - 1]@ == system.name_s());
            assert(s1.stages@[ti as int]@ == old(self).stages@[ti as int]@.push(system));
            assert forall|si: int, k: int|
                0 <= si < s1.stages@.len() && 0 <= k < s1.stages@[si]@.len() implies (
            #[trigger] s1.stages@[si]@[k]).inv() && s1.has_system_name(s1.stages@[si]@[k].name_s())
                by {
                if si == ti as int && k == s1.stages@[si]@.len() - 1 {
                    assert(s1.system_names@.last()@ == system.name_s());
                } else {
                    assert(s1.stages@[si]@[k] == old(self).stages@[si]@[k]);
                    let j = choose|j: int|
                        0 <= j < old(self).system_names@.len() && (
                        #[trigger] old(self).system_names@[j])@ == old(self).stages@[si]@[
                            k
                        ].name_s();
                    assert(s1.system_names@[j]@ == s1.stages@[si]@[k].name_s());
                }
            }
            assert forall|si: int, k: int, sj: int, m: int|
                0 <= si < s1.stages@.len() && 0 <= k < s1.stages@[si]@.len() && 0 <= sj
                    < s1.stages@.len() && 0 <= m < s1.stages@[sj]@.len() && (si != sj || k != m)
                implies (#[trigger] s1.stages@[si]@[k]).name_s() != (
            #[trigger] s1.stages@[sj]@[m]).name_s() by {
                if si == ti as int && k == s1.stages@[si]@.len() - 1 {
                    assert(old(self).has_system_name(s1.stages@[sj]@[m].name_s()));
                } else if sj == ti as int && m == s1.stages@[sj]@.len() - 1 {
                    assert(old(self).has_system_name(s1.stages@[si]@[k].name_s()));
                }
            }
        }
    }

    /// Run every stage in order. Within a stage, first every system's
    /// run body sees the world read-only (an `Immediate` system flushes
    /// right afterwards); then the `NextFlush` systems flush in the
    /// order they stand in the stage. The whole execution is one
    /// `stages_exec` trace: stages strictly in order, run phase before
    /// flush phase, flushes in stage order.
    pub fn run(&mut self, world: &mut World, resources: &mut Resources)
        requires
            old(self).well_formed(),
            old(world).well_formed(),
            old(resources).well_formed(),
        ensures
            final(self).well_formed(),
            final(world).well_formed(),
            final(resources).well_formed(),
            final(self).stage_order@ == old(self).stage_order@,
            final(self).system_names@ == old(self).system_names@,
            final(self).stages@.len() == old(self).stages@.len(),
            forall|si: int|
                0 <= si < old(self).stages@.len() ==> final(self).stages@[si]@.len() == old(self).stages@[si]@.len(),
            final(self).schedule_frame(*old(self)),
            stages_exec(
                old(self).stages@,
                *old(world),
                *old(resources),
                final(self).stages@,
                *final(world),
                *final(resources),
            ),
    {
        let ghost stages0 = self.stages@;
        let ghost w0 = *old(world);
        let ghost r0 = *old(resources);
        let ns = self.stage_order.len();
        let mut si: usize = 0;
        while si < ns
            invariant
                ns == self.stage_order@.len(),
                si <= ns,
                self.schedule_frame(*old(self)),
                world.well_formed(),
                resources.well_formed(),
                stages0 == old(self).stages@,
                ns == stages0.len(),
                forall|j: int| si <= j < ns ==> self.stages@[j] == stages0[j],
                stages_exec(
                    stages0.subrange(0, si as int),
                    w0,
                    r0,
                    self.stages@.subrange(0, si as int),
                    *world,
                    *resources,
                ),
            decreases ns - si,
        {
            let ghost stage_entry = self.stages@;
            let ghost st_pre = stages0[si as int];
            let ghost w_s0 = *world;
            let ghost r_s0 = *resources;
            let n_sys = self.stages[si].len();
            let mut k: usize = 0;
            while k < n_sys
                invariant
                    si < self.stages@.len(),
                    n_sys == self.stages@[si as int]@.len(),
                    k <= n_sys,
                    self.schedule_frame(*old(self)),
                    world.well_formed(),
                    resources.well_formed(),
                    st_pre@.len() == n_sys,
                    forall|j: int| 0 <= j < self.stages@.len() && j != si ==> self.stages@[j]
                        == stage_entry[j],
                    self.stages@.len() == stage_entry.len(),
                    forall|j: int|
                        k <= j < n_sys ==> self.stages@[si as int]@[j] == st_pre@[j],
                    run_phase(
                        st_pre@.subrange(0, k as int),
                        w_s0,
                        r_s0,
                        self.stages@[si as int]@.subrange(0, k as int),
                        *world,
                        *resources,
                    ),
                decreases n_sys - k,
            {
                let ghost w_before = *world;
                let ghost r_before = *resources;
                let ghost s_before = self.stages@[si as int]@[k as int];
                let ghost done_pre = self.stages@[si as int]@.subrange(0, k as int);
                let policy = self.stages[si][k].thread_local_execution();
                self.stages[si][k].run(world, resources);
                let ghost s_ran = self.stages@[si as int]@[k as int];
                match policy {
                    ThreadLocalExecution::Immediate => {
                        self.stages[si][k].run_thread_local(world, resources);
                    },
                    ThreadLocalExecution::NextFlush => {},
                }
                proof {
                    let s_after = self.stages@[si as int]@[k as int];
                    assert(run_step(s_before, w_before, r_before, s_after, *world, *resources))
                        by {
                        assert(s_before.run_rel(w_before, r_before, s_ran));
                    }
                    lemma_run_phase_snoc(
                        st_pre@.subrange(0, k as int),
                        w_s0,
                        r_s0,
                        done_pre,
                        w_before,
                        r_before,
                        s_before,
                        s_after,
                        *world,
                        *resources,
                    );
                    assert(st_pre@.subrange(0, k as int).push(st_pre@[k as int]) =~= st_pre@.subrange(
                        0,
                        k + 1,
                    ));
                    assert(done_pre.push(s_after) =~= self.stages@[si as int]@.subrange(
                        0,
                        k + 1,
                    ));
                }
                k += 1;
            }
            let ghost st_mid = self.stages@[si as int]@;
            let ghost w_m = *world;
            let ghost r_m = *resources;
            proof {
                assert(st_pre@.subrange(0, n_sys as int) =~= st_pre@);
                assert(st_mid.subrange(0, n_sys as int) =~= st_mid);
                assert(run_phase(st_pre@, w_s0, r_s0, st_mid, w_m, r_m));
            }
            let mut k2: usize = 0;
            while k2 < n_sys
                invariant
                    si < self.stages@.len(),
                    n_sys == self.stages@[si as int]@.len(),
                    k2 <= n_sys,
                    self.schedule_frame(*old(self)),
                    world.well_formed(),
                    resources.well_formed(),
                    st_mid.len() == n_sys,
                    forall|j: int| 0 <= j < self.stages@.len() && j != si ==> self.stages@[j]
                        == stage_entry[j],
                    self.stages@.len() == stage_entry.len(),
                    forall|j: int|
                        k2 <= j < n_sys ==> self.stages@[si as int]@[j] == st_mid[j],
                    flush_phase(
                        st_mid.subrange(0, k2 as int),
                        w_m,
                        r_m,
                        self.stages@[si as int]@.subrange(0, k2 as int),
                        *world,
                        *resources,
                    ),
                decreases n_sys - k2,
            {
                let ghost w_before = *world;
                let ghost r_before = *resources;
                let ghost s_before = self.stages@[si as int]@[k2 as int];
                let ghost done_pre = self.stages@[si as int]@.subrange(0, k2 as int);
                let policy = self.stages[si][k2].thread_local_execution();
                match policy {
                    ThreadLocalExecution::NextFlush => {
                        self.stages[si][k2].run_thread_local(world, resources);
                    },
                    ThreadLocalExecution::Immediate => {},
                }
                proof {
                    let s_after = self.stages@[si as int]@[k2 as int];
                    assert(flush_step(s_before, w_before, r_before, s_after, *world, *resources));
                    lemma_flush_phase_snoc(
                        st_mid.subrange(0, k2 as int),
                        w_m,
                        r_m,
                        done_pre,
                        w_before,
                        r_before,
                        s_before,
                        s_after,
                        *world,
                        *resources,
                    );
                    assert(st_mid.subrange(0, k2 as int).push(st_mid[k2 as int]) =~= st_mid.subrange(
                        0,
                        k2 + 1,
                    ));
                    assert(done_pre.push(s_after) =~= self.stages@[si as int]@.subrange(
                        0,
                        k2 + 1,
                    ));
                }
                k2 += 1;
            }
            proof {
                let st_post = self.stages@[si as int];
                assert(st_mid.subrange(0, n_sys as int) =~= st_mid);
                assert(st_post@.subrange(0, n_sys as int) =~= st_post@);
                assert(flush_phase(st_mid, w_m, r_m, st_post@, *world, *resources));
                assert(stages0.subrange(0, si as int).push(stages0[si as int]) =~= stages0.subrange(
                    0,
                    si + 1,
                ));
                assert(stage_entry.subrange(0, si as int).push(st_post) =~= self.stages@.subrange(
                    0,
                    si + 1,
                )) by {
                    assert(forall|j: int|
                        0 <= j < si ==> self.stages@[j] == stage_entry[j]);
                }
                assert(stages_exec(
                    stages0.subrange(0, si as int),
                    w0,
                    r0,
                    stage_entry.subrange(0, si as int),
                    w_s0,
                    r_s0,
                ));
                lemma_stages_exec_snoc(
                    stages0.subrange(0, si as int),
                    w0,
                    r0,
                    stage_entry.subrange(0, si as int),
                    w_s0,
                    r_s0,
                    stages0[si as int],
                    st_post,
                    st_mid,
                    w_m,
                    r_m,
                    *world,
                    *resources,
                );
            }
            si += 1;
        }
        proof {
            assert(stages0.subrange(0, ns as int) =~= stages0);
            assert(self.stages@.subrange(0, ns as int) =~= self.stages@);
        }
    }

    /// Running systems leaves the schedule's structure alone: same
    /// stages, same names, same system invariants.
    pub open spec fn schedule_frame(self, before: Schedule<S>) -> bool {
        &&& before.well_formed()
        &&& self.stage_order@ == before.stage_order@
        &&& self.system_names@ == before.system_names@
        &&& self.stages@.len() == before.stages@.len()
        &&& forall|si: int|
            0 <= si < before.stages@.len() ==> (#[trigger] self.stages@[si])@.len()
                == before.stages@[si]@.len()
        &&& forall|si: int, k: int|
            0 <= si < before.stages@.len() && 0 <= k < before.stages@[si]@.len() ==> {
                &&& (#[trigger] self.stages@[si]@[k]).inv()
                &&& self.stages@[si]@[k].name_s() == before.stages@[si]@[k].name_s()
                &&& self.stages@[si]@[k].policy_s() == before.stages@[si]@[k].policy_s()
            }
    }
}

/// Inserting a fresh, empty stage keeps a schedule well formed.
proof fn lemma_insert_stage_wf<S: System>(
    before: Schedule<S>,
    after: Schedule<S>,
    at: int,
    stage: String,
)
    requires
        before.well_formed(),
        !before.has_stage(stage@),
        0 <= at <= before.stage_order@.len(),
        after.stage_order@ == before.stage_order@.insert(at, stage),
        after.stages@ == before.stages@.insert(at, after.stages@[at]),
        after.stages@[at]@.len() == 0,
        after.system_names@ == before.system_names@,
    ensures
        after.well_formed(),
{
    assert forall|i: int| 0 <= i < before.stage_order@.len() implies (
    #[trigger] before.stage_order@[i])@ != stage@ by {
        if before.stage_order@[i]@ == stage@ {
            assert(before.has_stage(stage@));
        }
    }
    lemma_insert_keeps_distinct(before.stage_order@, after.stage_order@, at);
    assert forall|si: int, k: int|
        0 <= si < after.stages@.len() && 0 <= k < after.stages@[si]@.len() implies (
    #[trigger] after.stages@[si]@[k]).inv() && after.has_system_name(
        after.stages@[si]@[k].name_s(),
    ) by {
        if si < at {
            assert(after.stages@[si] == before.stages@[si]);
        } else if si > at {
            assert(after.stages@[si] == before.stages@[si - 1]);
        }
        let sys = after.stages@[si]@[k];
        assert(before.has_system_name(sys.name_s()));
        let j = choose|j: int|
            0 <= j < before.system_names@.len() && (#[trigger] before.system_names@[j])@
                == sys.name_s();
        assert(after.system_names@[j]@ == sys.name_s());
    }
    assert forall|si: int, k: int, sj: int, m: int|
        0 <= si < after.stages@.len() && 0 <= k < after.stages@[si]@.len() && 0 <= sj
            < after.stages@.len() && 0 <= m < after.stages@[sj]@.len() && (si != sj || k != m)
        implies (#[trigger] after.stages@[si]@[k]).name_s() != (
    #[trigger] after.stages@[sj]@[m]).name_s() by {
        let oi: int = if si < at { si } else { si - 1 };
        let oj: int = if sj < at { sj } else { sj - 1 };
        if si < at {
            assert(after.stages@[si] == before.stages@[si]);
        } else if si > at {
            assert(after.stages@[si] == before.stages@[si - 1]);
        }
        if sj < at {
            assert(after.stages@[sj] == before.stages@[sj]);
        } else if sj > at {
            assert(after.stages@[sj] == before.stages@[sj - 1]);
        }
        assert(si != at && sj != at);
        assert(after.stages@[si]@[k] == before.stages@[oi]@[k]);
        assert(after.stages@[sj]@[m] == before.stages@[oj]@[m]);
        assert(oi != oj || k != m);
    }
}

/// In a schedule with distinct stage names, the position of a name is
/// the one where a scan finds it.
proof fn lemma_stage_index<S: System>(s: Schedule<S>, name: Seq<char>, i: int)
    requires
        s.well_formed(),
        0 <= i < s.stage_order@.len(),
        s.stage_order@[i]@ == name,
    ensures
        s.stage_index_of(name) == i,
        s.has_stage(name),
{
    let j = s.stage_index_of(name);
    if j != i {
        assert(s.stage_order@[i]@ != s.stage_order@[j]@);
    }
}

/// Inserting a fresh name keeps the name list distinct.
proof fn lemma_insert_keeps_distinct(before: Seq<String>, after: Seq<String>, at: int)
    requires
        forall|i: int, j: int| 0 <= i < j < before.len() ==> (#[trigger] before[i])@ != (
        #[trigger] before[j])@,
        0 <= at <= before.len(),
        after == before.insert(at, after[at]),
        forall|i: int| 0 <= i < before.len() ==> (#[trigger] before[i])@ != after[at]@,
    ensures
        forall|i: int, j: int| 0 <= i < j < after.len() ==> (#[trigger] after[i])@ != (
        #[trigger] after[j])@,
{
    assert forall|i: int, j: int| 0 <= i < j < after.len() implies (#[trigger] after[i])@ != (
    #[trigger] after[j])@ by {
        if i < at && j < at {
            assert(after[i] == before[i] && after[j] == before[j]);
        } else if i < at && j == at {
            assert(after[i] == before[i]);
        } else if i < at && j > at {
            assert(after[i] == before[i] && after[j] == before[j - 1]);
        } else if i == at {
            assert(after[j] == before[j - 1]);
        } else {
            assert(after[i] == before[i - 1] && after[j] == before[j - 1]);
        }
    }
}

} // verus!
