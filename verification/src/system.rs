//! Systems: user behavior wrapped as uniform executable units.
//!
//! A system has a name, a thread-local policy, a run body that only
//! reads the world, and a thread-local body that may mutate it. A
//! `NextFlush` system records commands while running and applies them at
//! the stage's flush; an `Immediate` system does its mutation in its
//! thread-local body, which the schedule calls right after its run.

use vstd::prelude::*;

use crate::command_buffer::{apply_chain, Command, CommandBuffer};
use crate::resources::Resources;
use crate::world::World;

verus! {

/// When a system's thread-local body runs: right after its own run, or
/// at the stage's flush point.
#[derive(Clone, Copy, PartialEq, Eq, Structural, Debug)]
pub enum ThreadLocalExecution {
    Immediate,
    NextFlush,
}

/// A uniform executable unit. The run body receives the world read-only:
/// whatever it does, no other system can observe a world mutation from
/// it during the run phase. Mutations happen in `run_thread_local`.
pub trait System: Sized {
    /// The system's name, for uniqueness inside a schedule.
    spec fn name_s(&self) -> Seq<char>;

    /// The system's thread-local policy.
    spec fn policy_s(&self) -> ThreadLocalExecution;

    /// What the system maintains about itself between calls.
    spec fn inv(&self) -> bool;

    /// How one run-phase step may change the system, as a relation over
    /// the world and the resources it read.
    spec fn run_rel(&self, world: World, resources: Resources, post: Self) -> bool;

    /// How one thread-local step may change the system, the world and
    /// the resources.
    spec fn flush_rel(
        &self,
        world0: World,
        resources0: Resources,
        post: Self,
        world1: World,
        resources1: Resources,
    ) -> bool;

    fn name(&self) -> (r: &str)
        ensures
            r@ == self.name_s(),
    ;

    fn thread_local_execution(&self) -> (r: ThreadLocalExecution)
        ensures
            r == self.policy_s(),
    ;

    /// The run phase: read the world and the resources, keep the name,
    /// the policy and the invariant.
    fn run(&mut self, world: &World, resources: &Resources)
        requires
            world.well_formed(),
            resources.well_formed(),
            old(self).inv(),
        ensures
            final(self).inv(),
            final(self).name_s() == old(self).name_s(),
            final(self).policy_s() == old(self).policy_s(),
            old(self).run_rel(*world, *resources, *final(self)),
    ;

    /// The thread-local phase: the one place a system mutates the world,
    /// which stays well formed.
    fn run_thread_local(&mut self, world: &mut World, resources: &mut Resources)
        requires
            old(world).well_formed(),
            old(resources).well_formed(),
            old(self).inv(),
        ensures
            final(world).well_formed(),
            final(resources).well_formed(),
            final(self).inv(),
            final(self).name_s() == old(self).name_s(),
            final(self).policy_s() == old(self).policy_s(),
            old(self).flush_rel(
                *old(world),
                *old(resources),
                *final(self),
                *final(world),
                *final(resources),
            ),
    ;
}

/// Every command in the list carries a well-formed bundle.
pub open spec fn commands_well_formed(cmds: Seq<Command>) -> bool {
    forall|i: int| 0 <= i < cmds.len() ==> (#[trigger] cmds[i]).bundle_of().well_formed()
}

/// A system made from a function: the function reads the world and the
/// resources and hands back the commands to defer; the wrapper queues
/// them in its own buffer and drains the buffer into the world at flush.
pub struct SystemFn<F> {
    pub func: F,
    pub command_buffer: CommandBuffer,
    pub thread_local_execution: ThreadLocalExecution,
    pub name: String,
}

impl<F: Fn(&World, &Resources) -> Vec<Command>> System for SystemFn<F> {
    open spec fn name_s(&self) -> Seq<char> {
        self.name@
    }

    open spec fn policy_s(&self) -> ThreadLocalExecution {
        self.thread_local_execution
    }

    /// The buffer holds well-formed bundles; the function accepts every
    /// well-formed world and only hands back well-formed bundles.
    open spec fn inv(&self) -> bool {
        &&& self.command_buffer.well_formed()
        &&& forall|w: World, r: Resources|
            w.well_formed() && r.well_formed() ==> call_requires(self.func, (&w, &r))
        &&& forall|x: (&World, &Resources), y: Vec<Command>|
            call_ensures(self.func, x, y) ==> commands_well_formed(y@)
    }

    /// The run phase calls the function once and queues exactly the
    /// commands it hands back, in order, behind the already queued
    /// ones; the function, name and policy stay.
    open spec fn run_rel(&self, world: World, resources: Resources, post: Self) -> bool {
        &&& post.func == self.func
        &&& post.name == self.name
        &&& post.thread_local_execution == self.thread_local_execution
        &&& exists|cmds: Vec<Command>|
            #[trigger] call_ensures(self.func, (&world, &resources), cmds)
                && post.command_buffer.commands@ == self.command_buffer.commands@ + cmds@
    }

    /// The flush drains the captured buffer into the world — every
    /// queued command applied exactly once, in issue order — leaving
    /// the buffer empty and the resources untouched.
    open spec fn flush_rel(
        &self,
        world0: World,
        resources0: Resources,
        post: Self,
        world1: World,
        resources1: Resources,
    ) -> bool {
        &&& post.func == self.func
        &&& post.name == self.name
        &&& post.thread_local_execution == self.thread_local_execution
        &&& apply_chain(world0, self.command_buffer.bundles(), world1)
        &&& post.command_buffer.commands@.len() == 0
        &&& resources1 == resources0
    }

    fn name(&self) -> (r: &str) {
        self.name.as_str()
    }

    fn thread_local_execution(&self) -> (r: ThreadLocalExecution) {
        self.thread_local_execution
    }

    /// One `run_rel` step: call the function, queue its commands.
    fn run(&mut self, world: &World, resources: &Resources) {
        proof {
            assert(call_requires(self.func, (world, resources)));
        }
        let mut new_commands = (self.func)(world, resources);
        let ghost cmds_g = new_commands;
        let ghost queued0 = self.command_buffer.commands@;
        let mut j: usize = 0;
        let n = new_commands.len();
        while j < n
            invariant
                n == cmds_g@.len(),
                j <= n,
                new_commands@ == cmds_g@.skip(j as int),
                self.command_buffer.commands@ == queued0 + cmds_g@.subrange(0, j as int),
                commands_well_formed(cmds_g@),
                commands_well_formed(queued0),
                self.func == old(self).func,
                self.name == old(self).name,
                self.thread_local_execution == old(self).thread_local_execution,
            decreases n - j,
        {
            proof {
                assert(new_commands@[0] == cmds_g@[j as int]);
            }
            let c = new_commands.remove(0);
            self.command_buffer.commands.push(c);
            proof {
                assert(new_commands@ =~= cmds_g@.skip(j + 1));
                assert(self.command_buffer.commands@ =~= queued0 + cmds_g@.subrange(0, j + 1));
            }
            j += 1;
        }
        proof {
            assert(cmds_g@.subrange(0, n as int) =~= cmds_g@);
            assert(call_ensures(old(self).func, (world, resources), cmds_g));
            assert(old(self).run_rel(*world, *resources, *self));
        }
    }

    /// One `flush_rel` step: drain the buffer into the world.
    fn run_thread_local(&mut self, world: &mut World, resources: &mut Resources) {
        self.command_buffer.apply(world);
    }
}

/// The body of a thread-local system: the user implements it on a type
/// of their own; the world is handed over mutably.
pub trait ThreadLocalSystemFn: Sized {
    /// What the body maintains about itself between calls.
    spec fn tls_inv(&self) -> bool;

    /// How one call may change the body, the world and the resources.
    spec fn tls_rel(
        &self,
        world0: World,
        resources0: Resources,
        post: Self,
        world1: World,
        resources1: Resources,
    ) -> bool;

    fn run(&mut self, world: &mut World, resources: &mut Resources)
        requires
            old(world).well_formed(),
            old(resources).well_formed(),
            old(self).tls_inv(),
        ensures
            final(world).well_formed(),
            final(resources).well_formed(),
            final(self).tls_inv(),
            old(self).tls_rel(
                *old(world),
                *old(resources),
                *final(self),
                *final(world),
                *final(resources),
            ),
    ;
}

/// A system whose whole work happens thread-locally, with exclusive
/// world access; its run phase does nothing.
pub struct ThreadLocalSystem<F> {
    pub func: F,
    pub name: String,
}

impl<F: ThreadLocalSystemFn> ThreadLocalSystem<F> {
    pub fn new(func: F, name: String) -> (r: ThreadLocalSystem<F>)
        ensures
            r.func == func,
            r.name == name,
    {
        ThreadLocalSystem { func, name }
    }
}

impl<F: ThreadLocalSystemFn> System for ThreadLocalSystem<F> {
    open spec fn name_s(&self) -> Seq<char> {
        self.name@
    }

    open spec fn policy_s(&self) -> ThreadLocalExecution {
        ThreadLocalExecution::Immediate
    }

    open spec fn inv(&self) -> bool {
        self.func.tls_inv()
    }

    /// The run phase of a thread-local system does nothing at all.
    open spec fn run_rel(&self, world: World, resources: Resources, post: Self) -> bool {
        post == *self
    }

    /// The thread-local phase hands the world and the resources to the
    /// body; the name stays.
    open spec fn flush_rel(
        &self,
        world0: World,
        resources0: Resources,
        post: Self,
        world1: World,
        resources1: Resources,
    ) -> bool {
        &&& post.name == self.name
        &&& self.func.tls_rel(world0, resources0, post.func, world1, resources1)
    }

    fn name(&self) -> (r: &str) {
        self.name.as_str()
    }

    fn thread_local_execution(&self) -> (r: ThreadLocalExecution) {
        ThreadLocalExecution::Immediate
    }

    fn run(&mut self, world: &World, resources: &Resources) {
    }

    fn run_thread_local(&mut self, world: &mut World, resources: &mut Resources) {
        self.func.run(world, resources);
    }
}

} // verus!
