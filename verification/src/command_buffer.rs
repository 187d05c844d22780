//! The command buffer: a queue of deferred world mutations.
//!
//! Read-only system code cannot change the world directly; it records
//! commands instead, and a flush applies them in the order they were
//! issued. A command carries a writer — today a spawn holding its bundle
//! by value — and applying the buffer drains it completely.

use vstd::prelude::*;

use crate::bundle::Bundle;
use crate::entity::Entity;
use crate::world::World;

verus! {

/// Something that can apply one deferred mutation to the world.
pub trait WorldWriter: Sized {
    /// What the writer asks of the world model it is applied to.
    spec fn write_pre(self) -> bool;

    /// How the writer relates the world before to the world after.
    spec fn write_rel(self, w0: World, w1: World) -> bool;

    /// Apply the mutation.
    fn write(self, world: &mut World)
        requires
            old(world).well_formed(),
            self.write_pre(),
        ensures
            final(world).well_formed(),
            self.write_rel(*old(world), *final(world)),
    ;
}

/// A deferred spawn, carrying the bundle by value.
pub struct Spawn {
    pub value: Bundle,
}

impl WorldWriter for Spawn {
    open spec fn write_pre(self) -> bool {
        self.value.well_formed()
    }

    /// Applying a spawn performs one spawn step, unless the directory
    /// was out of ids, which leaves the world untouched.
    open spec fn write_rel(self, w0: World, w1: World) -> bool {
        command_step(w0, self.value, w1)
    }

    fn write(self, world: &mut World) {
        let _ = world.try_spawn(self.value);
    }
}

/// One deferred mutation.
pub enum Command {
    WriteWorld(Spawn),
}

impl Command {
    /// The bundle the command will spawn.
    pub open spec fn bundle_of(self) -> Bundle {
        self->WriteWorld_0.value
    }
}

/// Applying one command: a spawn step, or no change when the directory
/// has no id left.
pub open spec fn command_step(w0: World, b: Bundle, w1: World) -> bool {
    ||| exists|e: Entity| World::spawn_step(w0, b, w1, e)
    ||| (w0.directory_full() && w1 == w0)
}

/// Applying a list of commands front to back.
pub open spec fn apply_chain(w0: World, bs: Seq<Bundle>, w1: World) -> bool
    decreases bs.len(),
{
    if bs.len() == 0 {
        w1 == w0
    } else {
        exists|wm: World| #[trigger] command_step(w0, bs[0], wm) && apply_chain(wm, bs.skip(1), w1)
    }
}

/// A chain extends on the right by one more applied command.
pub proof fn lemma_apply_chain_snoc(w0: World, bs: Seq<Bundle>, wm: World, b: Bundle, w1: World)
    requires
        apply_chain(w0, bs, wm),
        command_step(wm, b, w1),
    ensures
        apply_chain(w0, bs.push(b), w1),
    decreases bs.len(),
{
    if bs.len() == 0 {
        assert(bs.push(b)[0] == b);
        assert(bs.push(b).skip(1) =~= Seq::<Bundle>::empty());
        assert(apply_chain(w1, bs.push(b).skip(1), w1));
        assert(command_step(w0, bs.push(b)[0], w1));
    } else {
        let wstep = choose|wstep: World| #[trigger] command_step(w0, bs[0], wstep) && apply_chain(
            wstep,
            bs.skip(1),
            wm,
        );
        lemma_apply_chain_snoc(wstep, bs.skip(1), wm, b, w1);
        assert(bs.push(b)[0] == bs[0]);
        assert(bs.push(b).skip(1) =~= bs.skip(1).push(b));
        assert(command_step(w0, bs.push(b)[0], wstep));
        assert(apply_chain(wstep, bs.push(b).skip(1), w1));
    }
}

/// A queue of deferred world mutations, drained by a single `apply`.
pub struct CommandBuffer {
    pub commands: Vec<Command>,
}

impl CommandBuffer {
    /// Every queued bundle is well formed.
    pub open spec fn well_formed(self) -> bool {
        forall|i: int|
            0 <= i < self.commands@.len() ==> (#[trigger] self.commands@[i]).bundle_of().well_formed()
    }

    /// The queued bundles, in issue order.
    pub open spec fn bundles(self) -> Seq<Bundle> {
        self.commands@.map_values(|c: Command| c.bundle_of())
    }

    pub fn new() -> (r: CommandBuffer)
        ensures
            r.well_formed(),
            r.commands@.len() == 0,
    {
        CommandBuffer { commands: Vec::new() }
    }

    /// Queue a spawn of this bundle; nothing is applied yet.
    pub fn spawn(&mut self, components: Bundle)
        requires
            old(self).well_formed(),
            components.well_formed(),
        ensures
            final(self).well_formed(),
            final(self).commands@ == old(self).commands@.push(
                Command::WriteWorld(Spawn { value: components }),
            ),
            final(self).bundles() == old(self).bundles().push(components),
    {
        self.commands.push(Command::WriteWorld(Spawn { value: components }));
        proof {
            assert(self.bundles() =~= old(self).bundles().push(
                self.commands@.last().bundle_of(),
            ));
        }
    }

    /// Drain every command in issue order and apply each to the world.
    /// Afterwards the buffer is empty, and the world is the result of
    /// applying exactly the queued commands front to back.
    pub fn apply(&mut self, world: &mut World)
        requires
            old(self).well_formed(),
            old(world).well_formed(),
        ensures
            final(self).well_formed(),
            final(self).commands@.len() == 0,
            final(world).well_formed(),
            apply_chain(*old(world), old(self).bundles(), *final(world)),
    {
        let ghost w0 = *old(world);
        let ghost all = old(self).bundles();
        let mut k: usize = 0;
        let n = self.commands.len();
        while k < n
            invariant
                n == old(self).commands@.len(),
                k <= n,
                self.commands@ == old(self).commands@.skip(k as int),
                old(self).well_formed(),
                world.well_formed(),
                apply_chain(w0, all.subrange(0, k as int), *world),
                all == old(self).bundles(),
            decreases n - k,
        {
            let ghost w_before = *world;
            proof {
                assert(self.commands@[0] == old(self).commands@[k as int]);
            }
            let cmd = self.commands.remove(0);
            match cmd {
                Command::WriteWorld(writer) => {
                    writer.write(world);
                },
            }
            proof {
                assert(self.commands@ =~= old(self).commands@.skip(k + 1));
                assert(all.subrange(0, k as int).push(all[k as int]) =~= all.subrange(
                    0,
                    k + 1,
                ));
                assert(command_step(w_before, all[k as int], *world));
                lemma_apply_chain_snoc(
                    w0,
                    all.subrange(0, k as int),
                    w_before,
                    all[k as int],
                    *world,
                );
            }
            k += 1;
        }
        proof {
            assert(all.subrange(0, n as int) =~= all);
        }
    }
}

impl Default for CommandBuffer {
    /// An empty buffer.
    fn default() -> (r: CommandBuffer)
        ensures
            r.well_formed(),
            r.commands@.len() == 0,
    {
        CommandBuffer::new()
    }
}

/// A world whose directory ran out of ids absorbs every later command:
/// nothing more can spawn.
pub proof fn lemma_full_absorbs(w0: World, bs: Seq<Bundle>, w1: World)
    requires
        apply_chain(w0, bs, w1),
        w0.directory_full(),
    ensures
        w1 == w0,
    decreases bs.len(),
{
    if bs.len() > 0 {
        let wm = choose|wm: World| #[trigger] command_step(w0, bs[0], wm) && apply_chain(
            wm,
            bs.skip(1),
            w1,
        );
        assert(wm == w0);
        lemma_full_absorbs(wm, bs.skip(1), w1);
    }
}

/// Applying commands never unmakes an entity: whoever is live before a
/// flush is live after it, with the same components.
pub proof fn lemma_chain_preserves_live(w0: World, bs: Seq<Bundle>, w1: World, e: Entity)
    requires
        apply_chain(w0, bs, w1),
        w0.live(e),
    ensures
        w1.live(e),
        w1.components_of(e) == w0.components_of(e),
    decreases bs.len(),
{
    if bs.len() > 0 {
        let wm = choose|wm: World| #[trigger] command_step(w0, bs[0], wm) && apply_chain(
            wm,
            bs.skip(1),
            w1,
        );
        lemma_chain_preserves_live(wm, bs.skip(1), w1, e);
    }
}

/// What a flush makes visible: every command applied by the flush chain
/// is realized in the world the next stage sees — some live entity
/// holds exactly the command's components — as long as the directory
/// did not run out of ids. During the run phase itself the commands are
/// invisible: a system's run body only ever holds the world by shared
/// reference.
pub proof fn lemma_flush_makes_spawns_visible(w0: World, bs: Seq<Bundle>, w1: World, i: int)
    requires
        apply_chain(w0, bs, w1),
        !w1.directory_full(),
        0 <= i < bs.len(),
    ensures
        exists|e: Entity| #[trigger] w1.live(e) && w1.components_of(e) == bs[i].comp_map(),
    decreases bs.len(),
{
    let wm = choose|wm: World| #[trigger] command_step(w0, bs[0], wm) && apply_chain(
        wm,
        bs.skip(1),
        w1,
    );
    if w0.directory_full() {
        assert(wm == w0);
        lemma_full_absorbs(wm, bs.skip(1), w1);
        assert(false);
    }
    let e0 = choose|e0: Entity| World::spawn_step(w0, bs[0], wm, e0);
    if i == 0 {
        lemma_chain_preserves_live(wm, bs.skip(1), w1, e0);
        assert(w1.live(e0) && w1.components_of(e0) == bs[0].comp_map());
    } else {
        lemma_flush_makes_spawns_visible(wm, bs.skip(1), w1, i - 1);
        assert(bs.skip(1)[i - 1] == bs[i]);
    }
}

} // verus!
