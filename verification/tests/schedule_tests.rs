use ecs_core::bundle::Bundle;
use ecs_core::command_buffer::CommandBuffer;
use ecs_core::entity::Entity;
use ecs_core::query::{Access, FetchItem};
use ecs_core::resources::Resources;
use ecs_core::schedule::Schedule;
use ecs_core::system::{System, ThreadLocalExecution};
use ecs_core::type_info::TypeInfo;
use ecs_core::world::World;

const VEL_ID: u64 = 10;
const POS_ID: u64 = 11;
const THING_ID: u64 = 12;

fn f32_bytes(v: f32) -> Vec<u8> {
    v.to_bits().to_le_bytes().to_vec()
}

fn f32_of(b: &[u8]) -> f32 {
    f32::from_bits(u32::from_le_bytes(b.try_into().unwrap()))
}

fn vel_pos_bundle(v: f32, p: f32) -> Bundle {
    Bundle::new(vec![
        (TypeInfo::new(VEL_ID, 4), f32_bytes(v)),
        (TypeInfo::new(POS_ID, 4), f32_bytes(p)),
    ])
    .unwrap()
}

fn thing_bundle(v: f32) -> Bundle {
    Bundle::new(vec![(TypeInfo::new(THING_ID, 4), f32_bytes(v))]).unwrap()
}

#[derive(Clone, Copy, PartialEq, Eq)]
enum Kind {
    /// Reads velocities during the run phase.
    Velocity,
    /// Immediate: adds each velocity onto its position.
    Move,
    /// NextFlush: spawns one thing per (velocity, position) pair.
    SpawnThings,
    /// Counts the things it can see during its run phase.
    CountThings,
}

struct TestSystem {
    kind: Kind,
    name: String,
    buffer: CommandBuffer,
    seen: u32,
}

impl TestSystem {
    fn new(kind: Kind, name: &str) -> TestSystem {
        TestSystem {
            kind,
            name: name.to_owned(),
            buffer: CommandBuffer::new(),
            seen: 0,
        }
    }
}

impl System for TestSystem {
    fn name_s(&self) -> vstd::seq::Seq<char> {
        panic!()
    }

    fn policy_s(&self) -> ThreadLocalExecution {
        panic!()
    }

    fn inv(&self) -> bool {
        panic!()
    }

    fn run_rel(&self, _world: World, _resources: Resources, _post: Self) -> bool {
        panic!()
    }

    fn flush_rel(
        &self,
        _world0: World,
        _resources0: Resources,
        _post: Self,
        _world1: World,
        _resources1: Resources,
    ) -> bool {
        panic!()
    }

    fn name(&self) -> &str {
        &self.name
    }

    fn thread_local_execution(&self) -> ThreadLocalExecution {
        match self.kind {
            Kind::Move => ThreadLocalExecution::Immediate,
            _ => ThreadLocalExecution::NextFlush,
        }
    }

    fn run(&mut self, world: &World, _resources: &Resources) {
        match self.kind {
            Kind::Velocity => {
                self.seen = world.query(&vec![Access::Read(VEL_ID)]).len() as u32;
            }
            Kind::SpawnThings => {
                let rows = world.query(&vec![Access::Read(VEL_ID), Access::Read(POS_ID)]);
                for _row in rows.iter() {
                    self.buffer.spawn(thing_bundle(1.0));
                }
            }
            Kind::CountThings => {
                self.seen = world.query(&vec![Access::Read(THING_ID)]).len() as u32;
            }
            Kind::Move => {}
        }
    }

    fn run_thread_local(&mut self, world: &mut World, _resources: &mut Resources) {
        match self.kind {
            Kind::Move => {
                let rows = world.query(&vec![
                    Access::EntityHandle,
                    Access::Read(VEL_ID),
                    Access::Read(POS_ID),
                ]);
                for row in rows.iter() {
                    let e: Entity = match &row.items[0] {
                        FetchItem::Handle(h) => *h,
                        _ => panic!("expected a handle"),
                    };
                    let v = match &row.items[1] {
                        FetchItem::Bytes(b) => f32_of(b),
                        _ => panic!("expected bytes"),
                    };
                    let p = match &row.items[2] {
                        FetchItem::Bytes(b) => f32_of(b),
                        _ => panic!("expected bytes"),
                    };
                    world.set(e, POS_ID, &f32_bytes(p + v)).unwrap();
                }
            }
            _ => {
                self.buffer.apply(world);
            }
        }
    }
}

#[test]
fn schedule_two_phase_visibility() {
    // Scenario: two stages. The spawner in the first stage defers its
    // spawns; a watcher in the same stage sees none of them during the
    // run phase, while the watcher in the second stage sees them all.
    let mut world = World::new();
    let mut resources = Resources::new();
    world.spawn(vel_pos_bundle(1.0, 1.0));
    world.spawn(vel_pos_bundle(2.0, 2.0));

    let mut schedule: Schedule<TestSystem> = Schedule::new();
    schedule.add_stage("update".to_owned());
    schedule.add_stage("render".to_owned());
    schedule.add_system_to_stage("update".to_owned(), TestSystem::new(Kind::Velocity, "velocity"));
    schedule.add_system_to_stage("update".to_owned(), TestSystem::new(Kind::Move, "movement"));
    schedule.add_system_to_stage(
        "update".to_owned(),
        TestSystem::new(Kind::SpawnThings, "spawner"),
    );
    schedule.add_system_to_stage(
        "update".to_owned(),
        TestSystem::new(Kind::CountThings, "update watcher"),
    );
    schedule.add_system_to_stage(
        "render".to_owned(),
        TestSystem::new(Kind::CountThings, "render watcher"),
    );
    schedule.run(&mut world, &mut resources);

    // The update-stage watcher ran before the flush: no things yet.
    assert_eq!(schedule.stages[0][3].seen, 0);
    // The render-stage watcher sees every deferred spawn.
    assert_eq!(schedule.stages[1][0].seen, 2);
    assert_eq!(schedule.stages[0][0].seen, 2);
    // The spawner's buffer was drained by its flush.
    assert_eq!(schedule.stages[0][2].buffer.commands.len(), 0);

    // The immediate system moved both positions during the update stage.
    let mut positions = world
        .query(&vec![Access::Read(POS_ID)])
        .iter()
        .map(|row| match &row.items[0] {
            FetchItem::Bytes(b) => f32_of(b),
            _ => panic!("expected bytes"),
        })
        .collect::<Vec<_>>();
    positions.sort_by(|a, b| a.partial_cmp(b).unwrap());
    assert_eq!(positions, vec![2.0, 4.0]);

    // One new thing per pre-existing (velocity, position) pair.
    assert_eq!(world.query(&vec![Access::Read(THING_ID)]).len(), 2);
}

#[test]
fn stage_insertion_order() {
    let mut schedule: Schedule<TestSystem> = Schedule::new();
    schedule.add_stage("first".to_owned());
    schedule.add_stage("last".to_owned());
    schedule.add_stage_after("first".to_owned(), "second".to_owned());
    schedule.add_stage_before("last".to_owned(), "third".to_owned());
    let order = schedule
        .stage_order
        .iter()
        .map(|s| s.as_str())
        .collect::<Vec<_>>();
    assert_eq!(order, vec!["first", "second", "third", "last"]);
    assert!(schedule.knows_system(&"anything".to_owned()) == false);
}

#[test]
fn command_buffer_applies_in_order() {
    // Two commands through one buffer: a single apply drains both, in
    // issue order, and empties the buffer.
    let mut world = World::new();
    let mut buffer = CommandBuffer::new();
    buffer.spawn(thing_bundle(1.0));
    buffer.spawn(thing_bundle(2.0));
    assert_eq!(buffer.commands.len(), 2);
    buffer.apply(&mut world);
    assert_eq!(buffer.commands.len(), 0);
    let mut things = world
        .query(&vec![Access::Read(THING_ID)])
        .iter()
        .map(|row| match &row.items[0] {
            FetchItem::Bytes(b) => f32_of(b),
            _ => panic!("expected bytes"),
        })
        .collect::<Vec<_>>();
    things.sort_by(|a, b| a.partial_cmp(b).unwrap());
    assert_eq!(things, vec![1.0, 2.0]);
}
