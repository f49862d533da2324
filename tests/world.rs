use heroesoftheswarm::world::{BulletEntity, SwarmEntity, World, SPAWN_MARGIN};

#[derive(Clone, Debug, PartialEq)]
struct Dot {
    x: u32,
    y: u32,
    color: (u8, u8, u8),
    steps: u32,
    last_bounds: (u32, u32),
}

impl SwarmEntity for Dot {
    fn spawn(x: u32, y: u32, color: (u8, u8, u8)) -> Self {
        Dot { x, y, color, steps: 0, last_bounds: (0, 0) }
    }

    fn update(self, width: u32, height: u32) -> Self {
        Dot { steps: self.steps + 1, last_bounds: (width, height), ..self }
    }
}

#[derive(Clone, Debug, PartialEq)]
struct Shot {
    steps: u32,
}

impl BulletEntity for Shot {
    fn update(self) -> Self {
        Shot { steps: self.steps + 1 }
    }
}

#[test]
fn initialize_world() {
    let world: World<Dot, Shot> = World::new(1000, 1000);
    assert_eq!(world.width, 1000);
    assert_eq!(world.height, 1000);
    assert_eq!((world.width(), world.height()), (1000, 1000));
    assert!(world.get_state().swarms.is_empty());
    assert!(world.get_state().bullets.is_empty());
}

#[test]
fn with_capacity_starts_empty() {
    let world: World<Dot, Shot> = World::with_capacity(640, 480, 8);
    assert_eq!((world.width, world.height), (640, 480));
    assert!(world.get_state().swarms.is_empty());
    let huge: World<Dot, Shot> = World::with_capacity(640, 480, 0);
    assert!(huge.get_state().swarms.is_empty());
}

#[test]
fn spawn_stays_inside_margins() {
    let mut world: World<Dot, Shot> = World::new(101, 300);
    for id in 0..200 {
        world.add_player(id);
    }
    let state = world.get_state();
    assert_eq!(state.swarms.len(), 200);
    for dot in state.swarms.values() {
        assert!(dot.x >= SPAWN_MARGIN && dot.x < 101 - SPAWN_MARGIN);
        assert!(dot.y >= SPAWN_MARGIN && dot.y < 300 - SPAWN_MARGIN);
    }
    for _ in 0..100 {
        let (x, y) = world.random_position();
        assert_eq!(x, 50);
        assert!((50..250).contains(&y));
    }
}

#[test]
fn add_player_overwrites() {
    let mut world: World<Dot, Shot> = World::new(1000, 1000);
    world.add_player(7);
    world.update();
    assert_eq!(world.get_state().swarms[&7].steps, 1);
    world.add_player(7);
    let state = world.get_state();
    assert_eq!(state.swarms.len(), 1);
    assert_eq!(state.swarms[&7].steps, 0);
}

#[test]
fn remove_player_twice_and_unknown() {
    let mut world: World<Dot, Shot> = World::new(500, 500);
    world.add_player(1);
    world.add_player(2);
    world.remove_player(1);
    world.remove_player(1);
    world.remove_player(99);
    let state = world.get_state();
    assert!(!state.swarms.contains_key(&1));
    assert!(state.swarms.contains_key(&2));
    assert_eq!(state.swarms.len(), 1);
}

#[test]
fn update_steps_every_swarm_once() {
    let mut world: World<Dot, Shot> = World::new(800, 600);
    for id in [3usize, 1, 4].iter() {
        world.add_player(*id);
    }
    let _elapsed = world.update();
    world.update();
    let state = world.get_state();
    assert_eq!(state.swarms.len(), 3);
    for dot in state.swarms.values() {
        assert_eq!(dot.steps, 2);
        assert_eq!(dot.last_bounds, (800, 600));
    }
}

#[test]
fn snapshot_is_isolated() {
    let mut world: World<Dot, Shot> = World::new(1000, 1000);
    world.add_player(1);
    let snapshot = world.get_state();
    let before = snapshot.swarms[&1].clone();
    world.update();
    world.add_player(2);
    world.remove_player(1);
    assert_eq!(snapshot.swarms.len(), 1);
    assert_eq!(snapshot.swarms[&1], before);
    assert_eq!(snapshot.swarms[&1].steps, 0);
}
