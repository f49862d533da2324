//! The arena: every player's swarm, the bullets in flight, and one step of simulation.
use std::collections::HashMap;
use std::time::{Duration, Instant};
use vstd::prelude::*;

verus! {

broadcast use vstd::std_specs::hash::group_hash_axioms;

/// How far from each edge of the arena a swarm may not spawn.
pub const SPAWN_MARGIN: u32 = 50;

/// A swarm as the world sees it: made at a spawn point, then stepped once per tick.
pub trait SwarmEntity: Sized {
    /// A swarm at `(x, y)` with the given colour.
    fn spawn(x: u32, y: u32, color: (u8, u8, u8)) -> Self;

    /// The swarm after one step of its program inside an arena of the given size.
    fn update(self, width: u32, height: u32) -> Self;
}

/// A bullet as the world sees it: stepped once per tick.
pub trait BulletEntity: Sized {
    /// The bullet after one step.
    fn update(self) -> Self;
}

#[verifier::external_type_specification]
#[verifier::external_body]
pub struct ExInstant(Instant);

/// Relies on `Instant::now`: the current reading of the monotonic clock.
#[verifier::external_body]
fn clock_now() -> Instant {
    Instant::now()
}

/// Relies on `Instant::duration_since`: the time from `earlier` to `later`.
#[verifier::external_body]
fn clock_since(later: &Instant, earlier: Instant) -> Duration {
    later.duration_since(earlier)
}

/// Relies on `rand::Rng::gen_range` on the thread's generator: a value in `[low, high)`;
/// it panics unless `low < high`.
#[verifier::external_body]
fn random_in(low: u32, high: u32) -> (r: u32)
    requires
        low < high,
    ensures
        low <= r < high,
{
    rand::Rng::gen_range(&mut rand::thread_rng(), low, high)
}

/// Relies on `rand::random`: any byte.
#[verifier::external_body]
fn random_byte() -> u8 {
    rand::random::<u8>()
}

/// `after` is what one call of `S::update` returns for `before` in an arena of the given size.
pub open spec fn swarm_stepped<S: SwarmEntity>(before: S, after: S, width: u32, height: u32) -> bool {
    call_ensures(S::update, (before, width, height), after)
}

/// `after` is what one call of `B::update` returns for `before`.
pub open spec fn bullet_stepped<B: BulletEntity>(before: B, after: B) -> bool {
    call_ensures(B::update, (before,), after)
}

/// No two entries share a player id.
pub open spec fn unique_ids<S>(s: Seq<(usize, S)>) -> bool {
    forall|i: int, j: int| 0 <= i < s.len() && 0 <= j < s.len() && s[i].0 == s[j].0 ==> i == j
}

/// Some entry belongs to player `id`.
pub open spec fn has_id<S>(s: Seq<(usize, S)>, id: usize) -> bool {
    exists|i: int| 0 <= i < s.len() && s[i].0 == id
}

/// The entries as a map from player id to value.
pub open spec fn entry_map<S>(s: Seq<(usize, S)>) -> Map<usize, S> {
    Map::new(
        |id: usize| has_id(s, id),
        |id: usize| s[choose|i: int| 0 <= i < s.len() && s[i].0 == id].1,
    )
}

proof fn lemma_entry<S>(s: Seq<(usize, S)>, j: int)
    requires
        unique_ids(s),
        0 <= j < s.len(),
    ensures
        entry_map(s).dom().contains(s[j].0),
        entry_map(s)[s[j].0] == s[j].1,
{
    assert(has_id(s, s[j].0));
    let c = choose|i: int| 0 <= i < s.len() && s[i].0 == s[j].0;
    assert(c == j);
}

proof fn lemma_remove<S>(s: Seq<(usize, S)>, j: int)
    requires
        unique_ids(s),
        0 <= j < s.len(),
    ensures
        unique_ids(s.remove(j)),
        entry_map(s.remove(j)) == entry_map(s).remove(s[j].0),
{
    let r = s.remove(j);
    assert(forall|i: int| 0 <= i < r.len() ==> #[trigger] r[i] == if i < j { s[i] } else { s[i + 1] });
    assert forall|id: usize| has_id(r, id) <==> has_id(s, id) && id != s[j].0 by {
        if has_id(s, id) && id != s[j].0 {
            let i = choose|i: int| 0 <= i < s.len() && s[i].0 == id;
            if i < j {
                assert(r[i].0 == id);
            } else {
                assert(r[i - 1].0 == id);
            }
        }
    }
    assert forall|id: usize| #[trigger] entry_map(r).dom().contains(id) implies entry_map(r)[id]
        == entry_map(s)[id] by {
        let i = choose|i: int| 0 <= i < r.len() && r[i].0 == id;
        lemma_entry(r, i);
        if i < j {
            lemma_entry(s, i);
        } else {
            lemma_entry(s, i + 1);
        }
    }
    assert(entry_map(r) =~= entry_map(s).remove(s[j].0));
}

proof fn lemma_push<S>(s: Seq<(usize, S)>, id: usize, v: S)
    requires
        unique_ids(s),
        !has_id(s, id),
    ensures
        unique_ids(s.push((id, v))),
        entry_map(s.push((id, v))) == entry_map(s).insert(id, v),
{
    let p = s.push((id, v));
    assert forall|k: usize| has_id(p, k) <==> has_id(s, k) || k == id by {
        if has_id(s, k) {
            let i = choose|i: int| 0 <= i < s.len() && s[i].0 == k;
            assert(p[i].0 == k);
        }
        if k == id {
            assert(p[s.len() as int].0 == k);
        }
    }
    assert forall|k: usize| #[trigger] entry_map(p).dom().contains(k) implies entry_map(p)[k]
        == entry_map(s).insert(id, v)[k] by {
        let i = choose|i: int| 0 <= i < p.len() && p[i].0 == k;
        lemma_entry(p, i);
        if i < s.len() {
            lemma_entry(s, i);
        }
    }
    assert(entry_map(p) =~= entry_map(s).insert(id, v));
}

/// The state of the game's world.
pub struct World<S, B> {
    /// The width of the world
    pub width: u32,
    /// The height of the world
    pub height: u32,
    /// Each player's swarm, under the player's id, ids unique. A vector rather than a hash map:
    /// a tick steps every swarm in place, which needs mutable access to each entry that vstd
    /// specifies for vectors (remove and insert at an index) but not for `HashMap` values, and
    /// it gives the tick a stable order.
    swarms: Vec<(usize, S)>,
    /// Each bullet in the world
    bullets: Vec<B>,
}

/// A copy of the world's swarms and bullets at one moment.
pub struct WorldState<S, B> {
    pub swarms: HashMap<usize, S>,
    pub bullets: Vec<B>,
}

impl<S: SwarmEntity, B: BulletEntity> World<S, B> {
    /// The arena's width and height.
    pub closed spec fn dims(&self) -> (u32, u32) {
        (self.width, self.height)
    }

    /// Each player's swarm, by player id.
    pub closed spec fn swarm_map(&self) -> Map<usize, S> {
        entry_map(self.swarms@)
    }

    /// The bullets in flight.
    pub closed spec fn bullet_seq(&self) -> Seq<B> {
        self.bullets@
    }

    /// Player ids are unique.
    pub closed spec fn wf(&self) -> bool {
        unique_ids(self.swarms@)
    }

    /// The arena's width, as `dims` states it.
    pub fn width(&self) -> (r: u32)
        ensures
            r == self.dims().0,
    {
        self.width
    }

    /// The arena's height, as `dims` states it.
    pub fn height(&self) -> (r: u32)
        ensures
            r == self.dims().1,
    {
        self.height
    }

    /// An empty world of the given size.
    pub fn new(width: u32, height: u32) -> (r: Self)
        ensures
            r.wf(),
            r.dims() == (width, height),
            r.swarm_map() == Map::<usize, S>::empty(),
            r.bullet_seq() == Seq::<B>::empty(),
    {
        let r = World { width, height, swarms: Vec::new(), bullets: Vec::new() };
        assert(r.swarm_map() =~= Map::<usize, S>::empty());
        r
    }

    /// An empty world of the given size, with room set aside for `capacity` players and ten
    /// bullets for each.
    pub fn with_capacity(width: u32, height: u32, capacity: usize) -> (r: Self)
        ensures
            r.wf(),
            r.dims() == (width, height),
            r.swarm_map() == Map::<usize, S>::empty(),
            r.bullet_seq() == Seq::<B>::empty(),
    {
        let bullet_room = if capacity <= usize::MAX / 10 {
            capacity * 10
        } else {
            usize::MAX
        };
        let r = World {
            width,
            height,
            swarms: Vec::with_capacity(capacity),
            bullets: Vec::with_capacity(bullet_room),
        };
        assert(r.swarm_map() =~= Map::<usize, S>::empty());
        r
    }

    /// Where player `id`'s entry stands, if anywhere.
    fn find(&self, id: usize) -> (r: Option<usize>)
        requires
            self.wf(),
        ensures
            match r {
                Some(i) => i < self.swarms@.len() && self.swarms@[i as int].0 == id,
                None => !has_id(self.swarms@, id),
            },
    {
        let mut i: usize = 0;
        while i < self.swarms.len()
            invariant
                i <= self.swarms@.len(),
                forall|j: int| 0 <= j < i ==> self.swarms@[j].0 != id,
            decreases self.swarms@.len() - i,
        {
            if self.swarms[i].0 == id {
                return Some(i);
            }
            i += 1;
        }
        None
    }

    /// A spawn point chosen uniformly at random at least `SPAWN_MARGIN` away from each edge.
    pub fn random_position(&self) -> (r: (u32, u32))
        requires
            self.dims().0 > 2 * SPAWN_MARGIN,
            self.dims().1 > 2 * SPAWN_MARGIN,
        ensures
            SPAWN_MARGIN <= r.0 < self.dims().0 - SPAWN_MARGIN,
            SPAWN_MARGIN <= r.1 < self.dims().1 - SPAWN_MARGIN,
    {
        let x = random_in(SPAWN_MARGIN, self.width - SPAWN_MARGIN);
        let y = random_in(SPAWN_MARGIN, self.height - SPAWN_MARGIN);
        (x, y)
    }

    /// A colour of three random bytes.
    pub fn random_color() -> (u8, u8, u8) {
        (random_byte(), random_byte(), random_byte())
    }

    /// Removes player `id`'s swarm, if there is one.
    pub fn remove_player(&mut self, id: usize)
        requires
            old(self).wf(),
        ensures
            final(self).wf(),
            final(self).dims() == old(self).dims(),
            final(self).swarm_map() == old(self).swarm_map().remove(id),
            final(self).bullet_seq() == old(self).bullet_seq(),
    {
        match self.find(id) {
            Some(i) => {
                proof {
                    lemma_remove(self.swarms@, i as int);
                }
                self.swarms.remove(i);
            },
            None => {
                assert(self.swarm_map() =~= self.swarm_map().remove(id));
            },
        }
    }

    /// Gives player `id` a new swarm, made by `S::spawn` at a random point at least
    /// `SPAWN_MARGIN` away from each edge and with a random colour, in place of any swarm the
    /// player had.
    pub fn add_player(&mut self, id: usize)
        requires
            old(self).wf(),
            old(self).dims().0 > 2 * SPAWN_MARGIN,
            old(self).dims().1 > 2 * SPAWN_MARGIN,
        ensures
            final(self).wf(),
            final(self).dims() == old(self).dims(),
            final(self).swarm_map().dom() == old(self).swarm_map().dom().insert(id),
            exists|x: u32, y: u32, color: (u8, u8, u8)|
                {
                    &&& SPAWN_MARGIN <= x < old(self).dims().0 - SPAWN_MARGIN
                    &&& SPAWN_MARGIN <= y < old(self).dims().1 - SPAWN_MARGIN
                    &&& #[trigger] call_ensures(S::spawn, (x, y, color), final(self).swarm_map()[id])
                },
            forall|k: usize|
                k != id && #[trigger] old(self).swarm_map().contains_key(k) ==> final(self).swarm_map()[k]
                    == old(self).swarm_map()[k],
            final(self).bullet_seq() == old(self).bullet_seq(),
    {
        let (x, y) = self.random_position();
        let color = World::<S, B>::random_color();
        let swarm = S::spawn(x, y, color);
        self.remove_player(id);
        proof {
            assert(!self.swarm_map().dom().contains(id));
            lemma_push(self.swarms@, id, swarm);
        }
        self.swarms.push((id, swarm));
        assert(self.swarm_map().dom() =~= old(self).swarm_map().dom().insert(id));
        assert(self.swarm_map()[id] == swarm);
        assert(call_ensures(S::spawn, (x, y, color), self.swarm_map()[id]));
    }

    /// Runs one tick: every swarm takes one step in an arena of the world's size, then every
    /// bullet takes one step. Returns the time the tick took, which changes nothing.
    pub fn update(&mut self) -> (r: Duration)
        requires
            old(self).wf(),
        ensures
            final(self).wf(),
            final(self).dims() == old(self).dims(),
            final(self).swarm_map().dom() == old(self).swarm_map().dom(),
            forall|id: usize| #[trigger]
                old(self).swarm_map().contains_key(id) ==> swarm_stepped(
                    old(self).swarm_map()[id],
                    final(self).swarm_map()[id],
                    old(self).dims().0,
                    old(self).dims().1,
                ),
            final(self).bullet_seq().len() == old(self).bullet_seq().len(),
            forall|i: int|
                0 <= i < old(self).bullet_seq().len() ==> bullet_stepped(
                    old(self).bullet_seq()[i],
                    #[trigger] final(self).bullet_seq()[i],
                ),
    {
        let start = clock_now();
        let mut i: usize = 0;
        while i < self.swarms.len()
            invariant
                self.width == old(self).width,
                self.height == old(self).height,
                self.bullets@ == old(self).bullets@,
                self.swarms@.len() == old(self).swarms@.len(),
                forall|j: int|
                    0 <= j < self.swarms@.len() ==> #[trigger] self.swarms@[j].0 == old(
                        self,
                    ).swarms@[j].0,
                forall|j: int|
                    0 <= j < i ==> swarm_stepped(
                        old(self).swarms@[j].1,
                        #[trigger] self.swarms@[j].1,
                        self.width,
                        self.height,
                    ),
                forall|j: int| i <= j < self.swarms@.len() ==> #[trigger] self.swarms@[j] == old(self).swarms@[j],
                i <= self.swarms@.len(),
            decreases self.swarms@.len() - i,
        {
            let (id, swarm) = self.swarms.remove(i);
            let next = swarm.update(self.width, self.height);
            self.swarms.insert(i, (id, next));
            i += 1;
        }
        let mut k: usize = 0;
        while k < self.bullets.len()
            invariant
                self.width == old(self).width,
                self.height == old(self).height,
                self.swarms@.len() == old(self).swarms@.len(),
                forall|j: int|
                    0 <= j < self.swarms@.len() ==> #[trigger] self.swarms@[j].0 == old(
                        self,
                    ).swarms@[j].0,
                forall|j: int|
                    0 <= j < self.swarms@.len() ==> swarm_stepped(
                        old(self).swarms@[j].1,
                        #[trigger] self.swarms@[j].1,
                        self.width,
                        self.height,
                    ),
                self.bullets@.len() == old(self).bullets@.len(),
                forall|j: int|
                    0 <= j < k ==> bullet_stepped(old(self).bullets@[j], #[trigger] self.bullets@[j]),
                forall|j: int| k <= j < self.bullets@.len() ==> #[trigger] self.bullets@[j] == old(self).bullets@[j],
                k <= self.bullets@.len(),
            decreases self.bullets@.len() - k,
        {
            let bullet = self.bullets.remove(k);
            let next = bullet.update();
            self.bullets.insert(k, next);
            k += 1;
        }
        proof {
            let s = self.swarms@;
            let o = old(self).swarms@;
            assert forall|a: int, b: int|
                0 <= a < s.len() && 0 <= b < s.len() && s[a].0 == s[b].0 implies a == b by {
                assert(o[a].0 == s[a].0 && o[b].0 == s[b].0);
            }
            assert forall|id: usize| has_id(s, id) <==> has_id(o, id) by {
                if has_id(s, id) {
                    let a = choose|a: int| 0 <= a < s.len() && s[a].0 == id;
                    assert(o[a].0 == id);
                }
                if has_id(o, id) {
                    let a = choose|a: int| 0 <= a < o.len() && o[a].0 == id;
                    assert(s[a].0 == id);
                }
            }
            assert(self.swarm_map().dom() =~= old(self).swarm_map().dom());
            assert forall|id: usize| #[trigger] old(self).swarm_map().contains_key(id) implies swarm_stepped(
                old(self).swarm_map()[id],
                self.swarm_map()[id],
                old(self).dims().0,
                old(self).dims().1,
            ) by {
                let a = choose|a: int| 0 <= a < o.len() && o[a].0 == id;
                lemma_entry(o, a);
                lemma_entry(s, a);
                assert(swarm_stepped(o[a].1, s[a].1, self.width, self.height));
            }
        }
        let end = clock_now();
        clock_since(&end, start)
    }
}

impl<S: SwarmEntity + Clone, B: BulletEntity + Clone> World<S, B> {
    /// A copy of every swarm and bullet, owned apart from the world.
    pub fn get_state(&self) -> (r: WorldState<S, B>)
        requires
            self.wf(),
        ensures
            r.swarms@.dom() == self.swarm_map().dom(),
            forall|id: usize| #[trigger]
                r.swarms@.contains_key(id) ==> cloned(self.swarm_map()[id], r.swarms@[id]),
            r.bullets@.len() == self.bullet_seq().len(),
            forall|i: int|
                0 <= i < r.bullets@.len() ==> cloned(self.bullet_seq()[i], #[trigger] r.bullets@[i]),
    {
        let mut swarms: HashMap<usize, S> = HashMap::new();
        let mut i: usize = 0;
        while i < self.swarms.len()
            invariant
                self.wf(),
                i <= self.swarms@.len(),
                swarms@.dom() == entry_map(self.swarms@.take(i as int)).dom(),
                forall|id: usize| #[trigger]
                    swarms@.contains_key(id) ==> cloned(self.swarm_map()[id], swarms@[id]),
            decreases self.swarms@.len() - i,
        {
            let id = self.swarms[i].0;
            let copy = self.swarms[i].1.clone();
            proof {
                lemma_entry(self.swarms@, i as int);
            }
            swarms.insert(id, copy);
            i += 1;
            proof {
                let t = self.swarms@.take(i as int);
                let p = self.swarms@.take(i - 1);
                assert forall|k: usize| has_id(t, k) <==> has_id(p, k) || k == id by {
                    if has_id(p, k) {
                        let a = choose|a: int| 0 <= a < p.len() && p[a].0 == k;
                        assert(t[a].0 == k);
                    }
                    if k == id {
                        assert(t[i - 1].0 == k);
                    }
                    if has_id(t, k) && k != id {
                        let a = choose|a: int| 0 <= a < t.len() && t[a].0 == k;
                        assert(p[a].0 == k);
                    }
                }
                assert(swarms@.dom() =~= entry_map(t).dom());
            }
        }
        assert(self.swarms@.take(self.swarms@.len() as int) =~= self.swarms@);
        let mut bullets: Vec<B> = Vec::new();
        let mut k: usize = 0;
        while k < self.bullets.len()
            invariant
                k <= self.bullets@.len(),
                bullets@.len() == k,
                forall|j: int| 0 <= j < k ==> cloned(self.bullets@[j], #[trigger] bullets@[j]),
            decreases self.bullets@.len() - k,
        {
            bullets.push(self.bullets[k].clone());
            k += 1;
        }
        WorldState { swarms, bullets }
    }
}

/// Removing a player twice leaves the same swarms as removing once, and neither leaves the
/// player in the world, whether or not the player was ever there.
pub proof fn remove_player_idempotent<S: SwarmEntity, B: BulletEntity>(world: World<S, B>, id: usize)
    ensures
        world.swarm_map().remove(id).remove(id) == world.swarm_map().remove(id),
        !world.swarm_map().remove(id).contains_key(id),
{
    assert(world.swarm_map().remove(id).remove(id) =~= world.swarm_map().remove(id));
}

} // verus!
