//! The hide-and-hunt state machine: pre-game, hiding, hunting and the
//! wrap back to pre-game; shooting, pinging, jumping, spawn placement,
//! map construction from the configuration, and the scoreboard.
use vstd::prelude::*;

use crate::entities::entity::{Entity, EntityId, EntityKind};
use crate::entities::player::{HunterState, Player, PlayerState, PropState};
use crate::game_config::{BuildingConfig, GameConfig, GroupConfig, MapObjectKind, ObjectConfig};
use crate::game_world::{entity_id_count, GameWorld};
use crate::geometry::{Frac, Ray, Rect, Vector, COORD_LIMIT, SIZE_LIMIT};
use crate::network::{ClientEvent, ClientHandle, ShootEvent};
use crate::wire::WireValue;

verus! {

/// How the simulation refuses an action.
#[derive(Debug)]
pub enum GameError {
    InvalidDeletion,
    MissingEntity,
    InvalidEntityKind,
    EntityNotSelectable,
    WrongPlayerState,
    MissingPlayerEntity,
    MissingPlayerKind,
    ShootingTooEarly,
    PingTooEarly,
}

/// The round's phase.
pub enum GameState {
    PreGame,
    Hiding,
    Hunting,
}

impl GameState {
    /// The stable wire tag of each state.
    pub fn state_tag(&self) -> (r: u8)
        ensures
            r == match self {
                GameState::PreGame => 0u8,
                GameState::Hiding => 1u8,
                GameState::Hunting => 2u8,
            },
    {
        match self {
            GameState::PreGame => 0,
            GameState::Hiding => 1,
            GameState::Hunting => 2,
        }
    }
}

/// One scoreboard row.
pub struct ScoreboardItem {
    pub entity_id: EntityId,
    pub is_prop: bool,
    pub username: String,
    pub score: u64,
}

/// Whether a wire value is one serialized scoreboard row.
pub open spec fn is_ser_scoreboard_item(w: WireValue, it: ScoreboardItem) -> bool {
    &&& w is Arr
    &&& w->Arr_0@.len() == 4
    &&& w->Arr_0@[0] == WireValue::U(it.entity_id)
    &&& w->Arr_0@[1] == WireValue::Bool(it.is_prop)
    &&& w->Arr_0@[2] is Str && w->Arr_0@[2]->Str_0@ == it.username@
    &&& w->Arr_0@[3] == WireValue::U(it.score)
}

impl ScoreboardItem {
    pub fn serialize(&self) -> (r: WireValue)
        ensures
            is_ser_scoreboard_item(r, *self),
    {
        let mut items: Vec<WireValue> = Vec::new();
        items.push(WireValue::U(self.entity_id));
        items.push(WireValue::Bool(self.is_prop));
        items.push(WireValue::Str(crate::game_config::clone_string(&self.username)));
        items.push(WireValue::U(self.score));
        WireValue::Arr(items)
    }

    pub fn duplicate(&self) -> (r: ScoreboardItem)
        ensures
            r.entity_id == self.entity_id,
            r.is_prop == self.is_prop,
            r.username@ == self.username@,
            r.score == self.score,
    {
        ScoreboardItem {
            entity_id: self.entity_id,
            is_prop: self.is_prop,
            username: crate::game_config::clone_string(&self.username),
            score: self.score,
        }
    }
}

/// Whether a wire value is a serialized scoreboard: the rows in order.
pub open spec fn is_ser_scoreboard(w: WireValue, items: Seq<ScoreboardItem>) -> bool {
    &&& w is Arr
    &&& w->Arr_0@.len() == items.len()
    &&& forall|i: int| 0 <= i < items.len() ==> is_ser_scoreboard_item(#[trigger] w->Arr_0@[i], items[i])
}

pub fn ser_scoreboard(items: &Vec<ScoreboardItem>) -> (r: WireValue)
    ensures
        is_ser_scoreboard(r, items@),
{
    let n = items.len();
    let mut rows: Vec<WireValue> = Vec::new();
    let mut i: usize = 0;
    while i < n
        invariant
            n == items@.len(),
            i <= n,
            rows@.len() == i,
            forall|j: int| 0 <= j < i ==> is_ser_scoreboard_item(#[trigger] rows@[j], items@[j]),
        decreases n - i,
    {
        rows.push(items[i].serialize());
        i += 1;
    }
    WireValue::Arr(rows)
}

/// How many of the shuffled players become hunters: the first two plus the
/// bottom fifth by shuffle order.
pub open spec fn spec_hunter_count(n: int) -> int {
    if n / 5 + 1 > 2 {
        n / 5 + 1
    } else {
        2
    }
}

/// Whether a shuffle position is a hunter slot: one of the first two or in
/// the bottom fifth.
pub open spec fn spec_is_hunter_slot(i: int, n: int) -> bool {
    i < 2 || i <= n / 5
}

/// A slot is a hunter slot exactly when it lies below the hunter count.
pub proof fn lemma_hunter_slots(i: int, n: int)
    requires
        0 <= i < n,
        n >= 0,
    ensures
        spec_is_hunter_slot(i, n) == (i < spec_hunter_count(n)),
{
}

/// The ray a shot travels: from the shooter's position moved by the
/// configured shoot offset rotated by the facing, towards the target, with
/// the fixed reach.
pub open spec fn spec_shoot_ray(origin: Vector, face_dir: i64, target: Vector, config: &GameConfig) -> Ray {
    let ox = origin.x + crate::utils::spec_rot_x(
        config.player.shoot_pos.x as int,
        config.player.shoot_pos.y as int,
        face_dir as int,
    );
    let oy = origin.y + crate::utils::spec_rot_y(
        config.player.shoot_pos.x as int,
        config.player.shoot_pos.y as int,
        face_dir as int,
    );
    let oz = origin.z + config.player.shoot_pos.z;
    let start = Vector { x: ox as i64, y: oy as i64, z: oz as i64 };
    Ray {
        origin: start,
        dir: Vector {
            x: (target.x - start.x) as i64,
            y: (target.y - start.y) as i64,
            z: (target.z - start.z) as i64,
        },
        length: SHOOT_RANGE,
    }
}

/// How far a shot reaches, in milli-units.
pub const SHOOT_RANGE: i64 = 1_000_000;

/// Builds the shot ray for a shooter at `origin` facing `face_dir` towards
/// `target`; nothing is built when the target coincides with the shot
/// origin, which leaves no direction to cast in.
pub fn shoot_ray(origin: &Vector, face_dir: i64, target: &Vector, config: &GameConfig) -> (r:
    Option<Ray>)
    requires
        config.wf(),
        origin.bounded(COORD_LIMIT as i64),
        target.bounded(COORD_LIMIT as i64),
        -1_000_000_000 <= face_dir <= 1_000_000_000,
    ensures
        match r {
            Some(ray) => ray == spec_shoot_ray(*origin, face_dir, *target, config) && ray.wf(),
            None => {
                let ray = spec_shoot_ray(*origin, face_dir, *target, config);
                ray.dir.x == 0 && ray.dir.y == 0 && ray.dir.z == 0
            },
        },
{
    let (rx, ry) = crate::utils::rotate_offset_milli(
        config.player.shoot_pos.x,
        config.player.shoot_pos.y,
        face_dir,
    );
    let start = Vector::new(origin.x + rx, origin.y + ry, origin.z + config.player.shoot_pos.z);
    let dir = Vector::new(target.x - start.x, target.y - start.y, target.z - start.z);
    if dir.x == 0 && dir.y == 0 && dir.z == 0 {
        return None;
    }
    Some(Ray::new(start, dir, SHOOT_RANGE))
}

/// Milliseconds between ticks: about fifteen a second.
pub const UPDATE_DELAY_MS: u64 = 66;

/// Which of the shuffled players become hunters: index `i` of `n` is a
/// hunter exactly when it is one of the first two or within the bottom
/// fifth by shuffle order.
pub fn assign_roles(n: usize) -> (r: Vec<bool>)
    requires
        n <= 1_000_000,
    ensures
        r@.len() == n,
        forall|i: int| 0 <= i < n ==> r@[i] == spec_is_hunter_slot(i, n as int),
{
    let mut r: Vec<bool> = Vec::new();
    let mut i: usize = 0;
    while i < n
        invariant
            n <= 1_000_000,
            i <= n,
            r@.len() == i,
            forall|j: int| 0 <= j < i ==> r@[j] == spec_is_hunter_slot(j, n as int),
        decreases n - i,
    {
        r.push(i < 2 || i <= n / 5);
        i += 1;
    }
    r
}

/// Whether the round ends and who wins: the props win when no hunter is
/// left or the clock runs out, the hunters win when no prop is left.
pub fn round_outcome(has_props: bool, has_hunters: bool, timer_expired: bool) -> (r: Option<bool>)
    ensures
        r == if !has_props {
            Some(false)
        } else if !has_hunters {
            Some(true)
        } else if timer_expired {
            Some(true)
        } else {
            None::<bool>
        },
{
    if !has_props {
        Some(false)
    } else if !has_hunters {
        Some(true)
    } else if timer_expired {
        Some(true)
    } else {
        None
    }
}

/// One running game: the state machine, the world, the sessions, and the
/// per-tick broadcast buffer.
pub struct Game {
    pub state: GameState,
    /// Time left in the current state, milliseconds.
    pub state_timer_ms: u64,
    pub world: GameWorld,
    pub clients: Vec<(crate::network::ClientId, ClientHandle)>,
    pub client_counter: crate::utils::Counter,
    pub client_events: Vec<ClientEvent>,
    pub cached_minimap: WireValue,
    pub minimap_changed: bool,
}

impl Game {
    pub open spec fn wf(&self) -> bool {
        &&& self.world.wf()
        &&& forall|i: int| 0 <= i < self.clients@.len() ==> (#[trigger] self.clients@[i]).1.wf()
    }

    /// A fresh game on a fresh map, in the pre-game state.
    pub fn new(config: &GameConfig) -> (g: Game)
        requires
            config.wf(),
        ensures
            g.wf(),
            g.state is PreGame,
            g.state_timer_ms == 10_000,
            g.clients@.len() == 0,
    {
        let mut g = Game {
            state: GameState::PreGame,
            state_timer_ms: 0,
            world: GameWorld::new(config),
            clients: Vec::new(),
            client_counter: crate::utils::Counter::new(0, 1),
            client_events: Vec::new(),
            cached_minimap: WireValue::Arr(Vec::new()),
            minimap_changed: false,
        };
        g.init_map(config);
        g.state = GameState::PreGame;
        g.state_timer_ms = 10_000;
        g
    }

    /// How many clients currently own a player entity.
    pub fn joined_player_count(&self) -> (r: usize)
        ensures
            r <= self.clients@.len(),
    {
        let n = self.clients.len();
        let mut count: usize = 0;
        let mut i: usize = 0;
        while i < n
            invariant
                n == self.clients@.len(),
                i <= n,
                count <= i,
            decreases n - i,
        {
            if self.clients[i].1.player_id.is_some() {
                count += 1;
            }
            i += 1;
        }
        count
    }

    /// Switches to the pre-game state: ten seconds on the previous map,
    /// with every joined player forced back to the hunter role and any
    /// spectator focus cleared.
    pub fn set_pre_game_state(&mut self, config: &GameConfig)
        requires
            old(self).wf(),
            config.wf(),
        ensures
            final(self).wf(),
            final(self).state is PreGame,
            final(self).state_timer_ms == 10_000,
            forall|i: int|
                0 <= i < final(self).clients@.len() ==> (
                #[trigger] final(self).clients@[i]).1.spectating_id is None,
            final(self).clients@.len() == old(self).clients@.len(),
            // Every mounted player comes back as a hunter at full health.
            forall|j: int, q: int|
                0 <= j < old(self).clients@.len() && 0 <= q < final(self).world.entities@.len()
                    && (#[trigger] old(self).clients@[j]).1.player_id == Some(
                    (#[trigger] final(self).world.entities@[q]).id,
                ) && final(self).world.entities@[q].kind is Player ==> final(self).world.entities@[q].kind->Player_0.state is Hunter
                    && final(self).world.entities@[q].health.value == 1000,
    {
        let n = self.clients.len();
        let mut i: usize = 0;
        while i < n
            invariant
                self.wf(),
                config.wf(),
                n == self.clients@.len(),
                n == old(self).clients@.len(),
                i <= n,
                forall|j: int|
                    0 <= j < i ==> (#[trigger] self.clients@[j]).1.spectating_id is None,
                forall|j: int|
                    0 <= j < n ==> (#[trigger] self.clients@[j]).1.player_id == old(
                        self,
                    ).clients@[j].1.player_id,
                forall|j: int, q: int|
                    0 <= j < i && 0 <= q < self.world.entities@.len() && (#[trigger] old(
                        self,
                    ).clients@[j]).1.player_id == Some(
                        (#[trigger] self.world.entities@[q]).id,
                    ) && self.world.entities@[q].kind is Player
                        ==> self.world.entities@[q].kind->Player_0.state is Hunter
                        && self.world.entities@[q].health.value == 1000,
            decreases n - i,
        {
            let ghost pre = self.clients@;
            let pid = self.clients[i].1.player_id;
            if let Some(player_id) = pid {
                let ghost mid = self.world.entities@;
                self.set_player_state_by_id(player_id, true, 0, config);
                proof {
                    assert forall|j: int, q: int|
                        0 <= j < i + 1 && 0 <= q < self.world.entities@.len() && (#[trigger] old(
                            self,
                        ).clients@[j]).1.player_id == Some(
                            (#[trigger] self.world.entities@[q]).id,
                        ) && self.world.entities@[q].kind is Player implies
                        self.world.entities@[q].kind->Player_0.state is Hunter
                            && self.world.entities@[q].health.value == 1000 by {
                        if mid[q].id == player_id {
                            if !(mid[q].kind is Player) {
                                assert(self.world.entities@[q].kind == mid[q].kind);
                            }
                        } else {
                            assert(self.world.entities@[q] == mid[q]);
                        }
                    }
                }
            }
            let c = &mut self.clients[i];
            c.1.spectating_id = None;
            i += 1;
        }
        self.state = GameState::PreGame;
        self.state_timer_ms = 10_000;
    }

    /// Tries to begin hiding: with fewer than four joined players the
    /// timer merely resets and the state stays pre-game; otherwise the map
    /// is rebuilt, the shuffled players split into hunters and props, and
    /// fifteen seconds of hiding begin.
    pub fn set_hiding_state(&mut self, now: u64, config: &GameConfig) -> (roster: Ghost<
        Seq<(u64, u64)>,
    >)
        requires
            old(self).wf(),
            config.wf(),
            old(self).clients@.len() <= 1_000_000,
        ensures
            final(self).wf(),
            // Hiding never begins with fewer than four joined players:
            // only the wait timer restarts.
            old(self).spec_joined_count() < 4 ==> *final(self) == (Game {
                state_timer_ms: 10_000,
                ..*old(self)
            }),
            old(self).spec_joined_count() >= 4 ==> {
                &&& final(self).state is Hiding
                &&& final(self).state_timer_ms == 15_000
                &&& final(self).clients == old(self).clients
                // The roster is the joined players in shuffle order.
                &&& roster@.len() == old(self).spec_joined_count()
                &&& forall|k: int|
                    0 <= k < roster@.len() ==> exists|j: int|
                        0 <= j < old(self).clients@.len() && (#[trigger] old(
                            self,
                        ).clients@[j]).0 == (#[trigger] roster@[k]).0 && old(
                            self,
                        ).clients@[j].1.player_id == Some(roster@[k].1)
                // With each player mounted once, the roster's slot decides
                // the role: full health, hunter exactly on a hunter slot.
                &&& (forall|k1: int, k2: int|
                    0 <= k1 < k2 < roster@.len() ==> (#[trigger] roster@[k1]).1 != (
                    #[trigger] roster@[k2]).1) ==> forall|k: int, q: int|
                    0 <= k < roster@.len() && 0 <= q < final(self).world.entities@.len() && (
                    #[trigger] final(self).world.entities@[q]).id == (
                    #[trigger] roster@[k]).1 && final(self).world.entities@[q].kind is Player
                        ==> final(self).world.entities@[q].health.value == 1000 && (final(self).world.entities@[q].kind->Player_0.state is Hunter
                        <==> spec_is_hunter_slot(k, roster@.len() as int))
            },
    {
        // Gather the joined players.
        let mut players_in_game: Vec<(u64, u64)> = Vec::new();
        let n = self.clients.len();
        let mut i: usize = 0;
        while i < n
            invariant
                self.wf(),
                n == self.clients@.len(),
                i <= n,
                players_in_game@.len() == spec_joined_prefix(self.clients@, i as int),
                *self == *old(self),
                forall|p: int|
                    0 <= p < players_in_game@.len() ==> exists|j: int|
                        0 <= j < self.clients@.len() && (#[trigger] self.clients@[j]).0 == (
                        #[trigger] players_in_game@[p]).0 && self.clients@[j].1.player_id == Some(
                            players_in_game@[p].1,
                        ),
            decreases n - i,
        {
            let c = &self.clients[i];
            if let Some(pid) = c.1.player_id {
                let ghost prev = players_in_game@;
                players_in_game.push((c.0, pid));
                proof {
                    assert forall|p: int| 0 <= p < players_in_game@.len() implies exists|j: int|
                        0 <= j < self.clients@.len() && (#[trigger] self.clients@[j]).0 == (
                        #[trigger] players_in_game@[p]).0 && self.clients@[j].1.player_id == Some(
                            players_in_game@[p].1,
                        ) by {
                        if p < prev.len() {
                            assert(players_in_game@[p] == prev[p]);
                        } else {
                            assert(players_in_game@[p] == (self.clients@[i as int].0, pid));
                            assert((i as int) < self.clients@.len() && self.clients@[i as int].0
                                == players_in_game@[p].0 && self.clients@[i as int].1.player_id
                                == Some(players_in_game@[p].1));
                        }
                    }
                }
            }
            i += 1;
        }
        proof {
            lemma_joined_prefix_full(self.clients@, n as int);
        }
        let ghost pre_shuffle = players_in_game@;
        crate::utils::shuffle_pairs(&mut players_in_game);
        let ghost roster_seq = players_in_game@;
        proof {
            broadcast use vstd::seq_lib::group_to_multiset_ensures;

            assert forall|p: int| 0 <= p < roster_seq.len() implies exists|j: int|
                0 <= j < self.clients@.len() && (#[trigger] self.clients@[j]).0 == (
                #[trigger] roster_seq[p]).0 && self.clients@[j].1.player_id == Some(
                    roster_seq[p].1,
                ) by {
                assert(roster_seq.to_multiset().contains(roster_seq[p]));
                assert(pre_shuffle.to_multiset().contains(roster_seq[p]));
                assert(pre_shuffle.contains(roster_seq[p]));
                let pp = choose|pp: int|
                    0 <= pp < pre_shuffle.len() && pre_shuffle[pp] == roster_seq[p];
                assert(pre_shuffle[pp] == roster_seq[p]);
            }
        }

        // Check if there are enough players.
        let player_count = players_in_game.len();
        if player_count < 4 {
            // Wait another ten seconds for more players to join.
            self.state_timer_ms = 10_000;
            return Ghost(roster_seq);
        }

        // Rebuild the map; players survive the rebuild.
        self.init_map(config);

        // Assign the player roles by shuffle order and reset health.
        let ghost distinct = forall|k1: int, k2: int|
            0 <= k1 < k2 < roster_seq.len() ==> (#[trigger] roster_seq[k1]).1 != (
            #[trigger] roster_seq[k2]).1;
        let roles = assign_roles(player_count);
        let mut k: usize = 0;
        while k < player_count
            invariant
                self.wf(),
                config.wf(),
                player_count == players_in_game@.len(),
                players_in_game@ == roster_seq,
                roles@.len() == player_count,
                k <= player_count,
                self.state == old(self).state,
                self.clients == old(self).clients,
                distinct == (forall|k1: int, k2: int|
                    0 <= k1 < k2 < roster_seq.len() ==> (#[trigger] roster_seq[k1]).1 != (
                    #[trigger] roster_seq[k2]).1),
                forall|p: int|
                    0 <= p < roles@.len() ==> roles@[p] == spec_is_hunter_slot(
                        p,
                        player_count as int,
                    ),
                distinct ==> forall|kk: int, q: int|
                    0 <= kk < k && 0 <= q < self.world.entities@.len() && (
                    #[trigger] self.world.entities@[q]).id == (#[trigger] roster_seq[kk]).1
                        && self.world.entities@[q].kind is Player
                        ==> self.world.entities@[q].health.value == 1000 && (
                    self.world.entities@[q].kind->Player_0.state is Hunter <==> spec_is_hunter_slot(
                        kk,
                        player_count as int,
                    )),
            decreases player_count - k,
        {
            let (_, player_id) = players_in_game[k];
            let ghost mid = self.world.entities@;
            self.set_player_state_by_id(player_id, roles[k], now, config);
            proof {
                if distinct {
                    assert forall|kk: int, q: int|
                        0 <= kk < k + 1 && 0 <= q < self.world.entities@.len() && (
                        #[trigger] self.world.entities@[q]).id == (#[trigger] roster_seq[kk]).1
                            && self.world.entities@[q].kind is Player implies
                        self.world.entities@[q].health.value == 1000 && (
                        self.world.entities@[q].kind->Player_0.state is Hunter
                            <==> spec_is_hunter_slot(kk, player_count as int)) by {
                        if mid[q].id == player_id {
                            // This very slot was just assigned.
                            assert(roster_seq[k as int].1 == player_id);
                            if kk < k {
                                assert(roster_seq[kk].1 != roster_seq[k as int].1);
                            }
                            assert(kk == k as int);
                            if mid[q].kind is Player {
                            } else {
                                assert(self.world.entities@[q].kind == mid[q].kind);
                            }
                        } else {
                            // Untouched by this assignment.
                            assert(self.world.entities@[q] == mid[q]);
                            assert(kk != k as int);
                        }
                    }
                }
            }
            k += 1;
        }

        // Reposition the players on the spawn ring.
        let ghost before_spawn = self.world.entities@;
        self.move_players_to_spawn();
        proof {
            if distinct {
                assert forall|kk: int, q: int|
                    0 <= kk < player_count && 0 <= q < self.world.entities@.len() && (
                    #[trigger] self.world.entities@[q]).id == (#[trigger] roster_seq[kk]).1
                        && self.world.entities@[q].kind is Player implies
                    self.world.entities@[q].health.value == 1000 && (
                    self.world.entities@[q].kind->Player_0.state is Hunter <==> spec_is_hunter_slot(
                        kk,
                        player_count as int,
                    )) by {
                    assert(before_spawn[q].id == self.world.entities@[q].id);
                    assert(before_spawn[q].kind is Player);
                    assert(self.world.entities@[q].kind->Player_0.state
                        == before_spawn[q].kind->Player_0.state);
                    assert(self.world.entities@[q].health == before_spawn[q].health);
                }
            }
        }

        self.state = GameState::Hiding;
        self.state_timer_ms = 15_000;
        Ghost(roster_seq)
    }

    /// How many clients own a player, at spec level.
    pub open spec fn spec_joined_count(&self) -> int {
        spec_joined_prefix(self.clients@, self.clients@.len() as int)
    }

    /// Switches to hunting: five minutes of damage-enabled play.
    pub fn set_hunting_state(&mut self)
        requires
            old(self).wf(),
        ensures
            final(self).wf(),
            final(self).state is Hunting,
            final(self).state_timer_ms == 300_000,
            final(self).world == old(self).world,
            final(self).clients == old(self).clients,
    {
        self.state = GameState::Hunting;
        self.state_timer_ms = 300_000;
    }

    /// Ends the round: emits the final scoreboard to every joined client
    /// and drops straight back into the pre-game state.
    pub fn finish_game(&mut self, props_win: bool, config: &GameConfig) -> (results: Vec<
        (crate::network::ClientId, Vec<u8>),
    >)
        requires
            old(self).wf(),
            config.wf(),
        ensures
            final(self).wf(),
            final(self).state is PreGame,
            final(self).state_timer_ms == 10_000,
            // Every result goes to a client that had a player in the round.
            forall|p: int|
                0 <= p < results@.len() ==> spec_joined_client(
                    old(self).clients@,
                    (#[trigger] results@[p]).0,
                ),
            // And every client whose player still stands gets its results.
            forall|j: int|
                0 <= j < old(self).clients@.len() && (#[trigger] old(
                    self,
                ).clients@[j]).1.player_id is Some && (exists|q: int|
                    0 <= q < old(self).world.entities@.len() && (#[trigger] old(
                        self,
                    ).world.entities@[q]).id == old(self).clients@[j].1.player_id->0 && old(
                        self,
                    ).world.entities@[q].kind is Player) ==> exists|p: int|
                    0 <= p < results@.len() && (#[trigger] results@[p]).0 == old(
                        self,
                    ).clients@[j].0,
    {
        let scoreboard = self.calculate_scoreboard(Some(props_win), config);
        let scoreboard_value = ser_scoreboard(&scoreboard);
        let mut results: Vec<(crate::network::ClientId, Vec<u8>)> = Vec::new();
        let n = self.clients.len();
        let mut i: usize = 0;
        while i < n
            invariant
                self.wf(),
                config.wf(),
                n == self.clients@.len(),
                i <= n,
                *self == *old(self),
                forall|p: int|
                    0 <= p < results@.len() ==> spec_joined_client(
                        self.clients@,
                        (#[trigger] results@[p]).0,
                    ),
                forall|j: int|
                    0 <= j < i && (#[trigger] self.clients@[j]).1.player_id is Some && (exists|
                        q: int,
                    |
                        0 <= q < self.world.entities@.len() && (
                        #[trigger] self.world.entities@[q]).id
                            == self.clients@[j].1.player_id->0 && self.world.entities@[q].kind
                            is Player) ==> exists|p: int|
                        0 <= p < results@.len() && (#[trigger] results@[p]).0
                            == self.clients@[j].0,
            decreases n - i,
        {
            let ghost pre_iter_results = results@;
            let c = &self.clients[i];
            if let Some(player_id) = c.1.player_id {
                // Find this player's placement on the sorted board.
                let mut placement: Option<u64> = None;
                let m = scoreboard.len();
                let mut j: usize = 0;
                while j < m
                    invariant
                        m == scoreboard@.len(),
                        j <= m,
                    decreases m - j,
                {
                    if scoreboard[j].entity_id == player_id {
                        placement = Some(j as u64);
                    }
                    j += 1;
                }
                // Build the breakdown from the player's counters.
                match self.world.entity_index_with_id(player_id) {
                    Some(idx) => {
                        proof {
                            assert(self.world.entities@[idx as int].wf());
                            crate::game_world::lemma_entity_id_count_at_least_one(
                                self.world.entities@,
                                player_id,
                                idx as int,
                            );
                            crate::game_world::lemma_entity_unique_index(
                                self.world.entities@,
                                idx as int,
                                player_id,
                            );
                        }
                        match &self.world.entities[idx].kind {
                            EntityKind::Player(p) => {
                                let is_prop = match p.state {
                                    PlayerState::Prop(_) => true,
                                    PlayerState::Hunter(_) => false,
                                };
                                let breakdown = score_breakdown_value(
                                    &p.score_counter,
                                    placement,
                                    is_prop == props_win,
                                    config,
                                );
                                let mut body: Vec<WireValue> = Vec::new();
                                body.push(WireValue::Bool(props_win));
                                body.push(crate::network::clone_wire(&scoreboard_value));
                                body.push(breakdown);
                                let bytes = crate::wire::encode_message(5, WireValue::Arr(body));
                                let ghost prev_r = results@;
                                results.push((c.0, bytes));
                                proof {
                                    assert forall|p: int| 0 <= p < results@.len() implies
                                        spec_joined_client(
                                        self.clients@,
                                        (#[trigger] results@[p]).0,
                                    ) by {
                                        if p < prev_r.len() {
                                            assert(results@[p] == prev_r[p]);
                                        } else {
                                            assert(results@[p].0 == self.clients@[i as int].0);
                                            assert((i as int) < self.clients@.len()
                                                && self.clients@[i as int].0 == results@[p].0
                                                && self.clients@[i as int].1.player_id is Some);
                                        }
                                    }
                                    assert forall|j: int|
                                        0 <= j < i + 1 && (
                                        #[trigger] self.clients@[j]).1.player_id is Some && (
                                    exists|q: int|
                                        0 <= q < self.world.entities@.len() && (
                                        #[trigger] self.world.entities@[q]).id
                                            == self.clients@[j].1.player_id->0
                                            && self.world.entities@[q].kind is Player) implies
                                        exists|p: int|
                                        0 <= p < results@.len() && (#[trigger] results@[p]).0
                                            == self.clients@[j].0 by {
                                        if j < i as int {
                                            let p0 = choose|p0: int|
                                                0 <= p0 < prev_r.len() && (
                                                #[trigger] prev_r[p0]).0 == self.clients@[j].0;
                                            assert(results@[p0] == prev_r[p0]);
                                        } else {
                                            assert(results@[results@.len() - 1].0
                                                == self.clients@[i as int].0);
                                        }
                                    }
                                }
                            },
                            EntityKind::Prop(_) => {
                                proof {
                                    // The mounted id resolves to a prop, so
                                    // no player entity carries it.
                                    assert(!(exists|q: int|
                                        0 <= q < self.world.entities@.len() && (
                                        #[trigger] self.world.entities@[q]).id == player_id
                                            && self.world.entities@[q].kind is Player)) by {
                                        if exists|q: int|
                                            0 <= q < self.world.entities@.len() && (
                                            #[trigger] self.world.entities@[q]).id == player_id
                                                && self.world.entities@[q].kind is Player {
                                            let q = choose|q: int|
                                                0 <= q < self.world.entities@.len() && (
                                                #[trigger] self.world.entities@[q]).id
                                                    == player_id
                                                    && self.world.entities@[q].kind is Player;
                                            assert(q == idx as int);
                                        }
                                    }
                                }
                            },
                        }
                    },
                    None => {},
                }
            }
            i += 1;
        }
        self.set_pre_game_state(config);
        results
    }

    /// Counts down the state timer and fires the transition when it
    /// reaches zero: pre-game begins hiding, hiding begins hunting, and a
    /// hunting clock running out is a props win.
    pub fn tick_state_timer(&mut self, dt_ms: u64, now: u64, config: &GameConfig) -> (results: Vec<
        (crate::network::ClientId, Vec<u8>),
    >)
        requires
            old(self).wf(),
            config.wf(),
            old(self).clients@.len() <= 1_000_000,
        ensures
            final(self).wf(),
            // Short of the deadline only the clock moves.
            old(self).state_timer_ms > dt_ms ==> *final(self) == (Game {
                state_timer_ms: (old(self).state_timer_ms - dt_ms) as u64,
                ..*old(self)
            }) && results@.len() == 0,
            // At the deadline the phase advances: the pre-game tries to
            // start hiding, hiding becomes the hunt, and an expired hunt
            // ends the round in the props' favour.
            old(self).state_timer_ms <= dt_ms ==> match old(self).state {
                GameState::PreGame => {
                    &&& (old(self).spec_joined_count() < 4 ==> final(self).state is PreGame
                        && final(self).state_timer_ms == 10_000)
                    &&& (old(self).spec_joined_count() >= 4 ==> final(self).state is Hiding
                        && final(self).state_timer_ms == 15_000)
                    &&& results@.len() == 0
                },
                GameState::Hiding => final(self).state is Hunting && final(self).state_timer_ms
                    == 300_000,
                GameState::Hunting => final(self).state is PreGame && final(self).state_timer_ms
                    == 10_000,
            },
    {
        if self.state_timer_ms > dt_ms {
            self.state_timer_ms = self.state_timer_ms - dt_ms;
            Vec::new()
        } else {
            self.state_timer_ms = 0;
            match self.state {
                GameState::PreGame => {
                    let _ = self.set_hiding_state(now, config);
                    Vec::new()
                },
                GameState::Hiding => {
                    self.set_hunting_state();
                    Vec::new()
                },
                GameState::Hunting => self.finish_game(true, config),
            }
        }
    }

    /// Pins every hiding hunter to its spawn anchor: position reset and
    /// velocity zeroed, every tick of the hiding phase.
    pub fn pin_hiding_hunters(&mut self)
        requires
            old(self).wf(),
            old(self).state is Hiding,
        ensures
            final(self).wf(),
            final(self).state == old(self).state,
            final(self).state_timer_ms == old(self).state_timer_ms,
            final(self).clients == old(self).clients,
            final(self).client_events == old(self).client_events,
            final(self).world.entities@.len() == old(self).world.entities@.len(),
            // Nothing but the hunters moves, and a hunter only moves: its
            // id, kind and health are untouched.
            forall|i: int|
                0 <= i < old(self).world.entities@.len() ==> {
                    let oe = #[trigger] old(self).world.entities@[i];
                    let ne = final(self).world.entities@[i];
                    &&& ne.id == oe.id
                    &&& ne.kind == oe.kind
                    &&& ne.health == oe.health
                    &&& (!(oe.kind is Player && oe.kind->Player_0.state is Hunter) ==> ne == oe)
                },
            // Every hunter sits exactly on its spawn anchor with no
            // velocity.
            forall|i: int|
                0 <= i < final(self).world.entities@.len() ==> match (
                #[trigger] final(self).world.entities@[i]).kind {
                    EntityKind::Player(p) => p.state is Hunter
                        ==> final(self).world.entities@[i].body.position.value == p.spawn_pos
                        && final(self).world.entities@[i].body.velocity.value == (Vector {
                        x: 0i64,
                        y: 0i64,
                        z: 0i64,
                    }),
                    EntityKind::Prop(_) => true,
                },
    {
        let n = self.world.entities.len();
        let mut i: usize = 0;
        while i < n
            invariant
                self.wf(),
                n == self.world.entities@.len(),
                i <= n,
                self.state == old(self).state,
                self.state_timer_ms == old(self).state_timer_ms,
                self.clients == old(self).clients,
                self.cached_minimap == old(self).cached_minimap,
                self.client_events == old(self).client_events,
                n == old(self).world.entities@.len(),
                forall|j: int|
                    0 <= j < n ==> {
                        let oe = #[trigger] old(self).world.entities@[j];
                        let ne = self.world.entities@[j];
                        &&& ne.id == oe.id
                        &&& ne.kind == oe.kind
                        &&& ne.health == oe.health
                        &&& (!(oe.kind is Player && oe.kind->Player_0.state is Hunter) ==> ne
                            == oe)
                    },
                forall|j: int|
                    0 <= j < i ==> match (#[trigger] self.world.entities@[j]).kind {
                        EntityKind::Player(p) => p.state is Hunter
                            ==> self.world.entities@[j].body.position.value == p.spawn_pos
                            && self.world.entities@[j].body.velocity.value == (Vector {
                            x: 0i64,
                            y: 0i64,
                            z: 0i64,
                        }),
                        EntityKind::Prop(_) => true,
                    },
            decreases n - i,
        {
            let ghost pre = self.world.entities@;
            let is_hiding_hunter = match &self.world.entities[i].kind {
                EntityKind::Player(p) => match p.state {
                    PlayerState::Hunter(_) => true,
                    PlayerState::Prop(_) => false,
                },
                EntityKind::Prop(_) => false,
            };
            if is_hiding_hunter {
                let spawn = match &self.world.entities[i].kind {
                    EntityKind::Player(p) => *p.spawn_pos(),
                    EntityKind::Prop(_) => Vector::new(0, 0, 0),
                };
                proof {
                    assert(self.world.entities@[i as int].wf());
                }
                let e = &mut self.world.entities[i];
                e.body.set_pos(spawn);
                e.body.set_vel(Vector::new(0, 0, 0));
            }
            proof {
                assert forall|id: EntityId| #[trigger]
                    crate::game_world::entity_id_count(self.world.entities@, id)
                        == crate::game_world::entity_id_count(pre, id) by {
                    crate::game_world::lemma_entity_id_count_update(
                        pre,
                        i as int,
                        self.world.entities@[i as int],
                        id,
                    );
                }
            }
            i += 1;
        }
    }

    /// Sets one player's role: health back to full, the role's prefab and
    /// facing behaviour applied, and the role's timers seeded.
    pub fn set_player_state_by_id(
        &mut self,
        player_id: EntityId,
        hunter: bool,
        now: u64,
        config: &GameConfig,
    )
        requires
            old(self).wf(),
            config.wf(),
        ensures
            final(self).wf(),
            final(self).state == old(self).state,
            final(self).state_timer_ms == old(self).state_timer_ms,
            final(self).clients == old(self).clients,
            final(self).client_events == old(self).client_events,
            final(self).world.entities@.len() == old(self).world.entities@.len(),
            // Only the chosen player's entity changes.
            forall|q: int|
                0 <= q < old(self).world.entities@.len() && old(self).world.entities@[q].id
                    != player_id ==> (#[trigger] final(self).world.entities@[q]) == old(
                    self,
                ).world.entities@[q],
            // A non-player entity that happens to carry the id keeps its
            // kind: roles only ever change players.
            forall|q: int|
                0 <= q < old(self).world.entities@.len() && (
                #[trigger] old(self).world.entities@[q]).id == player_id && !(old(
                    self,
                ).world.entities@[q].kind is Player) ==> final(self).world.entities@[q].kind
                    == old(self).world.entities@[q].kind && final(self).world.entities@[q].id
                    == player_id,
            // The chosen player takes the role at full health, with the
            // role's timers seeded: hunters may shoot at once, props get a
            // ping drawn from their volume's range.
            forall|q: int|
                0 <= q < old(self).world.entities@.len() && (
                #[trigger] old(self).world.entities@[q]).id == player_id && old(
                    self,
                ).world.entities@[q].kind is Player ==> {
                    let oe = old(self).world.entities@[q];
                    let ne = final(self).world.entities@[q];
                    &&& ne.id == player_id
                    &&& ne.kind is Player
                    &&& ne.health.value == 1000
                    &&& (hunter ==> ne.kind->Player_0.state is Hunter
                        && ne.kind->Player_0.state->Hunter_0.last_shoot_time == 0)
                    &&& (!hunter ==> ne.kind->Player_0.state is Prop
                        && ne.kind->Player_0.state->Prop_0.last_ping_time == 0 && exists|d: u64|
                        {
                            let range = Player::spec_ping_range(
                                crate::utils::spec_cbrt(
                                    crate::game_config::sum_volumes(oe.body.rects.value@) as nat,
                                ) as int,
                                config,
                            );
                            range.0 <= d as int <= range.1
                                && ne.kind->Player_0.state->Prop_0.next_ping_time == #[trigger]
                            crate::utils::spec_sat_u64(now + d)
                        })
                    // The role's prefab shaped the entity, whenever the
                    // configuration holds one under the role's id.
                    &&& ((exists|pi2: int|
                        0 <= pi2 < config.prefabs@.len() && (
                        #[trigger] config.prefabs@[pi2]).id@ == ne.kind.spec_prefab_id(config))
                        ==> exists|pi2: int|
                        0 <= pi2 < config.prefabs@.len() && (
                        #[trigger] config.prefabs@[pi2]).id@ == ne.kind.spec_prefab_id(config)
                            && ne.body.rects.value@ == config.prefabs@[pi2].rects@
                            && ne.asset.value@ == (if config.prefabs@[pi2].asset is Some {
                            config.prefabs@[pi2].asset->0@
                        } else {
                            config.prefabs@[pi2].id@
                        }))
                },
    {
        let idx = match self.world.entity_index_with_id(player_id) {
            Some(i) => i,
            None => {
                return ;
            },
        };
        proof {
            assert(self.world.entities@[idx as int].wf());
            crate::game_world::lemma_entity_id_count_at_least_one(
                self.world.entities@,
                player_id,
                idx as int,
            );
            assert forall|q: int|
                0 <= q < self.world.entities@.len() && (
                #[trigger] self.world.entities@[q]).id == player_id implies q == idx as int by {
                if q < idx as int {
                    lemma_two_count(self.world.entities@, q, idx as int, player_id);
                } else if q > idx as int {
                    lemma_two_count(self.world.entities@, idx as int, q, player_id);
                }
            }
        }
        let ghost pre = self.world.entities@;

        // Reset the health and the role.
        let volume = self.world.entities[idx].body.volume();
        let next_ping = if hunter {
            0
        } else {
            let delay = Player::prop_ping_delay(volume, config);
            crate::utils::sat_add_u64(now, delay)
        };
        let e = &mut self.world.entities[idx];
        e.set_health(1000);
        match &mut e.kind {
            EntityKind::Player(p) => {
                if hunter {
                    p.set_state(PlayerState::Hunter(HunterState::new()));
                } else {
                    let mut ps = PropState::new();
                    ps.next_ping_time = next_ping;
                    p.set_state(PlayerState::Prop(ps));
                }
            },
            EntityKind::Prop(_) => {},
        }
        let uses_dir = e.kind.uses_dir();
        e.set_uses_dir(uses_dir);
        proof {
            assert forall|id: EntityId| #[trigger]
                crate::game_world::entity_id_count(self.world.entities@, id)
                    == crate::game_world::entity_id_count(pre, id) by {
                crate::game_world::lemma_entity_id_count_update(
                    pre,
                    idx as int,
                    self.world.entities@[idx as int],
                    id,
                );
            }
        }

        // Apply the role's prefab.
        let prefab_id = match self.world.entity_index_with_id(player_id) {
            Some(i2) => self.world.entities[i2].kind.prefab_id(config),
            None => {
                proof {
                    let w = crate::game_world::lemma_entity_count_witness(
                        self.world.entities@,
                        player_id,
                    );
                }
                return ;
            },
        };
        let prefab = match config.prefab_with_id(&prefab_id) {
            Some(p) => p.duplicate(),
            None => {
                return ;
            },
        };
        match self.world.entity_index_with_id(player_id) {
            Some(i3) => {
                proof {
                    assert(self.world.entities@[i3 as int].wf());
                    crate::game_world::lemma_entity_id_count_at_least_one(
                        self.world.entities@,
                        player_id,
                        i3 as int,
                    );
                }
                let ghost pre2 = self.world.entities@;
                let e = &mut self.world.entities[i3];
                e.apply_prefab(&prefab);
                proof {
                    assert forall|id: EntityId| #[trigger]
                        crate::game_world::entity_id_count(self.world.entities@, id)
                            == crate::game_world::entity_id_count(pre2, id) by {
                        crate::game_world::lemma_entity_id_count_update(
                            pre2,
                            i3 as int,
                            self.world.entities@[i3 as int],
                            id,
                        );
                    }
                }
                // Re-seat under the new shape.
                self.world_reseat(i3);
            },
            None => {},
        }
    }

    /// Re-seats one entity in the index after a shape change.
    fn world_reseat(&mut self, i: usize)
        requires
            old(self).wf(),
            i < old(self).world.entities@.len(),
        ensures
            final(self).wf(),
            final(self).world.entities == old(self).world.entities,
            final(self).state == old(self).state,
            final(self).state_timer_ms == old(self).state_timer_ms,
            final(self).clients == old(self).clients,
            final(self).client_events == old(self).client_events,
            final(self).cached_minimap == old(self).cached_minimap,
    {
        let id = self.world.entities[i].id;
        proof {
            crate::game_world::lemma_entity_id_count_at_least_one(
                self.world.entities@,
                id,
                i as int,
            );
        }
        let removed = self.world.quad_tree.remove(id);
        proof {
            if removed is None {
                assert(false);
            }
        }
        proof {
            assert(self.world.entities@[i as int].wf());
            crate::entities::entity::lemma_rotated_rects_wf(
                self.world.entities[i as int].body.rects.value@,
                self.world.entities[i as int].body.rotation.value,
            );
            if self.world.entities[i as int].body.bounding_rect is Some {
                crate::entities::entity::lemma_bounding_range(
                    self.world.entities[i as int].body,
                );
                crate::entities::entity::lemma_bbox_contains_rects(
                    self.world.entities[i as int].body.rotated_rects@,
                );
            }
        }
        let e = &self.world.entities[i];
        let entry = crate::quad_tree::TreeEntry {
            id: e.id,
            pos: *e.body.get_pos(),
            bounding: match e.body.bounding_rect() {
                Some(b) => Some(*b),
                None => None,
            },
            rects: crate::game_config::clone_rects(&e.body.rotated_rects),
            sleeping: *e.body.is_sleeping(),
            is_static: e.body.is_static(),
        };
        self.world.quad_tree.insert(entry);
        proof {
            assert forall|id2: EntityId| #[trigger]
                self.world.quad_tree.spec_id_count(id2) == crate::game_world::entity_id_count(
                self.world.entities@,
                id2,
            ) by {}
        }
    }

    /// Places every joined player on the spawn ring.
    pub fn move_players_to_spawn(&mut self)
        requires
            old(self).wf(),
        ensures
            final(self).wf(),
            final(self).state == old(self).state,
            final(self).state_timer_ms == old(self).state_timer_ms,
            final(self).clients == old(self).clients,
            final(self).client_events == old(self).client_events,
            final(self).world.entities@.len() == old(self).world.entities@.len(),
            // Every entity keeps its id, kind, role and health; only
            // placements change.
            forall|q: int|
                0 <= q < old(self).world.entities@.len() ==> {
                    let oe = #[trigger] old(self).world.entities@[q];
                    let ne = final(self).world.entities@[q];
                    &&& ne.id == oe.id
                    &&& (ne.kind is Player <==> oe.kind is Player)
                    &&& (oe.kind is Player ==> ne.kind->Player_0.state
                        == oe.kind->Player_0.state)
                    &&& ne.health == oe.health
                },
            // Every mounted player ends on the spawn ring, anchored there.
            forall|j: int, q: int|
                0 <= j < old(self).clients@.len() && 0 <= q < final(self).world.entities@.len()
                    && (#[trigger] old(self).clients@[j]).1.player_id == Some(
                    (#[trigger] final(self).world.entities@[q]).id,
                ) && final(self).world.entities@[q].kind is Player ==> spec_on_spawn_ring(
                    final(self).world.entities@[q].body.position.value,
                ) && final(self).world.entities@[q].kind->Player_0.spawn_pos == final(self).world.entities@[q].body.position.value,
    {
        let n = self.clients.len();
        let mut i: usize = 0;
        while i < n
            invariant
                self.wf(),
                n == self.clients@.len(),
                n == old(self).clients@.len(),
                i <= n,
                self.state == old(self).state,
                self.state_timer_ms == old(self).state_timer_ms,
                self.clients == old(self).clients,
                self.client_events == old(self).client_events,
                self.cached_minimap == old(self).cached_minimap,
                self.world.entities@.len() == old(self).world.entities@.len(),
                forall|q: int|
                    0 <= q < old(self).world.entities@.len() ==> {
                        let oe = #[trigger] old(self).world.entities@[q];
                        let ne = self.world.entities@[q];
                        &&& ne.id == oe.id
                        &&& (ne.kind is Player <==> oe.kind is Player)
                        &&& (oe.kind is Player ==> ne.kind->Player_0.state
                            == oe.kind->Player_0.state)
                        &&& ne.health == oe.health
                    },
                forall|j: int, q: int|
                    0 <= j < i && 0 <= q < self.world.entities@.len() && (#[trigger] old(
                        self,
                    ).clients@[j]).1.player_id == Some(
                        (#[trigger] self.world.entities@[q]).id,
                    ) && self.world.entities@[q].kind is Player ==> spec_on_spawn_ring(
                        self.world.entities@[q].body.position.value,
                    ) && self.world.entities@[q].kind->Player_0.spawn_pos
                        == self.world.entities@[q].body.position.value,
            decreases n - i,
        {
            let pid = self.clients[i].1.player_id;
            if let Some(player_id) = pid {
                let ghost mid = self.world.entities@;
                self.move_player_to_spawn(player_id);
                proof {
                    assert forall|j: int, q: int|
                        0 <= j < i + 1 && 0 <= q < self.world.entities@.len() && (#[trigger] old(
                            self,
                        ).clients@[j]).1.player_id == Some(
                            (#[trigger] self.world.entities@[q]).id,
                        ) && self.world.entities@[q].kind is Player implies spec_on_spawn_ring(
                        self.world.entities@[q].body.position.value,
                    ) && self.world.entities@[q].kind->Player_0.spawn_pos
                        == self.world.entities@[q].body.position.value by {
                        if mid[q].id == player_id {
                            if !(mid[q].kind is Player) {
                                assert(self.world.entities@[q] == mid[q]);
                            }
                        } else {
                            assert(self.world.entities@[q] == mid[q]);
                        }
                    }
                }
            }
            i += 1;
        }
    }

    /// Places one player on the 75-unit spawn ring at unit height: one
    /// axis drawn uniformly across the ring, the other pinned to either
    /// edge, swapped on a coin flip.
    pub fn move_player_to_spawn(&mut self, player_id: EntityId)
        requires
            old(self).wf(),
        ensures
            final(self).wf(),
            final(self).state == old(self).state,
            final(self).state_timer_ms == old(self).state_timer_ms,
            final(self).clients == old(self).clients,
            final(self).client_events == old(self).client_events,
            final(self).cached_minimap == old(self).cached_minimap,
            final(self).world.entities@.len() == old(self).world.entities@.len(),
            // Only the chosen player's placement changes: every entity
            // keeps its id, kind, role and health.
            forall|q: int|
                0 <= q < old(self).world.entities@.len() && old(self).world.entities@[q].id
                    != player_id ==> (#[trigger] final(self).world.entities@[q]) == old(
                    self,
                ).world.entities@[q],
            forall|q: int|
                0 <= q < old(self).world.entities@.len() ==> {
                    let oe = #[trigger] old(self).world.entities@[q];
                    let ne = final(self).world.entities@[q];
                    &&& ne.id == oe.id
                    &&& (ne.kind is Player <==> oe.kind is Player)
                    &&& (oe.kind is Player ==> ne.kind->Player_0 == (Player {
                        spawn_pos: ne.kind->Player_0.spawn_pos,
                        ..oe.kind->Player_0
                    }))
                    &&& ne.health == oe.health
                    &&& ne.label == oe.label
                },
            // The chosen player lands on the spawn ring at unit height,
            // and the ring point becomes its anchor.
            forall|q: int|
                0 <= q < old(self).world.entities@.len() && (#[trigger] old(
                    self,
                ).world.entities@[q]).id == player_id && old(self).world.entities@[q].kind
                    is Player ==> {
                    let ne = final(self).world.entities@[q];
                    &&& spec_on_spawn_ring(ne.body.position.value)
                    &&& ne.kind->Player_0.spawn_pos == ne.body.position.value
                },
    {
        let square_size: i64 = 75_000;
        let mut x = crate::utils::rand_i64(-square_size, square_size);
        let mut y = if crate::utils::rand_bool() {
            square_size
        } else {
            -square_size
        };
        if crate::utils::rand_bool() {
            let t = x;
            x = y;
            y = t;
        }
        let idx = match self.world.entity_index_with_id(player_id) {
            Some(i) => i,
            None => {
                return ;
            },
        };
        proof {
            assert(self.world.entities@[idx as int].wf());
            crate::game_world::lemma_entity_id_count_at_least_one(
                self.world.entities@,
                player_id,
                idx as int,
            );
            assert forall|q: int|
                0 <= q < self.world.entities@.len() && (
                #[trigger] self.world.entities@[q]).id == player_id implies q == idx as int by {
                if q < idx as int {
                    lemma_two_count(self.world.entities@, q, idx as int, player_id);
                } else if q > idx as int {
                    lemma_two_count(self.world.entities@, idx as int, q, player_id);
                }
            }
        }
        let ghost pre = self.world.entities@;
        let e = &mut self.world.entities[idx];
        e.body.set_pos(Vector::new(x, y, 1000));
        match &mut e.kind {
            EntityKind::Player(p) => {
                let pos = Vector::new(x, y, 1000);
                p.set_spawn_pos(&pos);
            },
            EntityKind::Prop(_) => {},
        }
        proof {
            assert forall|id: EntityId| #[trigger]
                crate::game_world::entity_id_count(self.world.entities@, id)
                    == crate::game_world::entity_id_count(pre, id) by {
                crate::game_world::lemma_entity_id_count_update(
                    pre,
                    idx as int,
                    self.world.entities@[idx as int],
                    id,
                );
            }
        }
        self.world_reseat(idx);
    }
}

/// The joined-player count over a prefix of the client list.
pub open spec fn spec_joined_prefix(
    clients: Seq<(crate::network::ClientId, ClientHandle)>,
    i: int,
) -> int
    decreases i,
{
    if i <= 0 {
        0
    } else {
        spec_joined_prefix(clients, i - 1) + if clients[i - 1].1.player_id is Some {
            1int
        } else {
            0int
        }
    }
}

pub proof fn lemma_joined_prefix_full(
    clients: Seq<(crate::network::ClientId, ClientHandle)>,
    n: int,
)
    requires
        0 <= n <= clients.len(),
    ensures
        spec_joined_prefix(clients, n) <= n,
    decreases n,
{
    if n > 0 {
        lemma_joined_prefix_full(clients, n - 1);
    }
}

/// The score breakdown a client sees at round end: one labelled line per
/// component plus the total.
pub fn score_breakdown_value(
    sc: &crate::entities::player::ScoreCounter,
    placement: Option<u64>,
    winning_team: bool,
    config: &GameConfig,
) -> (r: WireValue)
    ensures
{
    let mut lines: Vec<WireValue> = Vec::new();
    let (placement_label, placement_score) = crate::entities::player::ScoreCounter::placement(
        placement,
        config,
    );
    lines.push(breakdown_line("killedPlayersScoring", sc.killed_players, crate::utils::sat_mul_u64(sc.killed_players, config.scoring.killed_player)));
    lines.push(breakdown_line("hitShotsScoring", sc.hit_shots, crate::utils::sat_mul_u64(sc.hit_shots, config.scoring.hit_shot)));
    lines.push(breakdown_line("percentHitScoring", sc.hit_shots, sc.percent_hit(config)));
    lines.push(WireValue::Nil);
    lines.push(breakdown_line("propHealthScoring", sc.health_milli, mul_div_1000_pub(sc.health_milli, config.scoring.prop_health)));
    lines.push(breakdown_line("propPingCountScoring", sc.pings, crate::utils::sat_mul_u64(sc.pings, config.scoring.ping)));
    lines.push(breakdown_line("propTotalPingVolumeScoring", sc.total_ping_volume_milli / 1000, crate::utils::sat_mul_u64(sc.total_ping_volume_milli / 1000, config.scoring.ping_per_unit)));
    lines.push(WireValue::Nil);
    let team_label: &str = if winning_team {
        "winningTeamScoring"
    } else {
        "losingTeamScoring"
    };
    let team_score: u64 = if winning_team {
        config.scoring.winning_team
    } else {
        0
    };
    lines.push(breakdown_line(team_label, 0, team_score));
    lines.push(WireValue::Nil);
    lines.push(breakdown_line(placement_label.as_str(), 0, placement_score));
    lines.push(WireValue::Nil);
    lines.push(
        breakdown_line(
            "totalScoring",
            0,
            sc.calculate(placement, Some(winning_team), config),
        ),
    );
    WireValue::Arr(lines)
}

/// One breakdown line: its label, its raw count, and its score.
fn breakdown_line(label: &str, raw: u64, score: u64) -> (r: WireValue)
    ensures
        r is Arr,
        r->Arr_0@.len() == 3,
        r->Arr_0@[1] == WireValue::U(raw),
        r->Arr_0@[2] == WireValue::U(score),
{
    let mut items: Vec<WireValue> = Vec::new();
    items.push(WireValue::Str(label.to_string()));
    items.push(WireValue::U(raw));
    items.push(WireValue::U(score));
    WireValue::Arr(items)
}

/// `a * b / 1000` saturated; the prop-health component of the score.
fn mul_div_1000_pub(a: u64, b: u64) -> (r: u64)
    ensures
        r == crate::utils::spec_sat_u64(a * b / 1000),
{
    proof {
        crate::utils::lemma_u64_prod_fits(a as u128, b as u128);
        vstd::arithmetic::div_mod::lemma_div_is_ordered(
            0,
            (a as u128) * (b as u128) as int,
            1000,
        );
    }
    let p = (a as u128) * (b as u128);
    let q = p / 1000;
    if q > u64::MAX as u128 {
        u64::MAX
    } else {
        q as u64
    }
}

impl Game {
    /// Rebuilds the map from the configuration: every non-player entity is
    /// destroyed, the configured map tree is spawned, and the minimap is
    /// regenerated and flagged as changed.
    pub fn init_map(&mut self, config: &GameConfig)
        requires
            old(self).wf(),
            config.wf(),
        ensures
            final(self).wf(),
            final(self).state == old(self).state,
            final(self).state_timer_ms == old(self).state_timer_ms,
            final(self).clients == old(self).clients,
            final(self).minimap_changed,
            // The rebuild sweeps every entity no client has mounted, and
            // every mounted player survives it.
            forall|i: int|
                0 <= i < old(self).world.entities@.len() && (forall|j: int|
                    0 <= j < old(self).clients@.len() ==> (#[trigger] old(
                        self,
                    ).clients@[j]).1.player_id != Some(
                        (#[trigger] old(self).world.entities@[i]).id,
                    )) ==> crate::game_world::entity_id_count(
                    final(self).world.entities@,
                    old(self).world.entities@[i].id,
                ) == 0,
            forall|id: EntityId|
                (exists|j: int|
                    0 <= j < old(self).clients@.len() && (#[trigger] old(
                        self,
                    ).clients@[j]).1.player_id == Some(id))
                    && crate::game_world::entity_id_count(old(self).world.entities@, id) >= 1
                    ==> crate::game_world::entity_id_count(final(self).world.entities@, id)
                    == crate::game_world::entity_id_count(old(self).world.entities@, id),
    {
        // Destroy all entities except the players.
        let mut all_ids: Vec<EntityId> = Vec::new();
        let n = self.world.entities.len();
        let mut i: usize = 0;
        while i < n
            invariant
                self.wf(),
                *self == *old(self),
                n == self.world.entities@.len(),
                i <= n,
                all_ids@.len() == i,
                forall|p: int| 0 <= p < i ==> #[trigger] all_ids@[p] == self.world.entities@[p].id,
            decreases n - i,
        {
            all_ids.push(self.world.entities[i].id);
            i += 1;
        }
        let m = all_ids.len();
        let mut k: usize = 0;
        while k < m
            invariant
                self.wf(),
                m == all_ids@.len(),
                m == old(self).world.entities@.len(),
                k <= m,
                self.state == old(self).state,
                self.state_timer_ms == old(self).state_timer_ms,
                self.clients == old(self).clients,
                self.cached_minimap == old(self).cached_minimap,
                self.client_events == old(self).client_events,
                self.world.entity_counter == old(self).world.entity_counter,
                forall|p: int|
                    0 <= p < m ==> #[trigger] all_ids@[p] == old(self).world.entities@[p].id,
                // Already-processed unmounted ids are gone.
                forall|p: int|
                    0 <= p < k && (forall|j: int|
                        0 <= j < old(self).clients@.len() ==> (#[trigger] old(
                            self,
                        ).clients@[j]).1.player_id != Some(#[trigger] all_ids@[p]))
                        ==> crate::game_world::entity_id_count(
                        self.world.entities@,
                        all_ids@[p],
                    ) == 0,
                // Mounted ids keep their presence.
                forall|id: EntityId|
                    (exists|j: int|
                        0 <= j < old(self).clients@.len() && (#[trigger] old(
                            self,
                        ).clients@[j]).1.player_id == Some(id))
                        ==> crate::game_world::entity_id_count(self.world.entities@, id)
                        == crate::game_world::entity_id_count(old(self).world.entities@, id),
                // Nothing ever comes back: a gone id stays gone.
                forall|id: EntityId|
                    crate::game_world::entity_id_count(self.world.entities@, id)
                        <= crate::game_world::entity_id_count(old(self).world.entities@, id),
            decreases m - k,
        {
            let id = all_ids[k];
            let mut is_player = false;
            let nc = self.clients.len();
            let mut c: usize = 0;
            while c < nc
                invariant
                    nc == self.clients@.len(),
                    c <= nc,
                    self.clients == old(self).clients,
                    is_player == (exists|j: int|
                        0 <= j < c && (#[trigger] self.clients@[j]).1.player_id == Some(id)),
                decreases nc - c,
            {
                if let Some(pid) = self.clients[c].1.player_id {
                    if pid == id {
                        is_player = true;
                        proof {
                            assert((c as int) < self.clients@.len()
                                && self.clients@[c as int].1.player_id == Some(id));
                        }
                    }
                }
                c += 1;
            }
            if !is_player {
                let ghost pre_rm = self.world.entities@;
                let rr = self.world.remove_entity_with_id(id);
                proof {
                    if rr is Err {
                        assert(crate::game_world::entity_id_count(pre_rm, id) == 0);
                    }
                }
            }
            k += 1;
        }

        let ghost post_sweep = self.world;
        proof {
            // The sweep's verdicts, pinned before anything respawns.
            assert forall|i: int|
                0 <= i < old(self).world.entities@.len() && (forall|j: int|
                    0 <= j < old(self).clients@.len() ==> (#[trigger] old(
                        self,
                    ).clients@[j]).1.player_id != Some(
                        (#[trigger] old(self).world.entities@[i]).id,
                    )) implies crate::game_world::entity_id_count(
                post_sweep.entities@,
                old(self).world.entities@[i].id,
            ) == 0 by {
                assert(all_ids@[i] == old(self).world.entities@[i].id);
            }
            assert forall|id: EntityId|
                (exists|j: int|
                    0 <= j < old(self).clients@.len() && (#[trigger] old(
                        self,
                    ).clients@[j]).1.player_id == Some(id)) implies crate::game_world::entity_id_count(
                post_sweep.entities@,
                id,
            ) == crate::game_world::entity_id_count(old(self).world.entities@, id) by {}
        }

        // Add entities from the configured map.
        let map_idx = find_map(config);
        if let Some(mi) = map_idx {
            let objects = &config.maps[mi].1.objects;
            self.spawn_object_collection(objects, &Vector::new(0, 0, 0), config);
            proof {
                assert forall|i: int|
                    0 <= i < old(self).world.entities@.len() implies crate::game_world::entity_id_count(
                    self.world.entities@,
                    (#[trigger] old(self).world.entities@[i]).id,
                ) == crate::game_world::entity_id_count(
                    post_sweep.entities@,
                    old(self).world.entities@[i].id,
                ) by {
                    assert(old(self).world.entities@[i].wf());
                    assert(old(self).world.entities@[i].id < post_sweep.entity_counter.count);
                }
            }
        }
        proof {
            assert forall|id: EntityId|
                (exists|j: int|
                    0 <= j < old(self).clients@.len() && (#[trigger] old(
                        self,
                    ).clients@[j]).1.player_id == Some(id))
                    && crate::game_world::entity_id_count(old(self).world.entities@, id) >= 1
                    implies crate::game_world::entity_id_count(self.world.entities@, id)
                == crate::game_world::entity_id_count(old(self).world.entities@, id) by {
                let w = crate::game_world::lemma_entity_count_witness(
                    old(self).world.entities@,
                    id,
                );
                assert(old(self).world.entities@[w].wf());
                assert(id < post_sweep.entity_counter.count);
                assert(crate::game_world::entity_id_count(post_sweep.entities@, id)
                    == crate::game_world::entity_id_count(old(self).world.entities@, id));
            }
        }

        // Generate the minimap.
        self.cached_minimap = self.generate_minimap();
        self.minimap_changed = true;
    }

    /// Spawns a collection of map objects, recursing into groups with
    /// their offsets and laying out buildings on their grids.
    pub fn spawn_object_collection(
        &mut self,
        objects: &Vec<MapObjectKind>,
        offset: &Vector,
        config: &GameConfig,
    )
        requires
            old(self).wf(),
            config.wf(),
        ensures
            final(self).wf(),
            final(self).state == old(self).state,
            final(self).state_timer_ms == old(self).state_timer_ms,
            final(self).clients == old(self).clients,
            final(self).cached_minimap == old(self).cached_minimap,
            old(self).world.entity_counter.count <= final(self).world.entity_counter.count,
            // Ids already handed out keep their presence: spawns only add
            // fresh ones.
            forall|id: EntityId|
                id < old(self).world.entity_counter.count ==> crate::game_world::entity_id_count(
                    final(self).world.entities@,
                    id,
                ) == crate::game_world::entity_id_count(old(self).world.entities@, id),
        decreases *objects,
    {
        let n = objects.len();
        let mut i: usize = 0;
        while i < n
            invariant
                self.wf(),
                config.wf(),
                n == objects@.len(),
                i <= n,
                self.state == old(self).state,
                self.state_timer_ms == old(self).state_timer_ms,
                self.clients == old(self).clients,
                self.cached_minimap == old(self).cached_minimap,
                old(self).world.entity_counter.count <= self.world.entity_counter.count,
                forall|id: EntityId|
                    id < old(self).world.entity_counter.count
                        ==> crate::game_world::entity_id_count(self.world.entities@, id)
                        == crate::game_world::entity_id_count(old(self).world.entities@, id),
            decreases n - i, *objects, 0int,
        {
            proof {
                assert(objects@[i as int] == objects@.index(i as int));
            }
            match &objects[i] {
                MapObjectKind::Object(object) => {
                    self.spawn_object(object, offset, 0, true, config);
                },
                MapObjectKind::Group(group) => {
                    let mut collection_offset = *offset;
                    let gx = clamp_map(offset.x, group.offset.x);
                    let gy = clamp_map(offset.y, group.offset.y);
                    let gz = clamp_map(offset.z, group.offset.z);
                    collection_offset.set(gx, gy, gz);
                    self.spawn_object_collection(&group.objects, &collection_offset, config);
                },
                MapObjectKind::Building(building) => {
                    self.generate_building(building, config);
                },
            }
            i += 1;
        }
    }

    /// Spawns one configured object: its prefab at its position offset by
    /// the collection, with its rotation turned by the collection's, and
    /// possibly skipped by its spawn chance.
    pub fn spawn_object(
        &mut self,
        object: &ObjectConfig,
        offset: &Vector,
        offset_rotation: u8,
        use_spawn_chance: bool,
        config: &GameConfig,
    )
        requires
            old(self).wf(),
            config.wf(),
        ensures
            final(self).wf(),
            final(self).state == old(self).state,
            final(self).state_timer_ms == old(self).state_timer_ms,
            final(self).clients == old(self).clients,
            final(self).cached_minimap == old(self).cached_minimap,
            final(self).client_events == old(self).client_events,
            old(self).world.entity_counter.count <= final(self).world.entity_counter.count,
            // Ids already handed out keep their presence: spawns only add
            // fresh ones.
            forall|id: EntityId|
                id < old(self).world.entity_counter.count ==> crate::game_world::entity_id_count(
                    final(self).world.entities@,
                    id,
                ) == crate::game_world::entity_id_count(old(self).world.entities@, id),
            // Whatever the roll, either nothing changes or exactly one
            // new prop appears, shaped by the object's prefab and placed
            // at the object's offset position and combined rotation.
            forall|i: int|
                0 <= i < old(self).world.entities@.len() ==> (
                #[trigger] final(self).world.entities@[i]) == old(self).world.entities@[i],
            old(self).world.entities@.len() <= final(self).world.entities@.len() <= old(
                self,
            ).world.entities@.len() + 1,
            final(self).world.entities@.len() == old(self).world.entities@.len() + 1 ==> {
                let ne = final(self).world.entities@.last();
                &&& ne.kind is Prop
                &&& ne.kind->Prop_0.object.prefab_id@ == object.prefab_id@
                &&& ne.kind->Prop_0.prefab.id@ == object.prefab_id@
                &&& ne.body.position.value == (Vector {
                    x: spec_clamp_map(object.position.x, offset.x),
                    y: spec_clamp_map(object.position.y, offset.y),
                    z: spec_clamp_map(object.position.z, offset.z),
                })
                &&& ne.body.rotation.value == ((object.rotation % 4 + offset_rotation % 4) % 4)
                &&& ne.body.rects.value@ == ne.kind->Prop_0.prefab.rects@
                &&& ne.body.is_static == (ne.kind->Prop_0.prefab.kind is Fixture)
                &&& exists|pi: int|
                    0 <= pi < config.prefabs@.len() && (#[trigger] config.prefabs@[pi]).id@
                        == object.prefab_id@ && ne.kind->Prop_0.prefab.rects@
                        == config.prefabs@[pi].rects@ && ne.kind->Prop_0.prefab.health_milli
                        == config.prefabs@[pi].health_milli && ne.kind->Prop_0.prefab.kind
                        == config.prefabs@[pi].kind
            },
    {
        // Roll the spawn chance.
        if use_spawn_chance {
            let roll = crate::utils::rand_u64(0, 1000);
            if roll >= object.spawn_chance_milli as u64 {
                return ;
            }
        }

        // Find the prefab; an unknown id spawns nothing.
        let prefab = match config.prefab_with_id(&object.prefab_id) {
            Some(p) => p.duplicate(),
            None => {
                return ;
            },
        };

        // Build the prop, offset and turned by the collection.
        let pos = Vector::new(
            clamp_map(object.position.x, offset.x),
            clamp_map(object.position.y, offset.y),
            clamp_map(object.position.z, offset.z),
        );
        let rot = (object.rotation % 4 + offset_rotation % 4) % 4;
        let placed = ObjectConfig {
            prefab_id: crate::game_config::clone_string(&object.prefab_id),
            position: pos,
            rotation: rot,
            spawn_chance_milli: object.spawn_chance_milli,
        };
        let prop = crate::entities::prop::Prop::from_prefab(placed, prefab);
        let id = self.world.next_id();
        if id == u64::MAX {
            return ;
        }
        match Entity::new(id, EntityKind::Prop(prop), config) {
            Some(entity) => {
                proof {
                    crate::game_world::lemma_entity_id_count_nonneg(self.world.entities@, id);
                    if crate::game_world::entity_id_count(self.world.entities@, id) > 0 {
                        let w = crate::game_world::lemma_entity_count_witness(
                            self.world.entities@,
                            id,
                        );
                    }
                }
                let ghost pre_ins = self.world.entities@;
                self.world.insert_entity(entity);
                proof {
                    assert forall|id2: EntityId|
                        id2 < old(self).world.entity_counter.count implies
                        crate::game_world::entity_id_count(self.world.entities@, id2)
                            == crate::game_world::entity_id_count(pre_ins, id2) by {
                        crate::game_world::lemma_entity_id_count_push(
                            pre_ins,
                            self.world.entities@.last(),
                            id2,
                        );
                    }
                }
            },
            None => {},
        }
    }

    /// Lays a building out on its grid: each cell's token selects an
    /// object and an extra quarter turn, even columns of odd rows flip the
    /// base rotation, and the whole building sits at its offset, centred
    /// when asked.
    pub fn generate_building(&mut self, building: &BuildingConfig, config: &GameConfig)
        requires
            old(self).wf(),
            config.wf(),
        ensures
            final(self).wf(),
            final(self).state == old(self).state,
            final(self).state_timer_ms == old(self).state_timer_ms,
            final(self).clients == old(self).clients,
            final(self).cached_minimap == old(self).cached_minimap,
            old(self).world.entity_counter.count <= final(self).world.entity_counter.count,
            // Ids already handed out keep their presence: spawns only add
            // fresh ones.
            forall|id: EntityId|
                id < old(self).world.entity_counter.count ==> crate::game_world::entity_id_count(
                    final(self).world.entities@,
                    id,
                ) == crate::game_world::entity_id_count(old(self).world.entities@, id),
    {
        let room = if building.room_size < 0 {
            0
        } else if building.room_size > 1_000_000 {
            1_000_000
        } else {
            building.room_size
        };
        let rows = building.map.len();
        if rows > 1000 {
            return ;
        }
        // The building spans half a room per grid step.
        proof {
            assert(((rows / 2) as i64) * room <= 500_000_000 && 0 <= ((rows / 2) as i64) * room)
                by (nonlinear_arith)
                requires 0 <= (rows / 2) as i64 <= 500, 0 <= room <= 1_000_000;
        }
        let map_height: i64 = ((rows / 2) as i64) * room;
        let mut longest: usize = 0;
        let mut r0: usize = 0;
        while r0 < rows
            invariant
                rows == building.map@.len(),
                r0 <= rows,
                longest <= 1_000_000_000,
            decreases rows - r0,
        {
            let len = building.map[r0].len();
            if len > longest {
                longest = if len > 1_000_000_000 {
                    1_000_000_000
                } else {
                    len
                };
            }
            r0 += 1;
        }
        proof {
            assert(((longest / 2) as i64) * room <= 500_000_000_000_000 && 0 <= ((longest / 2)
                as i64) * room) by (nonlinear_arith)
                requires 0 <= (longest / 2) as i64 <= 500_000_000, 0 <= room <= 1_000_000;
        }
        let map_width: i64 = ((longest / 2) as i64) * room;

        let mut y: usize = 0;
        while y < rows
            invariant
                self.wf(),
                config.wf(),
                rows == building.map@.len(),
                y <= rows,
                rows <= 1000,
                0 <= room <= 1_000_000,
                0 <= map_height <= 1_000_000_000,
                0 <= map_width,
                map_width <= 1_000_000_000_000_000,
                self.state == old(self).state,
                self.state_timer_ms == old(self).state_timer_ms,
                self.clients == old(self).clients,
                self.cached_minimap == old(self).cached_minimap,
                old(self).world.entity_counter.count <= self.world.entity_counter.count,
                forall|id: EntityId|
                    id < old(self).world.entity_counter.count
                        ==> crate::game_world::entity_id_count(self.world.entities@, id)
                        == crate::game_world::entity_id_count(old(self).world.entities@, id),
            decreases rows - y,
        {
            let cols = building.map[y].len();
            let mut x: usize = 0;
            while x < cols
                invariant
                    self.wf(),
                    config.wf(),
                    rows == building.map@.len(),
                    y < rows,
                    cols == building.map@[y as int]@.len(),
                    x <= cols,
                    rows <= 1000,
                    0 <= room <= 1_000_000,
                    0 <= map_height <= 1_000_000_000,
                    0 <= map_width,
                    map_width <= 1_000_000_000_000_000,
                    self.state == old(self).state,
                    self.state_timer_ms == old(self).state_timer_ms,
                    self.clients == old(self).clients,
                    self.cached_minimap == old(self).cached_minimap,
                    old(self).world.entity_counter.count <= self.world.entity_counter.count,
                    forall|id: EntityId|
                        id < old(self).world.entity_counter.count
                            ==> crate::game_world::entity_id_count(self.world.entities@, id)
                            == crate::game_world::entity_id_count(old(self).world.entities@, id),
                decreases cols - x,
            {
                if x > 1_000_000 {
                    return ;
                }
                let (symbol, extra_rot) = building.map[y][x];
                if symbol != ' ' {
                    // Automatic rotation guessing from the wall position.
                    let base_rotation: u8 = if x % 2 == 0 && y % 2 == 1 {
                        1
                    } else {
                        0
                    };
                    let rotation: u8 = (base_rotation + extra_rot % 4) % 4;
                    match find_in_lookup(&building.lookup_table, symbol) {
                        Some(li) => {
                            // The origin is the bottom left; y grows down
                            // the map string, so it flips.
                            proof {
                                assert(0 <= ((x as i64)) * room <= 1_000_000_000_000)
                                    by (nonlinear_arith)
                                    requires 0 <= x as i64 <= 1_000_000, 0 <= room <= 1_000_000;
                                assert(0 <= ((y as i64)) * room <= 1_000_000_000_000)
                                    by (nonlinear_arith)
                                    requires 0 <= y as i64 <= 1_000_000, 0 <= room <= 1_000_000;
                            }
                            let ox = clamp_map(
                                building.offset.x,
                                ((x as i64)) * room / 2 - (if building.centered {
                                    map_width / 2
                                } else {
                                    0
                                }),
                            );
                            let oy = clamp_map(
                                building.offset.y,
                                map_height - ((y as i64)) * room / 2 - (if building.centered {
                                    map_height / 2
                                } else {
                                    0
                                }),
                            );
                            let object_offset = Vector::new(ox, oy, building.offset.z);
                            let obj = building.lookup_table[li].1.duplicate();
                            self.spawn_object(&obj, &object_offset, rotation, false, config);
                        },
                        None => {},
                    }
                }
                x += 1;
            }
            y += 1;
        }
    }

    /// The minimap: the colour and world-placed rects of every fixture.
    pub fn generate_minimap(&self) -> (r: WireValue)
        requires
            self.wf(),
        ensures
            r is Arr,
            // One entry per fixture, in entity order: the fixture's colour
            // and its rotated rects carried to its world position.
            ({
                let fx = spec_fixture_indices(
                    self.world.entities@,
                    self.world.entities@.len() as int,
                );
                let es = r->Arr_0@;
                &&& es.len() == fx.len()
                &&& forall|p: int|
                    #![trigger es[p]]
                    0 <= p < es.len() ==> {
                        let e = self.world.entities@[fx[p]];
                        &&& es[p] is Arr
                        &&& es[p]->Arr_0@.len() == 2
                        &&& es[p]->Arr_0@[0] is Str
                        &&& es[p]->Arr_0@[0]->Str_0@ == e.kind->Prop_0.prefab.minimap_color@
                        &&& es[p]->Arr_0@[1] is Arr
                        &&& es[p]->Arr_0@[1]->Arr_0@.len() == e.body.rotated_rects@.len()
                        &&& forall|k: int|
                            0 <= k < e.body.rotated_rects@.len() ==> crate::wire::is_ser_rect(
                                #[trigger] es[p]->Arr_0@[1]->Arr_0@[k],
                                spec_minimap_rect(
                                    e.body.rotated_rects@[k],
                                    e.body.position.value,
                                ),
                            )
                    }
            }),
    {
        let mut rects: Vec<WireValue> = Vec::new();
        let n = self.world.entities.len();
        let mut i: usize = 0;
        while i < n
            invariant
                self.wf(),
                n == self.world.entities@.len(),
                i <= n,
                rects@.len() == spec_fixture_indices(self.world.entities@, i as int).len(),
                forall|p: int|
                    #![trigger rects@[p]]
                    0 <= p < rects@.len() ==> {
                        let e = self.world.entities@[spec_fixture_indices(
                            self.world.entities@,
                            i as int,
                        )[p]];
                        &&& rects@[p] is Arr
                        &&& rects@[p]->Arr_0@.len() == 2
                        &&& rects@[p]->Arr_0@[0] is Str
                        &&& rects@[p]->Arr_0@[0]->Str_0@
                            == e.kind->Prop_0.prefab.minimap_color@
                        &&& rects@[p]->Arr_0@[1] is Arr
                        &&& rects@[p]->Arr_0@[1]->Arr_0@.len() == e.body.rotated_rects@.len()
                        &&& forall|k: int|
                            0 <= k < e.body.rotated_rects@.len() ==> crate::wire::is_ser_rect(
                                #[trigger] rects@[p]->Arr_0@[1]->Arr_0@[k],
                                spec_minimap_rect(
                                    e.body.rotated_rects@[k],
                                    e.body.position.value,
                                ),
                            )
                    },
            decreases n - i,
        {
            proof {
                assert(spec_fixture_indices(self.world.entities@, i + 1) == (
                if self.world.entities@[i as int].kind is Prop
                    && self.world.entities@[i as int].kind->Prop_0.prefab.kind is Fixture {
                    spec_fixture_indices(self.world.entities@, i as int).push(i as int)
                } else {
                    spec_fixture_indices(self.world.entities@, i as int)
                }));
            }
            proof {
                assert(self.world.entities@[i as int].wf());
            }
            let e = &self.world.entities[i];
            match &e.kind {
                EntityKind::Prop(prop) => {
                    if prop.prefab.kind.is_fixture() {
                        let mut prop_rects: Vec<WireValue> = Vec::new();
                        let m = e.body.rotated_rects.len();
                        proof {
                            crate::entities::entity::lemma_rotated_rects_wf(
                                e.body.rects.value@,
                                e.body.rotation.value,
                            );
                        }
                        let mut k: usize = 0;
                        while k < m
                            invariant
                                m == e.body.rotated_rects@.len(),
                                k <= m,
                                e.wf(),
                                forall|j: int|
                                    0 <= j < e.body.rotated_rects@.len() ==> (
                                    #[trigger] e.body.rotated_rects@[j]).wf(),
                                prop_rects@.len() == k,
                                forall|j: int|
                                    0 <= j < k ==> crate::wire::is_ser_rect(
                                        #[trigger] prop_rects@[j],
                                        spec_minimap_rect(
                                            e.body.rotated_rects@[j],
                                            e.body.position.value,
                                        ),
                                    ),
                            decreases m - k,
                        {
                            let shifted = Rect::new(
                                Vector::new(
                                    clamp_map(
                                        e.body.rotated_rects[k].center.x,
                                        e.body.position.value.x,
                                    ),
                                    clamp_map(
                                        e.body.rotated_rects[k].center.y,
                                        e.body.position.value.y,
                                    ),
                                    clamp_map(
                                        e.body.rotated_rects[k].center.z,
                                        e.body.position.value.z,
                                    ),
                                ),
                                e.body.rotated_rects[k].size,
                            );
                            prop_rects.push(crate::wire::ser_rect(&shifted));
                            k += 1;
                        }
                        let mut entry: Vec<WireValue> = Vec::new();
                        entry.push(
                            WireValue::Str(
                                crate::game_config::clone_string(&prop.prefab.minimap_color),
                            ),
                        );
                        entry.push(WireValue::Arr(prop_rects));
                        let ghost prev_rects = rects@;
                        rects.push(WireValue::Arr(entry));
                        proof {
                            assert forall|p: int|
                                #![trigger rects@[p]]
                                0 <= p < rects@.len() implies {
                                let e2 = self.world.entities@[spec_fixture_indices(
                                    self.world.entities@,
                                    i + 1,
                                )[p]];
                                &&& rects@[p] is Arr
                                &&& rects@[p]->Arr_0@.len() == 2
                                &&& rects@[p]->Arr_0@[0] is Str
                                &&& rects@[p]->Arr_0@[0]->Str_0@
                                    == e2.kind->Prop_0.prefab.minimap_color@
                                &&& rects@[p]->Arr_0@[1] is Arr
                                &&& rects@[p]->Arr_0@[1]->Arr_0@.len()
                                    == e2.body.rotated_rects@.len()
                                &&& forall|k2: int|
                                    0 <= k2 < e2.body.rotated_rects@.len()
                                        ==> crate::wire::is_ser_rect(
                                        #[trigger] rects@[p]->Arr_0@[1]->Arr_0@[k2],
                                        spec_minimap_rect(
                                            e2.body.rotated_rects@[k2],
                                            e2.body.position.value,
                                        ),
                                    )
                            } by {
                                if p < prev_rects.len() {
                                    assert(rects@[p] == prev_rects[p]);
                                    assert(spec_fixture_indices(self.world.entities@, i + 1)[p]
                                        == spec_fixture_indices(
                                        self.world.entities@,
                                        i as int,
                                    )[p]);
                                } else {
                                    assert(spec_fixture_indices(self.world.entities@, i + 1)[p]
                                        == i as int);
                                }
                            }
                        }
                    }
                },
                EntityKind::Player(_) => {},
            }
            i += 1;
        }
        WireValue::Arr(rects)
    }

    /// The live scoreboard: one row per joined player, sorted by score,
    /// highest first, with placement bonuses added once the round is over.
    pub fn calculate_scoreboard(&self, props_win: Option<bool>, config: &GameConfig) -> (r: Vec<
        ScoreboardItem,
    >)
        requires
            self.wf(),
            config.wf(),
        ensures
            // Highest scores first.
            forall|i: int, j: int| 0 <= i < j < r@.len() ==> r@[i].score >= r@[j].score,
            // Before the round ends, the board carries one row for every
            // mounted player, with its exact score.
            props_win is None ==> forall|j: int, q: int|
                0 <= j < self.clients@.len() && 0 <= q < self.world.entities@.len() && (
                #[trigger] self.clients@[j]).1.player_id == Some(
                    (#[trigger] self.world.entities@[q]).id,
                ) && self.world.entities@[q].kind is Player ==> exists|p: int|
                    0 <= p < r@.len() && spec_scoreboard_row_for(
                        #[trigger] r@[p],
                        self.world.entities@[q],
                        props_win,
                        config,
                    ),
    {
        let mut results: Vec<ScoreboardItem> = Vec::new();
        let n = self.clients.len();
        let mut i: usize = 0;
        while i < n
            invariant
                self.wf(),
                config.wf(),
                n == self.clients@.len(),
                i <= n,
                forall|j: int, q: int|
                    0 <= j < i && 0 <= q < self.world.entities@.len() && (
                    #[trigger] self.clients@[j]).1.player_id == Some(
                        (#[trigger] self.world.entities@[q]).id,
                    ) && self.world.entities@[q].kind is Player ==> exists|p: int|
                        0 <= p < results@.len() && spec_scoreboard_row_for(
                            #[trigger] results@[p],
                            self.world.entities@[q],
                            props_win,
                            config,
                        ),
            decreases n - i,
        {
            if let Some(pid) = self.clients[i].1.player_id {
                match self.world.entity_index_with_id(pid) {
                    Some(idx) => {
                        proof {
                            assert(self.world.entities@[idx as int].wf());
                            crate::game_world::lemma_entity_id_count_at_least_one(
                                self.world.entities@,
                                pid,
                                idx as int,
                            );
                            crate::game_world::lemma_entity_unique_index(
                                self.world.entities@,
                                idx as int,
                                pid,
                            );
                        }
                        match &self.world.entities[idx].kind {
                            EntityKind::Player(p) => {
                                let is_prop = match p.state {
                                    PlayerState::Prop(_) => true,
                                    PlayerState::Hunter(_) => false,
                                };
                                let winning_team = match props_win {
                                    Some(pw) => Some(is_prop == pw),
                                    None => None,
                                };
                                let ghost pre_r = results@;
                                results.push(
                                    ScoreboardItem {
                                        entity_id: pid,
                                        is_prop,
                                        username: crate::game_config::clone_string(&p.username),
                                        score: p.score_counter.calculate(
                                            None,
                                            winning_team,
                                            config,
                                        ),
                                    },
                                );
                                proof {
                                    assert(spec_scoreboard_row_for(
                                        results@.last(),
                                        self.world.entities@[idx as int],
                                        props_win,
                                        config,
                                    ));
                                    assert forall|j: int, q: int|
                                        0 <= j < i + 1 && 0 <= q < self.world.entities@.len()
                                            && (#[trigger] self.clients@[j]).1.player_id == Some(
                                            (#[trigger] self.world.entities@[q]).id,
                                        ) && self.world.entities@[q].kind is Player implies exists|
                                        p: int,
                                    |
                                        0 <= p < results@.len() && spec_scoreboard_row_for(
                                            #[trigger] results@[p],
                                            self.world.entities@[q],
                                            props_win,
                                            config,
                                        ) by {
                                        if j < i as int {
                                            let p0 = choose|p0: int|
                                                0 <= p0 < pre_r.len() && spec_scoreboard_row_for(
                                                    #[trigger] pre_r[p0],
                                                    self.world.entities@[q],
                                                    props_win,
                                                    config,
                                                );
                                            assert(results@[p0] == pre_r[p0]);
                                        } else {
                                            assert(q == idx as int);
                                            assert(results@[results@.len() - 1]
                                                == results@.last());
                                        }
                                    }
                                }
                            },
                            EntityKind::Prop(_) => {},
                        }
                    },
                    None => {},
                }
            }
            i += 1;
        }

        // Sort by score, highest first: selection of the maximum, keeping
        // every collected row.
        let ghost pre_sort = results@;
        let mut sorted: Vec<ScoreboardItem> = Vec::new();
        while results.len() > 0
            invariant
                forall|a: int, b: int|
                    0 <= a < b < sorted@.len() ==> sorted@[a].score >= sorted@[b].score,
                forall|a: int, b: int|
                    0 <= a < sorted@.len() && 0 <= b < results@.len() ==> sorted@[a].score
                        >= results@[b].score,
                forall|x: ScoreboardItem|
                    pre_sort.contains(x) ==> sorted@.contains(x) || results@.contains(x),
            decreases results@.len(),
        {
            let m = results.len();
            let mut best: usize = 0;
            let mut q: usize = 1;
            while q < m
                invariant
                    m == results@.len(),
                    best < m,
                    q <= m,
                    forall|a: int|
                        0 <= a < q ==> results@[best as int].score >= (#[trigger] results@[a]).score,
                decreases m - q,
            {
                if results[q].score > results[best].score {
                    best = q;
                }
                q += 1;
            }
            let ghost pre = results@;
            let ghost pre_sorted = sorted@;
            let item = results.remove(best);
            proof {
                assert forall|b: int|
                    0 <= b < results@.len() implies item.score >= (#[trigger] results@[b]).score by {
                    if b < best {
                        assert(results@[b] == pre[b]);
                    } else {
                        assert(results@[b] == pre[b + 1]);
                    }
                }
            }
            sorted.push(item);
            proof {
                assert forall|x: ScoreboardItem|
                    pre_sort.contains(x) implies sorted@.contains(x) || results@.contains(x) by {
                    if pre_sorted.contains(x) {
                        let w = choose|w: int| 0 <= w < pre_sorted.len() && pre_sorted[w] == x;
                        assert(sorted@[w] == x);
                    } else if pre.contains(x) {
                        let w = choose|w: int| 0 <= w < pre.len() && pre[w] == x;
                        if w == best as int {
                            assert(sorted@[sorted@.len() - 1] == x);
                        } else if w < best as int {
                            assert(results@[w] == x);
                        } else {
                            assert(results@[w - 1] == x);
                        }
                    }
                }
            }
        }

        // Add the placement bonuses once the game is over.
        if props_win.is_some() {
            let mut placed: Vec<ScoreboardItem> = Vec::new();
            let m = sorted.len();
            let mut k: usize = 0;
            while k < m
                invariant
                    m == sorted@.len(),
                    k <= m,
                decreases m - k,
            {
                let mut item = sorted[k].duplicate();
                let bonus = crate::entities::player::ScoreCounter::placement(
                    Some(k as u64),
                    config,
                ).1;
                item.score = crate::utils::sat_add_u64(item.score, bonus);
                placed.push(item);
                k += 1;
            }
            // The bonuses shrink down the board, so the order is kept for
            // standard weight configurations; re-sorting keeps it exact.
            let mut resorted: Vec<ScoreboardItem> = Vec::new();
            while placed.len() > 0
                invariant
                    forall|a: int, b: int|
                        0 <= a < b < resorted@.len() ==> resorted@[a].score >= resorted@[b].score,
                    forall|a: int, b: int|
                        0 <= a < resorted@.len() && 0 <= b < placed@.len() ==> resorted@[a].score
                            >= placed@[b].score,
                decreases placed@.len(),
            {
                let m2 = placed.len();
                let mut best: usize = 0;
                let mut q: usize = 1;
                while q < m2
                    invariant
                        m2 == placed@.len(),
                        best < m2,
                        q <= m2,
                        forall|a: int|
                            0 <= a < q ==> placed@[best as int].score >= (
                            #[trigger] placed@[a]).score,
                    decreases m2 - q,
                {
                    if placed[q].score > placed[best].score {
                        best = q;
                    }
                    q += 1;
                }
                let ghost pre2 = placed@;
                let item = placed.remove(best);
                proof {
                    assert forall|b: int|
                        0 <= b < placed@.len() implies item.score >= (
                    #[trigger] placed@[b]).score by {
                        if b < best {
                            assert(placed@[b] == pre2[b]);
                        } else {
                            assert(placed@[b] == pre2[b + 1]);
                        }
                    }
                }
                resorted.push(item);
            }
            resorted
        } else {
            // Without placement bonuses the board is the sorted collection:
            // every mounted player's row survived the sort.
            proof {
                assert forall|j: int, q: int|
                    0 <= j < self.clients@.len() && 0 <= q < self.world.entities@.len() && (
                    #[trigger] self.clients@[j]).1.player_id == Some(
                        (#[trigger] self.world.entities@[q]).id,
                    ) && self.world.entities@[q].kind is Player implies exists|p: int|
                    0 <= p < sorted@.len() && spec_scoreboard_row_for(
                        #[trigger] sorted@[p],
                        self.world.entities@[q],
                        props_win,
                        config,
                    ) by {
                    let p0 = choose|p0: int|
                        0 <= p0 < pre_sort.len() && spec_scoreboard_row_for(
                            #[trigger] pre_sort[p0],
                            self.world.entities@[q],
                            props_win,
                            config,
                        );
                    assert(pre_sort.contains(pre_sort[p0]));
                    assert(sorted@.contains(pre_sort[p0]));
                    let p1 = choose|p1: int| 0 <= p1 < sorted@.len() && sorted@[p1] == pre_sort[p0];
                    assert(spec_scoreboard_row_for(
                        sorted@[p1],
                        self.world.entities@[q],
                        props_win,
                        config,
                    ));
                }
            }
            sorted
        }
    }
}

/// The first configured map, by the fixed name.
fn find_map(config: &GameConfig) -> (r: Option<usize>)
    ensures
        match r {
            Some(i) => i < config.maps@.len(),
            None => true,
        },
{
    if config.maps.len() > 0 {
        Some(0)
    } else {
        None
    }
}

/// Looks a building token up in the table.
fn find_in_lookup(table: &Vec<(char, ObjectConfig)>, symbol: char) -> (r: Option<usize>)
    ensures
        match r {
            Some(i) => i < table@.len() && table@[i as int].0 == symbol,
            None => forall|i: int| 0 <= i < table@.len() ==> (#[trigger] table@[i]).0 != symbol,
        },
{
    let n = table.len();
    let mut i: usize = 0;
    while i < n
        invariant
            n == table@.len(),
            i <= n,
            forall|j: int| 0 <= j < i ==> (#[trigger] table@[j]).0 != symbol,
        decreases n - i,
    {
        if table[i].0 == symbol {
            return Some(i);
        }
        i += 1;
    }
    None
}

/// A sum clamped into the coordinate range.
pub open spec fn spec_clamp_map(a: i64, b: i64) -> i64 {
    if a + b > COORD_LIMIT {
        COORD_LIMIT as i64
    } else if a + b < -COORD_LIMIT {
        (-COORD_LIMIT) as i64
    } else {
        (a + b) as i64
    }
}

fn clamp_map(a: i64, b: i64) -> (r: i64)
    ensures
        r == spec_clamp_map(a, b),
        -COORD_LIMIT <= r <= COORD_LIMIT,
{
    let s: i128 = (a as i128) + (b as i128);
    if s > COORD_LIMIT as i128 {
        COORD_LIMIT
    } else if s < -COORD_LIMIT as i128 {
        -COORD_LIMIT
    } else {
        s as i64
    }
}

/// The unit-thick query box right under a player's bounding box, used to
/// test for ground before a jump.
pub open spec fn spec_jump_rect(bounding: Rect) -> Rect {
    Rect {
        center: (Vector { x: 0i64, y: 0i64, z: -500i64 }),
        size: (Vector {
            x: (if bounding.size.x / 2 > SIZE_LIMIT {
                SIZE_LIMIT as i64
            } else {
                (bounding.size.x / 2) as i64
            }),
            y: (if bounding.size.y / 2 > SIZE_LIMIT {
                SIZE_LIMIT as i64
            } else {
                (bounding.size.y / 2) as i64
            }),
            z: 1000i64,
        }),
    }
}

impl Game {
    /// A jump request: the player's vertical velocity becomes the
    /// configured jump velocity exactly when the player is an admin or the
    /// unit-thick query box beneath the player finds another entity.
    pub fn try_jump(&mut self, player_id: EntityId, is_admin: bool, config: &GameConfig) -> (r:
        bool)
        requires
            old(self).wf(),
            config.wf(),
        ensures
            final(self).wf(),
            final(self).state == old(self).state,
            final(self).state_timer_ms == old(self).state_timer_ms,
            final(self).clients == old(self).clients,
            final(self).client_events == old(self).client_events,
            // A refused jump changes nothing at all.
            !r ==> *final(self) == *old(self),
            // A jump needs a mounted player entity with a bounding box.
            r ==> exists|i: int|
                0 <= i < old(self).world.entities@.len() && (
                #[trigger] old(self).world.entities@[i]).id == player_id && old(
                    self,
                ).world.entities@[i].kind is Player && old(
                    self,
                ).world.entities@[i].body.bounding_rect is Some,
            // The jump happens exactly when the player is an admin or the
            // unit-thick box under the player touches another entity, and
            // it only rewrites the vertical velocity.
            forall|i: int|
                0 <= i < old(self).world.entities@.len() && (
                #[trigger] old(self).world.entities@[i]).id == player_id && old(
                    self,
                ).world.entities@[i].kind is Player && old(
                    self,
                ).world.entities@[i].body.bounding_rect is Some ==> {
                    let oe = old(self).world.entities@[i];
                    let jump_rect = spec_jump_rect(oe.body.bounding_rect->0);
                    &&& (r ==> is_admin || exists|e: crate::quad_tree::TreeEntry|
                        old(self).world.quad_tree.spec_entries().contains(e)
                            && crate::quad_tree::entry_hit(
                            e,
                            jump_rect,
                            oe.body.position.value,
                            false,
                            false,
                        ) && e.id != player_id)
                    &&& (is_admin ==> r)
                    &&& ((exists|e: crate::quad_tree::TreeEntry|
                        old(self).world.quad_tree.spec_entries().contains(e)
                            && crate::quad_tree::entry_vis(
                            e,
                            jump_rect,
                            oe.body.position.value,
                            false,
                            false,
                        ) && e.id != player_id) ==> r)
                    &&& (r ==> final(self).world.entities@.len() == old(
                        self,
                    ).world.entities@.len() && (forall|q: int|
                        0 <= q < old(self).world.entities@.len() && q != i ==> (
                        #[trigger] final(self).world.entities@[q]) == old(
                            self,
                        ).world.entities@[q]) && final(self).world.entities@[i] == (Entity {
                        body: (crate::entities::entity::EntityBody {
                            velocity: crate::incremental_value::IncrementalValueDiff {
                                value: (Vector {
                                    x: oe.body.velocity.value.x,
                                    y: oe.body.velocity.value.y,
                                    z: config.player.jump_velocity,
                                }),
                                previous_value: oe.body.velocity.previous_value,
                                diff: oe.body.velocity.diff,
                            },
                            ..oe.body
                        }),
                        ..oe
                    }))
                },
    {
        let idx = match self.world.entity_index_with_id(player_id) {
            Some(i) => i,
            None => {
                return false;
            },
        };
        proof {
            assert(self.world.entities@[idx as int].wf());
            crate::game_world::lemma_entity_id_count_at_least_one(
                self.world.entities@,
                player_id,
                idx as int,
            );
            assert forall|i: int|
                0 <= i < self.world.entities@.len() && (
                #[trigger] self.world.entities@[i]).id == player_id implies i == idx as int by {
                if i < idx as int {
                    lemma_two_count(self.world.entities@, i, idx as int, player_id);
                } else if i > idx as int {
                    lemma_two_count(self.world.entities@, idx as int, i, player_id);
                }
            }
        }
        // The query box right below the player, half its bounding footprint
        // wide and one unit thick.
        let jump_rect = match self.world.entities[idx].body.bounding_rect() {
            Some(bounding) => {
                proof {
                    crate::entities::entity::lemma_bounding_range(
                        self.world.entities[idx as int].body,
                    );
                }
                let sx = bounding.size.x / 2;
                let sy = bounding.size.y / 2;
                Rect::new(
                    Vector::new(0, 0, -500),
                    Vector::new(
                        if sx > SIZE_LIMIT {
                            SIZE_LIMIT
                        } else {
                            sx
                        },
                        if sy > SIZE_LIMIT {
                            SIZE_LIMIT
                        } else {
                            sy
                        },
                        1000,
                    ),
                )
            },
            None => {
                return false;
            },
        };
        // Only a player entity jumps.
        let is_player = match &self.world.entities[idx].kind {
            EntityKind::Player(_) => true,
            EntityKind::Prop(_) => false,
        };
        if !is_player {
            return false;
        }
        let pos = *self.world.entities[idx].body.get_pos();
        let on_ground = is_admin || self.world.query_rect(
            &jump_rect,
            &pos,
            false,
            false,
            Some(player_id),
        ).is_some();
        if on_ground {
            let ghost pre = self.world.entities@;
            let e = &mut self.world.entities[idx];
            let vx = e.body.velocity.get().x;
            let vy = e.body.velocity.get().y;
            e.body.set_vel(Vector::new(vx, vy, config.player.jump_velocity));
            proof {
                assert forall|id: EntityId| #[trigger]
                    crate::game_world::entity_id_count(self.world.entities@, id)
                        == crate::game_world::entity_id_count(pre, id) by {
                    crate::game_world::lemma_entity_id_count_update(
                        pre,
                        idx as int,
                        self.world.entities@[idx as int],
                        id,
                    );
                }
                crate::game_world::lemma_entity_id_count_at_least_one(pre, player_id, idx as int);
                assert forall|i: int|
                    0 <= i < pre.len() && (#[trigger] pre[i]).id == player_id implies i
                    == idx as int by {
                    if i < idx as int {
                        lemma_two_count(pre, i, idx as int, player_id);
                    } else if i > idx as int {
                        lemma_two_count(pre, idx as int, i, player_id);
                    }
                }
            }
            true
        } else {
            false
        }
    }

    /// A hunter's shot. The shooter must own a hunter-state player, props
    /// must not be hiding, and the minimum shoot cooldown must have passed
    /// unless the shooter is an admin. A firing shot marks the shot time,
    /// casts the ray from the rotated shoot offset towards the target
    /// against everything but the shooter, damages the closest hit when it
    /// is a damageable prop or a hiding player during the hunt, credits
    /// the shooter's counters, and broadcasts exactly one shoot event from
    /// the ray's start to the hit point (or the target on a miss).
    pub fn perform_shoot(
        &mut self,
        shooter_id: EntityId,
        target: &Vector,
        now: u64,
        is_admin: bool,
        config: &GameConfig,
    ) -> (r: Result<Option<(EntityId, Frac)>, GameError>)
        requires
            old(self).wf(),
            config.wf(),
            target.bounded(COORD_LIMIT as i64),
        ensures
            final(self).wf(),
            final(self).state == old(self).state,
            final(self).state_timer_ms == old(self).state_timer_ms,
            final(self).clients == old(self).clients,
            // A missing shooter refuses and changes nothing.
            (forall|i: int|
                0 <= i < old(self).world.entities@.len() ==> (
                #[trigger] old(self).world.entities@[i]).id != shooter_id) ==> r == Err::<
                Option<(EntityId, Frac)>,
                GameError,
            >(GameError::MissingPlayerEntity) && *final(self) == *old(self),
            forall|si: int|
                0 <= si < old(self).world.entities@.len() && (
                #[trigger] old(self).world.entities@[si]).id == shooter_id ==> {
                    let shooter = old(self).world.entities@[si];
                    // Only a hunter-state player shoots, and not while the
                    // props are hiding.
                    &&& (!(shooter.kind is Player && shooter.kind->Player_0.state is Hunter)
                        || old(self).state is Hiding) ==> r == Err::<
                        Option<(EntityId, Frac)>,
                        GameError,
                    >(GameError::WrongPlayerState) && *final(self) == *old(self)
                    &&& (shooter.kind is Player && shooter.kind->Player_0.state is Hunter && !(
                    old(self).state is Hiding) && !is_admin && now
                        < shooter.kind->Player_0.state->Hunter_0.last_shoot_time
                        + config.player.min_shoot_delay_ms) ==> r == Err::<
                        Option<(EntityId, Frac)>,
                        GameError,
                    >(GameError::ShootingTooEarly) && *final(self) == *old(self)
                    // A firing shot: the shot time is marked and exactly
                    // one shoot event goes out, from the computed start.
                    &&& (shooter.kind is Player && shooter.kind->Player_0.state is Hunter && !(
                    old(self).state is Hiding) && (is_admin || now
                        >= shooter.kind->Player_0.state->Hunter_0.last_shoot_time
                        + config.player.min_shoot_delay_ms)) ==> {
                        let face = spec_clamp_dir(shooter.dir.value);
                        let ray = spec_shoot_ray(
                            shooter.body.position.value,
                            face,
                            *target,
                            config,
                        );
                        &&& final(self).world.entities@.len() == old(
                            self,
                        ).world.entities@.len()
                        &&& final(self).world.entities@[si].kind is Player
                        &&& final(self).world.entities@[si].kind->Player_0.state->Hunter_0.last_shoot_time == now
                        &&& (ray.dir.x == 0 && ray.dir.y == 0 && ray.dir.z == 0 ==> r == Ok::<
                            Option<(EntityId, Frac)>,
                            GameError,
                        >(None) && final(self).client_events == old(self).client_events)
                        &&& (!(ray.dir.x == 0 && ray.dir.y == 0 && ray.dir.z == 0) ==> {
                            &&& r is Ok
                            // The hit is the index's closest hit by the
                            // exact ray parameter, the shooter excluded.
                            &&& (match r->Ok_0 {
                                Some((hit_id, t)) => {
                                    &&& t.den > 0
                                    &&& exists|j: int, k: int|
                                        #[trigger] crate::quad_tree::ray_hit_at(
                                            old(self).world.quad_tree.spec_entries(),
                                            ray,
                                            Some(shooter_id),
                                            j,
                                            k,
                                            (t.num as int, t.den as int),
                                        ) && old(
                                            self,
                                        ).world.quad_tree.spec_entries()[j].id == hit_id
                                    &&& forall|j: int, k: int, n: int, d: int|
                                        crate::quad_tree::ray_hit_at(
                                            old(self).world.quad_tree.spec_entries(),
                                            ray,
                                            Some(shooter_id),
                                            j,
                                            k,
                                            (n, d),
                                        ) && d > 0 ==> crate::geometry::fle(
                                            (t.num as int, t.den as int),
                                            (n, d),
                                        )
                                },
                                None => forall|j: int, k: int, n: int, d: int|
                                    !crate::quad_tree::ray_hit_at(
                                        old(self).world.quad_tree.spec_entries(),
                                        ray,
                                        Some(shooter_id),
                                        j,
                                        k,
                                        (n, d),
                                    ),
                            })
                            // Exactly one shoot event goes out, from the
                            // ray's start to the hit point or the target.
                            &&& final(self).client_events@.len() == old(
                                self,
                            ).client_events@.len() + 1
                            &&& (final(self).client_events@.last() matches ClientEvent::Shoot(
                                ev,
                            ) && ev.shooter == shooter_id && ev.start == ray.origin
                                && (r->Ok_0 is None ==> ev.end == *target)
                                && (r->Ok_0 is Some ==> {
                                let t = (r->Ok_0->0).1;
                                ev.end == (Vector {
                                    x: spec_ray_point(ray.origin.x, ray.dir.x, t),
                                    y: spec_ray_point(ray.origin.y, ray.dir.y, t),
                                    z: spec_ray_point(ray.origin.z, ray.dir.z, t),
                                })
                            }))
                            // Everything but the shooter and the hit is
                            // untouched.
                            &&& (forall|q: int|
                                0 <= q < old(self).world.entities@.len() && (#[trigger] old(
                                    self,
                                ).world.entities@[q]).id != shooter_id && (match r->Ok_0 {
                                    Some(hit2) => old(self).world.entities@[q].id != hit2.0,
                                    None => true,
                                }) ==> final(self).world.entities@[q] == old(
                                    self,
                                ).world.entities@[q])
                            // The hit takes one hit of its prefab's
                            // health: a movable prop by its own prefab, a
                            // hiding player during the hunt by the prefab
                            // it wears; fixtures, hunters and the already
                            // dead take nothing.
                            &&& (match r->Ok_0 {
                                Some(hit2) => forall|h: int|
                                    0 <= h < old(self).world.entities@.len() && (#[trigger] old(
                                        self,
                                    ).world.entities@[h]).id == hit2.0 && old(
                                        self,
                                    ).world.entities@[h].id != shooter_id ==> {
                                        let oe = old(self).world.entities@[h];
                                        let ne = final(self).world.entities@[h];
                                        &&& (oe.kind is Prop && oe.kind->Prop_0.prefab.kind
                                            is Prop && oe.kind->Prop_0.prefab.health_milli >= 1
                                            && oe.health.value
                                            > crate::entities::entity::DEAD_HEALTH_MILLI
                                            ==> ne.health.value == spec_damaged(
                                            oe.health.value as int,
                                            spec_hit_damage(oe.kind->Prop_0.prefab.health_milli),
                                        ))
                                        &&& (oe.kind is Prop && !(oe.kind->Prop_0.prefab.kind
                                            is Prop) ==> ne.health == oe.health)
                                        &&& (oe.kind is Player && oe.kind->Player_0.state is Prop
                                            && old(self).state is Hunting && oe.health.value
                                            > crate::entities::entity::DEAD_HEALTH_MILLI && (
                                        exists|pi: int|
                                            0 <= pi < config.prefabs@.len() && (
                                            #[trigger] config.prefabs@[pi]).id@
                                                == oe.kind.spec_prefab_id(config)) && (forall|
                                            pi: int,
                                        |
                                            0 <= pi < config.prefabs@.len() && (
                                            #[trigger] config.prefabs@[pi]).id@
                                                == oe.kind.spec_prefab_id(config)
                                                ==> config.prefabs@[pi].health_milli >= 1)
                                            ==> exists|pi: int|
                                            0 <= pi < config.prefabs@.len() && (
                                            #[trigger] config.prefabs@[pi]).id@
                                                == oe.kind.spec_prefab_id(config)
                                                && config.prefabs@[pi].health_milli >= 1
                                                && ne.health.value == spec_damaged(
                                                oe.health.value as int,
                                                spec_hit_damage(config.prefabs@[pi].health_milli),
                                            ))
                                        &&& (oe.kind is Player && !(oe.kind->Player_0.state
                                            is Prop && old(self).state is Hunting) ==> ne.health
                                            == oe.health)
                                        &&& (oe.health.value
                                            <= crate::entities::entity::DEAD_HEALTH_MILLI
                                            ==> ne.health == oe.health)
                                    },
                                None => true,
                            })
                        })
                    }
                },
    {
        let si = match self.world.entity_index_with_id(shooter_id) {
            Some(i) => i,
            None => {
                return Err(GameError::MissingPlayerEntity);
            },
        };
        proof {
            assert(self.world.entities@[si as int].wf());
            crate::game_world::lemma_entity_id_count_at_least_one(
                self.world.entities@,
                shooter_id,
                si as int,
            );
            assert forall|i: int|
                0 <= i < self.world.entities@.len() && (
                #[trigger] self.world.entities@[i]).id == shooter_id implies i == si as int by {
                if i < si as int {
                    lemma_two_count(self.world.entities@, i, si as int, shooter_id);
                } else if i > si as int {
                    lemma_two_count(self.world.entities@, si as int, i, shooter_id);
                }
            }
        }

        // Only a hunter-state player shoots, and not while hiding.
        let last_shoot = match &self.world.entities[si].kind {
            EntityKind::Player(p) => match &p.state {
                PlayerState::Hunter(h) => h.last_shoot_time,
                PlayerState::Prop(_) => {
                    return Err(GameError::WrongPlayerState);
                },
            },
            EntityKind::Prop(_) => {
                return Err(GameError::WrongPlayerState);
            },
        };
        match self.state {
            GameState::Hiding => {
                return Err(GameError::WrongPlayerState);
            },
            _ => {},
        }

        // The minimum shoot cooldown; admins shoot as fast as they want.
        if !is_admin {
            if last_shoot <= u64::MAX - config.player.min_shoot_delay_ms && now < last_shoot
                + config.player.min_shoot_delay_ms {
                return Err(GameError::ShootingTooEarly);
            }
            if last_shoot > u64::MAX - config.player.min_shoot_delay_ms {
                return Err(GameError::ShootingTooEarly);
            }
        }

        // Mark the shot time.
        let ghost pre = self.world.entities@;
        {
            let e = &mut self.world.entities[si];
            match &mut e.kind {
                EntityKind::Player(p) => {
                    p.set_state(PlayerState::Hunter(HunterState { last_shoot_time: now }));
                },
                EntityKind::Prop(_) => {},
            }
        }
        proof {
            assert forall|id: EntityId| #[trigger]
                crate::game_world::entity_id_count(self.world.entities@, id)
                    == crate::game_world::entity_id_count(pre, id) by {
                crate::game_world::lemma_entity_id_count_update(
                    pre,
                    si as int,
                    self.world.entities@[si as int],
                    id,
                );
            }
            assert forall|q: int| 0 <= q < self.world.entities@.len() implies (
            #[trigger] self.world.entities@[q]).wf() by {
                assert(pre[q].wf());
                if q != si as int {
                    assert(self.world.entities@[q] == pre[q]);
                }
            }
            assert(self.world.wf());
            assert(self.wf());
        }

        // Build the ray from the rotated shoot offset.
        let origin = *self.world.entities[si].body.get_pos();
        let face_dir = clamp_dir(*self.world.entities[si].dir());
        let ray = match shoot_ray(&origin, face_dir, target, config) {
            Some(r) => r,
            None => {
                return Ok(None);
            },
        };
        let hit = self.world.cast_ray(&ray, Some(shooter_id));

        // Resolve the hit: a damageable target takes one hit's damage, and
        // the shooter's counters move.
        let mut end = *target;
        match &hit {
            Some((hit_id, t)) => {
                end = Vector::new(
                    ray_point(ray.origin.x, ray.dir.x, *t),
                    ray_point(ray.origin.y, ray.dir.y, *t),
                    ray_point(ray.origin.z, ray.dir.z, *t),
                );
                self.apply_shot_damage(shooter_id, *hit_id, config);
            },
            None => {
                self.record_shot(shooter_id, false);
            },
        }
        self.client_events.push(
            ClientEvent::Shoot(ShootEvent { shooter: shooter_id, start: ray.origin, end }),
        );
        proof {
            assert(self.world.entities@[si as int].kind is Player);
            assert(self.world.entities@[si as int].kind->Player_0.state->Hunter_0.last_shoot_time
                == now);
        }
        Ok(hit)
    }

    /// Damages a hit entity when it is damageable — a movable prop, or a
    /// hiding player during the hunt — by one hit of its prefab's health,
    /// and credits the shooter's shot and kill counters.
    fn apply_shot_damage(&mut self, shooter_id: EntityId, hit_id: EntityId, config: &GameConfig)
        requires
            old(self).wf(),
            config.wf(),
        ensures
            final(self).wf(),
            final(self).state == old(self).state,
            final(self).state_timer_ms == old(self).state_timer_ms,
            final(self).clients == old(self).clients,
            final(self).client_events == old(self).client_events,
            final(self).world.entities@.len() == old(self).world.entities@.len(),
            forall|q: int|
                0 <= q < old(self).world.entities@.len() ==> (
                #[trigger] final(self).world.entities@[q]).id == old(
                    self,
                ).world.entities@[q].id,
            // Everything but the hit entity and the shooter is untouched.
            forall|q: int|
                0 <= q < old(self).world.entities@.len() && old(self).world.entities@[q].id
                    != hit_id && old(self).world.entities@[q].id != shooter_id ==> (
                #[trigger] final(self).world.entities@[q]) == old(self).world.entities@[q],
            // The hit takes one hit of its prefab's health: a movable
            // prop by its own prefab, a hiding player during the hunt by
            // the prefab it wears; fixtures, hunters and the already dead
            // take nothing.
            forall|h: int|
                0 <= h < old(self).world.entities@.len() && (
                #[trigger] old(self).world.entities@[h]).id == hit_id && old(
                    self,
                ).world.entities@[h].id != shooter_id ==> {
                    let oe = old(self).world.entities@[h];
                    let ne = final(self).world.entities@[h];
                    &&& (oe.kind is Prop && oe.kind->Prop_0.prefab.kind is Prop
                        && oe.kind->Prop_0.prefab.health_milli >= 1 && oe.health.value
                        > crate::entities::entity::DEAD_HEALTH_MILLI ==> ne.health.value
                        == spec_damaged(
                        oe.health.value as int,
                        spec_hit_damage(oe.kind->Prop_0.prefab.health_milli),
                    ))
                    &&& (oe.kind is Prop && !(oe.kind->Prop_0.prefab.kind is Prop) ==> ne.health
                        == oe.health)
                    &&& (oe.kind is Player && oe.kind->Player_0.state is Prop && old(
                        self,
                    ).state is Hunting && oe.health.value
                        > crate::entities::entity::DEAD_HEALTH_MILLI && (exists|pi: int|
                        0 <= pi < config.prefabs@.len() && (#[trigger] config.prefabs@[pi]).id@
                            == oe.kind.spec_prefab_id(config)) && (forall|pi: int|
                        0 <= pi < config.prefabs@.len() && (#[trigger] config.prefabs@[pi]).id@
                            == oe.kind.spec_prefab_id(config)
                            ==> config.prefabs@[pi].health_milli >= 1) ==> exists|pi: int|
                        0 <= pi < config.prefabs@.len() && (#[trigger] config.prefabs@[pi]).id@
                            == oe.kind.spec_prefab_id(config) && config.prefabs@[pi].health_milli
                            >= 1 && ne.health.value == spec_damaged(
                            oe.health.value as int,
                            spec_hit_damage(config.prefabs@[pi].health_milli),
                        ))
                    &&& (oe.kind is Player && !(oe.kind->Player_0.state is Prop && old(
                        self,
                    ).state is Hunting) ==> ne.health == oe.health)
                    &&& (oe.health.value <= crate::entities::entity::DEAD_HEALTH_MILLI
                        ==> ne.health == oe.health)
                },
            forall|q: int|
                0 <= q < old(self).world.entities@.len() && old(self).world.entities@[q].id
                    == shooter_id && old(self).world.entities@[q].kind is Player ==> (
                #[trigger] final(self).world.entities@[q]).kind is Player && final(self).world.entities@[q].kind->Player_0.state == old(self).world.entities@[q].kind->Player_0.state,
    {
        let hi = match self.world.entity_index_with_id(hit_id) {
            Some(i) => i,
            None => {
                self.record_shot(shooter_id, false);
                return ;
            },
        };
        proof {
            assert(self.world.entities@[hi as int].wf());
            crate::game_world::lemma_entity_id_count_at_least_one(
                self.world.entities@,
                hit_id,
                hi as int,
            );
            crate::game_world::lemma_entity_unique_index(self.world.entities@, hi as int, hit_id);
        }
        // What the hit is worth: a movable prop's own prefab, or a hiding
        // player's prefab during the hunt; fixtures and hunters take none.
        let mut hit_prop_player = false;
        let health_milli: u64 = match &self.world.entities[hi].kind {
            EntityKind::Prop(p) => match p.prefab.kind {
                crate::game_config::PrefabKind::Prop => p.prefab.health_milli,
                crate::game_config::PrefabKind::Fixture => 0,
            },
            EntityKind::Player(p) => match &p.state {
                PlayerState::Prop(_) => {
                    hit_prop_player = true;
                    match self.state {
                        GameState::Hunting => {
                            match config.prefab_with_id(
                                &self.world.entities[hi].kind.prefab_id(config),
                            ) {
                                Some(pf) => pf.health_milli,
                                None => 0,
                            }
                        },
                        _ => 0,
                    }
                },
                PlayerState::Hunter(_) => 0,
            },
        };
        self.record_shot(shooter_id, hit_prop_player);
        if health_milli >= 1 {
            let was_dead = {
                let e = &self.world.entities[hi];
                *e.health.get() <= crate::entities::entity::DEAD_HEALTH_MILLI
            };
            if !was_dead {
                let dmg = 1_000_000 / health_milli;
                let dmg = if dmg > 1_000_000 {
                    1_000_000
                } else {
                    dmg
                };
                let ghost pre = self.world.entities@;
                let now_dead = {
                    let e = &mut self.world.entities[hi];
                    e.damage(dmg as i64);
                    *e.health.get() <= crate::entities::entity::DEAD_HEALTH_MILLI
                };
                proof {
                    assert forall|id: EntityId| #[trigger]
                        crate::game_world::entity_id_count(self.world.entities@, id)
                            == crate::game_world::entity_id_count(pre, id) by {
                        crate::game_world::lemma_entity_id_count_update(
                            pre,
                            hi as int,
                            self.world.entities@[hi as int],
                            id,
                        );
                    }
                }
                // The entity was killed: award the kill.
                if hit_prop_player && now_dead {
                    self.record_kill(shooter_id);
                }
            }
        }
    }

    /// Credits one shot, hit or missed, to the shooter.
    fn record_shot(&mut self, shooter_id: EntityId, hit: bool)
        requires
            old(self).wf(),
        ensures
            final(self).wf(),
            final(self).state == old(self).state,
            final(self).state_timer_ms == old(self).state_timer_ms,
            final(self).clients == old(self).clients,
            final(self).client_events == old(self).client_events,
            final(self).world.entities@.len() == old(self).world.entities@.len(),
            forall|q: int|
                0 <= q < old(self).world.entities@.len() ==> (
                #[trigger] final(self).world.entities@[q]).id == old(
                    self,
                ).world.entities@[q].id,
            forall|q: int|
                0 <= q < old(self).world.entities@.len() && old(self).world.entities@[q].id
                    != shooter_id ==> (#[trigger] final(self).world.entities@[q]) == old(
                    self,
                ).world.entities@[q],
            forall|q: int|
                0 <= q < old(self).world.entities@.len() && old(self).world.entities@[q].id
                    == shooter_id && old(self).world.entities@[q].kind is Player ==> (
                #[trigger] final(self).world.entities@[q]).kind is Player && final(self).world.entities@[q].kind->Player_0.state == old(self).world.entities@[q].kind->Player_0.state,
    {
        let si = match self.world.entity_index_with_id(shooter_id) {
            Some(i) => i,
            None => {
                return ;
            },
        };
        proof {
            assert(self.world.entities@[si as int].wf());
        }
        let ghost pre = self.world.entities@;
        let e = &mut self.world.entities[si];
        match &mut e.kind {
            EntityKind::Player(p) => {
                p.score_counter.shot(hit);
            },
            EntityKind::Prop(_) => {},
        }
        proof {
            assert forall|id: EntityId| #[trigger]
                crate::game_world::entity_id_count(self.world.entities@, id)
                    == crate::game_world::entity_id_count(pre, id) by {
                crate::game_world::lemma_entity_id_count_update(
                    pre,
                    si as int,
                    self.world.entities@[si as int],
                    id,
                );
            }
        }
    }

    /// Credits one kill to the shooter.
    fn record_kill(&mut self, shooter_id: EntityId)
        requires
            old(self).wf(),
        ensures
            final(self).wf(),
            final(self).state == old(self).state,
            final(self).state_timer_ms == old(self).state_timer_ms,
            final(self).clients == old(self).clients,
            final(self).client_events == old(self).client_events,
            final(self).world.entities@.len() == old(self).world.entities@.len(),
            forall|q: int|
                0 <= q < old(self).world.entities@.len() ==> (
                #[trigger] final(self).world.entities@[q]).id == old(
                    self,
                ).world.entities@[q].id,
            forall|q: int|
                0 <= q < old(self).world.entities@.len() && old(self).world.entities@[q].id
                    != shooter_id ==> (#[trigger] final(self).world.entities@[q]) == old(
                    self,
                ).world.entities@[q],
            forall|q: int|
                0 <= q < old(self).world.entities@.len() && old(self).world.entities@[q].id
                    == shooter_id && old(self).world.entities@[q].kind is Player ==> (
                #[trigger] final(self).world.entities@[q]).kind is Player && final(self).world.entities@[q].kind->Player_0.state == old(self).world.entities@[q].kind->Player_0.state,
    {
        let si = match self.world.entity_index_with_id(shooter_id) {
            Some(i) => i,
            None => {
                return ;
            },
        };
        proof {
            assert(self.world.entities@[si as int].wf());
        }
        let ghost pre = self.world.entities@;
        let e = &mut self.world.entities[si];
        match &mut e.kind {
            EntityKind::Player(p) => {
                p.score_counter.killed_player();
            },
            EntityKind::Prop(_) => {},
        }
        proof {
            assert forall|id: EntityId| #[trigger]
                crate::game_world::entity_id_count(self.world.entities@, id)
                    == crate::game_world::entity_id_count(pre, id) by {
                crate::game_world::lemma_entity_id_count_update(
                    pre,
                    si as int,
                    self.world.entities@[si as int],
                    id,
                );
            }
        }
    }
}

/// One hit's damage against a prefab's health pool, in thousandths.
pub open spec fn spec_hit_damage(health_milli: u64) -> int {
    let d = 1_000_000int / health_milli as int;
    if d > 1_000_000 {
        1_000_000int
    } else {
        d
    }
}

/// A health bar after taking damage, clamped at the bottom of the range.
pub open spec fn spec_damaged(health: int, dmg: int) -> int {
    if health - dmg >= -1_000_000 {
        health - dmg
    } else {
        -1_000_000
    }
}

/// A facing angle clamped into the trig range.
pub open spec fn spec_clamp_dir(d: i64) -> i64 {
    if d > 1_000_000_000 {
        1_000_000_000
    } else if d < -1_000_000_000 {
        (-1_000_000_000) as i64
    } else {
        d
    }
}

fn clamp_dir(d: i64) -> (r: i64)
    ensures
        r == spec_clamp_dir(d),
{
    if d > 1_000_000_000 {
        1_000_000_000
    } else if d < -1_000_000_000 {
        -1_000_000_000
    } else {
        d
    }
}

/// Two distinct indices with one id force a count of at least two.
proof fn lemma_two_count(s: Seq<Entity>, i: int, j: int, id: EntityId)
    requires
        0 <= i < j < s.len(),
        s[i].id == id,
        s[j].id == id,
    ensures
        crate::game_world::entity_id_count(s, id) >= 2,
    decreases s.len(),
{
    if j == s.len() - 1 {
        crate::game_world::lemma_entity_id_count_at_least_one(s.drop_last(), id, i);
    } else {
        lemma_two_count(s.drop_last(), i, j, id);
        crate::game_world::lemma_entity_id_count_nonneg(s.drop_last(), id);
    }
}

impl Game {
    /// Registers a fresh session.
    pub fn add_client(&mut self) -> (r: crate::network::ClientId)
        requires
            old(self).wf(),
        ensures
            final(self).wf(),
            final(self).clients@.len() == old(self).clients@.len() + 1,
            final(self).state == old(self).state,
            final(self).state_timer_ms == old(self).state_timer_ms,
    {
        let id = self.client_counter.tick();
        self.clients.push((id, ClientHandle::new()));
        id
    }

    /// Joins a client's player into the world during the pre-game: the
    /// entity spawns on the ring with the chosen character, labelled by
    /// the username.
    pub fn join_player(
        &mut self,
        client_index: usize,
        username: String,
        character_id: String,
        config: &GameConfig,
    ) -> (r: bool)
        requires
            old(self).wf(),
            config.wf(),
            client_index < old(self).clients@.len(),
        ensures
            final(self).wf(),
            final(self).state == old(self).state,
            final(self).state_timer_ms == old(self).state_timer_ms,
            final(self).clients@.len() == old(self).clients@.len(),
            // Joining succeeds exactly when the client has no player yet,
            // the pre-game is on, the character is in the store, its
            // prefab exists, and ids are left to hand out.
            r <==> {
                &&& old(self).clients@[client_index as int].1.player_id is None
                &&& old(self).state is PreGame
                &&& (exists|k: int|
                    0 <= k < config.store.characters@.len() && (
                    #[trigger] config.store.characters@[k]).id@ == character_id@)
                &&& (exists|pi: int|
                    0 <= pi < config.prefabs@.len() && (#[trigger] config.prefabs@[pi]).id@
                        == "player:"@ + character_id@)
                &&& old(self).world.entity_counter.count < u64::MAX
            },
            // A refused join changes nothing.
            !r ==> *final(self) == *old(self),
            // A joined player: the client mounts a fresh id, other clients
            // are untouched, and a labelled hunter player carrying the
            // username stands in the world on the spawn ring.
            r ==> {
                &&& final(self).clients@[client_index as int].1 == (ClientHandle {
                    player_id: Some(old(self).world.entity_counter.count),
                    ..old(self).clients@[client_index as int].1
                })
                &&& forall|j: int|
                    0 <= j < old(self).clients@.len() && j != client_index as int ==> (
                    #[trigger] final(self).clients@[j]) == old(self).clients@[j]
                &&& exists|q: int|
                    0 <= q < final(self).world.entities@.len() && {
                        let ne = #[trigger] final(self).world.entities@[q];
                        &&& ne.id == old(self).world.entity_counter.count
                        &&& ne.kind is Player
                        &&& ne.kind->Player_0.username@ == username@
                        &&& ne.kind->Player_0.character_id@ == character_id@
                        &&& ne.kind->Player_0.state is Hunter
                        &&& ne.label.value == Some(username)
                        &&& ne.health.value == 1000
                        &&& spec_on_spawn_ring(ne.body.position.value)
                    }
            },
    {
        // Only join once, and only during the pre-game.
        if self.clients[client_index].1.player_id.is_some() {
            return false;
        }
        match self.state {
            GameState::PreGame => {},
            _ => {
                return false;
            },
        }
        // The chosen character must be one the store offers.
        let mut known_character = false;
        let nc = config.store.characters.len();
        let mut ci: usize = 0;
        while ci < nc
            invariant
                nc == config.store.characters@.len(),
                ci <= nc,
                known_character == (exists|k: int|
                    0 <= k < ci && (#[trigger] config.store.characters@[k]).id@
                        == character_id@),
            decreases nc - ci,
        {
            if config.store.characters[ci].id == character_id {
                known_character = true;
            }
            ci += 1;
        }
        if !known_character {
            return false;
        }
        let is_admin = self.clients[client_index].1.is_admin;
        let mut player = Player::new(
            crate::game_config::clone_string(&username),
            character_id,
            is_admin,
        );
        // The character's prefab must exist before an id is spent on it.
        let mut prefab_probe: String = "player:".to_string();
        prefab_probe.append(player.character_id.as_str());
        if config.prefab_with_id(&prefab_probe).is_none() {
            return false;
        }
        if self.world.entity_counter.count == u64::MAX {
            return false;
        }
        let id = self.world.next_id();
        let entity = match Entity::new(id, EntityKind::Player(player), config) {
            Some(mut e) => {
                e.set_label(Some(username));
                e
            },
            None => {
                proof {
                    assert(false);
                }
                return false;
            },
        };
        proof {
            crate::game_world::lemma_entity_id_count_nonneg(self.world.entities@, id);
            if crate::game_world::entity_id_count(self.world.entities@, id) > 0 {
                let w = crate::game_world::lemma_entity_count_witness(self.world.entities@, id);
            }
        }
        self.world.insert_entity(entity);
        let ghost mid = self.world.entities@;
        let c = &mut self.clients[client_index];
        c.1.player_id = Some(id);
        self.move_player_to_spawn(id);
        proof {
            let q = mid.len() - 1;
            assert(mid[q] == entity);
            assert(self.world.entities@[q].id == id);
            assert(self.world.entities@[q].kind is Player);
            assert(spec_on_spawn_ring(self.world.entities@[q].body.position.value));
        }
        true
    }

    /// How many player entities currently hold the hunter role.
    pub fn hunter_count(&self) -> (r: usize)
        ensures
            r <= self.world.entities@.len(),
    {
        let n = self.world.entities.len();
        let mut count: usize = 0;
        let mut i: usize = 0;
        while i < n
            invariant
                n == self.world.entities@.len(),
                i <= n,
                count <= i,
            decreases n - i,
        {
            match &self.world.entities[i].kind {
                EntityKind::Player(p) => match p.state {
                    PlayerState::Hunter(_) => {
                        count += 1;
                    },
                    PlayerState::Prop(_) => {},
                },
                EntityKind::Prop(_) => {},
            }
            i += 1;
        }
        count
    }
}

/// One coordinate of the point a ray reaches at an exact parameter:
/// the origin plus the direction scaled by the parameter, rounded towards
/// zero and clamped into the coordinate range.
pub open spec fn spec_ray_point(o: i64, d: i64, t: Frac) -> i64 {
    let q = crate::entities::player::spec_div_trunc(d * t.num, t.den as int);
    if o + q > COORD_LIMIT {
        COORD_LIMIT
    } else if o + q < -COORD_LIMIT {
        (-COORD_LIMIT) as i64
    } else {
        (o + q) as i64
    }
}

fn ray_point(o: i64, d: i64, t: Frac) -> (r: i64)
    requires
        t.den > 0,
    ensures
        r == spec_ray_point(o, d, t),
        -COORD_LIMIT <= r <= COORD_LIMIT,
{
    proof {
        crate::geometry::lemma_i64_prod_fits_pub(d as i128, t.num as i128);
        assert((d as i128) * (t.num as i128) == d * t.num) by (nonlinear_arith);
    }
    let p: i128 = (d as i128) * (t.num as i128);
    let q: i128 = if p >= 0 {
        proof {
            vstd::arithmetic::div_mod::lemma_div_is_ordered(0, p as int, t.den as int);
        }
        p / (t.den as i128)
    } else {
        proof {
            vstd::arithmetic::div_mod::lemma_div_is_ordered(0, -p as int, t.den as int);
        }
        -((-p) / (t.den as i128))
    };
    proof {
        vstd::arithmetic::div_mod::lemma_div_is_ordered_by_denominator(
            if p >= 0 {
                p as int
            } else {
                -p as int
            },
            1,
            t.den as int,
        );
        assert((if p >= 0 {
            p as int
        } else {
            -p as int
        }) / 1 == if p >= 0 {
            p as int
        } else {
            -p as int
        });
    }
    let s: i128 = (o as i128) + q;

    if s > COORD_LIMIT as i128 {
        COORD_LIMIT
    } else if s < -COORD_LIMIT as i128 {
        -COORD_LIMIT
    } else {
        s as i64
    }
}

impl Game {
    /// Scans the world for the two sides: whether any prop-role player and
    /// any hunter-role player is left.
    pub fn sides_present(&self) -> (r: (bool, bool))
        ensures
            r.0 == (exists|i: int|
                0 <= i < self.world.entities@.len() && (#[trigger] self.world.entities@[i]).kind
                    is Player && self.world.entities@[i].kind->Player_0.state is Prop),
            r.1 == (exists|i: int|
                0 <= i < self.world.entities@.len() && (#[trigger] self.world.entities@[i]).kind
                    is Player && self.world.entities@[i].kind->Player_0.state is Hunter),
    {
        let n = self.world.entities.len();
        let mut has_props = false;
        let mut has_hunters = false;
        let mut i: usize = 0;
        while i < n
            invariant
                n == self.world.entities@.len(),
                i <= n,
                has_props == (exists|j: int|
                    0 <= j < i && (#[trigger] self.world.entities@[j]).kind is Player
                        && self.world.entities@[j].kind->Player_0.state is Prop),
                has_hunters == (exists|j: int|
                    0 <= j < i && (#[trigger] self.world.entities@[j]).kind is Player
                        && self.world.entities@[j].kind->Player_0.state is Hunter),
            decreases n - i,
        {
            match &self.world.entities[i].kind {
                EntityKind::Player(p) => match p.state {
                    PlayerState::Hunter(_) => {
                        has_hunters = true;
                    },
                    PlayerState::Prop(_) => {
                        has_props = true;
                    },
                },
                EntityKind::Prop(_) => {},
            }
            i += 1;
        }
        (has_props, has_hunters)
    }

    /// During hunting, ends the round when a side is gone: the hunters win
    /// with no props left, the props win with no hunters left.
    pub fn check_game_over(&mut self, config: &GameConfig) -> (results: Vec<
        (crate::network::ClientId, Vec<u8>),
    >)
        requires
            old(self).wf(),
            config.wf(),
        ensures
            final(self).wf(),
            // Only a running hunt can end.
            !(old(self).state is Hunting) ==> *final(self) == *old(self) && results@.len() == 0,
            // The hunt ends exactly when one side is gone: the props win
            // when no hunter remains, the hunters when no prop does.
            old(self).state is Hunting ==> {
                let has_props = exists|i: int|
                    0 <= i < old(self).world.entities@.len() && (
                    #[trigger] old(self).world.entities@[i]).kind is Player && old(
                        self,
                    ).world.entities@[i].kind->Player_0.state is Prop;
                let has_hunters = exists|i: int|
                    0 <= i < old(self).world.entities@.len() && (
                    #[trigger] old(self).world.entities@[i]).kind is Player && old(
                        self,
                    ).world.entities@[i].kind->Player_0.state is Hunter;
                &&& (has_props && has_hunters ==> *final(self) == *old(self) && results@.len()
                    == 0)
                &&& (!(has_props && has_hunters) ==> final(self).state is PreGame && final(self).state_timer_ms == 10_000)
            },
    {
        match self.state {
            GameState::Hunting => {},
            _ => {
                return Vec::new();
            },
        }
        let (has_props, has_hunters) = self.sides_present();
        match round_outcome(has_props, has_hunters, false) {
            Some(props_win) => self.finish_game(props_win, config),
            None => Vec::new(),
        }
    }
}


/// Whether a client with this id has a player mounted.
pub open spec fn spec_joined_client(clients: Seq<(crate::network::ClientId, ClientHandle)>, cid: u64) -> bool {
    exists|j: int|
        0 <= j < clients.len() && (#[trigger] clients[j]).0 == cid && clients[j].1.player_id
            is Some
}

/// Whether a scoreboard row reports a player entity: its id, side, name
/// and exact pre-placement score.
pub open spec fn spec_scoreboard_row_for(
    row: ScoreboardItem,
    e: Entity,
    props_win: Option<bool>,
    config: &GameConfig,
) -> bool {
    let pl = e.kind->Player_0;
    &&& row.entity_id == e.id
    &&& row.is_prop == (pl.state is Prop)
    &&& row.username@ == pl.username@
    &&& row.score == pl.score_counter.spec_calculate(
        None,
        match props_win {
            Some(pw) => Some((pl.state is Prop) == pw),
            None => None,
        },
        config,
    )
}

/// The entity positions holding fixtures, in entity order: the minimap
/// draws exactly these.
pub open spec fn spec_fixture_indices(entities: Seq<Entity>, k: int) -> Seq<int>
    decreases k,
{
    if k <= 0 {
        Seq::empty()
    } else {
        let rest = spec_fixture_indices(entities, k - 1);
        if entities[k - 1].kind is Prop && entities[k - 1].kind->Prop_0.prefab.kind is Fixture {
            rest.push(k - 1)
        } else {
            rest
        }
    }
}

/// A fixture's minimap rect: the cached rotated rect carried to the
/// fixture's world position.
pub open spec fn spec_minimap_rect(rc: Rect, pos: Vector) -> Rect {
    Rect {
        center: (Vector {
            x: spec_clamp_map(rc.center.x, pos.x),
            y: spec_clamp_map(rc.center.y, pos.y),
            z: spec_clamp_map(rc.center.z, pos.z),
        }),
        size: rc.size,
    }
}

/// Whether a tick refreshes everyone's scoreboard: every tenth update,
/// counted from the start of the process.
pub fn scoreboard_refresh_due(tick_count: u64) -> (r: bool)
    ensures
        r == (tick_count % 10 == 0),
{
    tick_count % 10 == 0
}

/// Whether a point sits on the square spawn ring at unit height.
pub open spec fn spec_on_spawn_ring(p: Vector) -> bool {
    &&& -75_000 <= p.x <= 75_000
    &&& -75_000 <= p.y <= 75_000
    &&& (p.x == 75_000 || p.x == -75_000 || p.y == 75_000 || p.y == -75_000)
    &&& p.z == 1000
}

/// Whether some entity with this id is a hunter-state player.
pub open spec fn spec_is_hunter_id(entities: Seq<Entity>, id: EntityId) -> bool {
    exists|i: int|
        0 <= i < entities.len() && (#[trigger] entities[i]).id == id && entities[i].kind is Player
            && entities[i].kind->Player_0.state is Hunter
}

impl Game {
    /// Drops a client from the game: the client leaves the list, and the
    /// player entity it still had mounted leaves the world and is marked
    /// destroyed.
    pub fn remove_client(&mut self, client_index: usize)
        requires
            old(self).wf(),
            client_index < old(self).clients@.len(),
        ensures
            final(self).wf(),
            final(self).state == old(self).state,
            final(self).state_timer_ms == old(self).state_timer_ms,
            final(self).clients@ == old(self).clients@.remove(client_index as int),
            final(self).client_events == old(self).client_events,
            match old(self).clients@[client_index as int].1.player_id {
                Some(pid) => {
                    &&& crate::game_world::entity_id_count(final(self).world.entities@, pid) == 0
                    &&& (crate::game_world::entity_id_count(old(self).world.entities@, pid) == 1
                        ==> final(self).world.destroyed_entities@ == old(
                        self,
                    ).world.destroyed_entities@.push(pid))
                    &&& (crate::game_world::entity_id_count(old(self).world.entities@, pid) == 0
                        ==> final(self).world.entities == old(self).world.entities && final(self).world.destroyed_entities == old(self).world.destroyed_entities)
                },
                None => final(self).world == old(self).world,
            },
    {
        let (_, client) = self.clients.remove(client_index);
        match client.player_id {
            Some(pid) => {
                let r = self.world.remove_entity_with_id(pid);
                proof {
                    if r is Err {
                        assert(crate::game_world::entity_id_count(self.world.entities@, pid) == 0);
                    }
                }
            },
            None => {},
        }
    }

    /// A random hunter to spectate, when any player is hunting.
    fn random_hunter(&self) -> (r: Option<EntityId>)
        requires
            self.wf(),
        ensures
            match r {
                Some(id) => spec_is_hunter_id(self.world.entities@, id),
                None => true,
            },
    {
        let mut hunters: Vec<EntityId> = Vec::new();
        let n = self.world.entities.len();
        let mut i: usize = 0;
        while i < n
            invariant
                n == self.world.entities@.len(),
                i <= n,
                forall|k: int|
                    0 <= k < hunters@.len() ==> spec_is_hunter_id(
                        self.world.entities@,
                        #[trigger] hunters@[k],
                    ),
            decreases n - i,
        {
            let e = &self.world.entities[i];
            match &e.kind {
                EntityKind::Player(p) => match &p.state {
                    PlayerState::Hunter(_) => {
                        let ghost pre_h = hunters@;
                        hunters.push(e.id);
                        proof {
                            assert((i as int) < self.world.entities@.len() && (
                            self.world.entities@[i as int]).id == e.id
                                && self.world.entities@[i as int].kind is Player
                                && self.world.entities@[i as int].kind->Player_0.state is Hunter);
                            assert(spec_is_hunter_id(self.world.entities@, e.id));
                            assert forall|k: int| 0 <= k < hunters@.len() implies spec_is_hunter_id(
                                self.world.entities@,
                                #[trigger] hunters@[k],
                            ) by {
                                if k < pre_h.len() {
                                    assert(hunters@[k] == pre_h[k]);
                                } else {
                                    assert(hunters@[k] == e.id);
                                }
                            }
                        }
                    },
                    PlayerState::Prop(_) => {},
                },
                EntityKind::Prop(_) => {},
            }
            i += 1;
        }
        match crate::utils::random_sample(&hunters) {
            Some(id) => Some(*id),
            None => None,
        }
    }

    /// Refreshes where one client looks: a mounted client never spectates,
    /// a mount whose entity is gone is dropped, and a spectator whose
    /// target is gone is handed a random hunter instead.
    pub fn refresh_client_focus(&mut self, client_index: usize)
        requires
            old(self).wf(),
            client_index < old(self).clients@.len(),
        ensures
            final(self).wf(),
            final(self).state == old(self).state,
            final(self).state_timer_ms == old(self).state_timer_ms,
            final(self).world == old(self).world,
            final(self).client_events == old(self).client_events,
            final(self).clients@.len() == old(self).clients@.len(),
            forall|j: int|
                0 <= j < old(self).clients@.len() && j != client_index as int ==> (
                #[trigger] final(self).clients@[j]) == old(self).clients@[j],
            ({
                let oc = old(self).clients@[client_index as int].1;
                let nc = final(self).clients@[client_index as int].1;
                &&& final(self).clients@[client_index as int].0 == old(
                    self,
                ).clients@[client_index as int].0
                &&& (match oc.player_id {
                    // A mounted client never spectates; a stale mount is
                    // dropped.
                    Some(pid) => nc.spectating_id is None && nc.player_id == (
                    if crate::game_world::entity_id_count(old(self).world.entities@, pid) > 0 {
                        Some(pid)
                    } else {
                        None::<EntityId>
                    }) && nc == (ClientHandle {
                        player_id: nc.player_id,
                        spectating_id: None,
                        ..oc
                    }),
                    None => match oc.spectating_id {
                        // A spectator whose target vanished watches a
                        // hunter instead, when one exists.
                        Some(sid) => {
                            &&& (crate::game_world::entity_id_count(
                                old(self).world.entities@,
                                sid,
                            ) > 0 ==> nc == oc)
                            &&& (crate::game_world::entity_id_count(
                                old(self).world.entities@,
                                sid,
                            ) == 0 ==> nc == (ClientHandle {
                                spectating_id: nc.spectating_id,
                                ..oc
                            }) && (match nc.spectating_id {
                                Some(h) => spec_is_hunter_id(old(self).world.entities@, h),
                                None => true,
                            }))
                        },
                        None => nc == oc,
                    },
                })
            }),
    {
        let player_id = self.clients[client_index].1.player_id;
        match player_id {
            Some(pid) => {
                let idx = self.world.entity_index_with_id(pid);
                proof {
                    match idx {
                        Some(i) => crate::game_world::lemma_entity_id_count_at_least_one(
                            self.world.entities@,
                            pid,
                            i as int,
                        ),
                        None => {
                            crate::game_world::lemma_entity_id_count_nonneg(
                                self.world.entities@,
                                pid,
                            );
                            if crate::game_world::entity_id_count(self.world.entities@, pid) > 0 {
                                let j = crate::game_world::lemma_entity_count_witness(
                                    self.world.entities@,
                                    pid,
                                );
                            }
                        },
                    }
                }
                let present = idx.is_some();
                let c = &mut self.clients[client_index].1;
                c.spectating_id = None;
                if !present {
                    c.player_id = None;
                }
            },
            None => {
                let spectating = self.clients[client_index].1.spectating_id;
                match spectating {
                    Some(sid) => {
                        let idx = self.world.entity_index_with_id(sid);
                        proof {
                            match idx {
                                Some(i) => crate::game_world::lemma_entity_id_count_at_least_one(
                                    self.world.entities@,
                                    sid,
                                    i as int,
                                ),
                                None => {
                                    crate::game_world::lemma_entity_id_count_nonneg(
                                        self.world.entities@,
                                        sid,
                                    );
                                    if crate::game_world::entity_id_count(self.world.entities@, sid)
                                        > 0 {
                                        let j = crate::game_world::lemma_entity_count_witness(
                                            self.world.entities@,
                                            sid,
                                        );
                                    }
                                },
                            }
                        }
                        let present = idx.is_some();
                        if !present {
                            let h = self.random_hunter();
                            let c = &mut self.clients[client_index].1;
                            c.spectating_id = h;
                        }
                    },
                    None => {},
                }
            },
        }
    }
}


impl Game {
    /// A prop's shape selection: the selector must own a prop-state player
    /// and the target must be a selectable prop. The target's shape, asset
    /// and rotation are copied onto the selector, and the ping timer only
    /// ever moves closer, so switching shapes never delays the next ping.
    /// The drawn delay is returned when the timer moved.
    pub fn select_prop(
        &mut self,
        selector_id: EntityId,
        target_id: EntityId,
        now: u64,
        config: &GameConfig,
    ) -> (r: Result<Option<u64>, GameError>)
        requires
            old(self).wf(),
            config.wf(),
        ensures
            final(self).wf(),
            final(self).state == old(self).state,
            final(self).state_timer_ms == old(self).state_timer_ms,
            final(self).clients == old(self).clients,
            final(self).client_events == old(self).client_events,
            (forall|i: int|
                0 <= i < old(self).world.entities@.len() ==> (
                #[trigger] old(self).world.entities@[i]).id != target_id) ==> r == Err::<
                Option<u64>,
                GameError,
            >(GameError::MissingEntity) && *final(self) == *old(self),
            forall|ti: int|
                0 <= ti < old(self).world.entities@.len() && (
                #[trigger] old(self).world.entities@[ti]).id == target_id ==> {
                    let target = old(self).world.entities@[ti];
                    &&& !(target.kind is Prop && target.selectable.value) ==> r == Err::<
                        Option<u64>,
                        GameError,
                    >(GameError::EntityNotSelectable) && *final(self) == *old(self)
                    &&& (target.kind is Prop && target.selectable.value && (forall|i: int|
                        0 <= i < old(self).world.entities@.len() ==> (
                        #[trigger] old(self).world.entities@[i]).id != selector_id)) ==> r == Err::<
                        Option<u64>,
                        GameError,
                    >(GameError::MissingPlayerEntity) && *final(self) == *old(self)
                    &&& forall|si: int|
                        0 <= si < old(self).world.entities@.len() && (
                        #[trigger] old(self).world.entities@[si]).id == selector_id && target.kind
                            is Prop && target.selectable.value ==> {
                            let sel = old(self).world.entities@[si];
                            let prefab = target.kind->Prop_0.prefab;
                            &&& !(sel.kind is Player && sel.kind->Player_0.state is Prop) ==> r
                                == Err::<Option<u64>, GameError>(GameError::WrongPlayerState)
                                && *final(self) == *old(self)
                            &&& (sel.kind is Player && sel.kind->Player_0.state is Prop) ==> {
                                &&& r is Ok
                                &&& final(self).world.entities@.len() == old(
                                    self,
                                ).world.entities@.len()
                                &&& forall|q: int|
                                    0 <= q < old(self).world.entities@.len() && q != si ==> (
                                    #[trigger] final(self).world.entities@[q]) == old(
                                        self,
                                    ).world.entities@[q]
                                &&& {
                                    let ne = final(self).world.entities@[si];
                                    let old_ping =
                                        sel.kind->Player_0.state->Prop_0.next_ping_time;
                                    &&& ne.id == sel.id
                                    &&& ne.kind is Player
                                    &&& ne.kind->Player_0.state is Prop
                                    &&& ne.asset.value@ == (if prefab.asset is Some {
                                        prefab.asset->0@
                                    } else {
                                        prefab.id@
                                    })
                                    &&& ne.body.rects.value@ == prefab.rects@
                                    &&& ne.body.rotation.value == target.body.rotation.value
                                    &&& ne.kind->Player_0.state->Prop_0.next_ping_time <= old_ping
                                    &&& (match r->Ok_0 {
                                        Some(d) => {
                                            let range = Player::spec_ping_range(
                                                crate::utils::spec_cbrt(
                                                    crate::game_config::sum_volumes(
                                                        prefab.rects@,
                                                    ) as nat,
                                                ) as int,
                                                config,
                                            );
                                            &&& range.0 <= d <= range.1
                                            &&& ne.kind->Player_0.state->Prop_0.next_ping_time
                                                == crate::utils::spec_sat_u64(now + d)
                                            &&& crate::utils::spec_sat_u64(now + d) < old_ping
                                        },
                                        None => ne.kind->Player_0.state->Prop_0.next_ping_time
                                            == old_ping,
                                    })
                                }
                            }
                        }
                },
    {
        // The target must be a selectable prop; its shape is copied out.
        let ti = match self.world.entity_index_with_id(target_id) {
            Some(i) => i,
            None => {
                return Err(GameError::MissingEntity);
            },
        };
        proof {
            assert(self.world.entities@[ti as int].wf());
            crate::game_world::lemma_entity_id_count_at_least_one(
                self.world.entities@,
                target_id,
                ti as int,
            );
            assert forall|i: int|
                0 <= i < self.world.entities@.len() && (
                #[trigger] self.world.entities@[i]).id == target_id implies i == ti as int by {
                if i < ti as int {
                    lemma_two_count(self.world.entities@, i, ti as int, target_id);
                } else if i > ti as int {
                    lemma_two_count(self.world.entities@, ti as int, i, target_id);
                }
            }
        }
        let (prefab, rotation) = {
            let target = &self.world.entities[ti];
            let selectable = *target.selectable.get();
            match &target.kind {
                EntityKind::Prop(p) => {
                    if !selectable {
                        return Err(GameError::EntityNotSelectable);
                    }
                    (p.prefab.duplicate(), *target.body.get_rotation())
                },
                EntityKind::Player(_) => {
                    return Err(GameError::EntityNotSelectable);
                },
            }
        };

        // The selector must own a prop-state player.
        let si = match self.world.entity_index_with_id(selector_id) {
            Some(i) => i,
            None => {
                return Err(GameError::MissingPlayerEntity);
            },
        };
        proof {
            assert(self.world.entities@[si as int].wf());
            crate::game_world::lemma_entity_id_count_at_least_one(
                self.world.entities@,
                selector_id,
                si as int,
            );
            assert forall|i: int|
                0 <= i < self.world.entities@.len() && (
                #[trigger] self.world.entities@[i]).id == selector_id implies i == si as int by {
                if i < si as int {
                    lemma_two_count(self.world.entities@, i, si as int, selector_id);
                } else if i > si as int {
                    lemma_two_count(self.world.entities@, si as int, i, selector_id);
                }
            }
        }
        let old_ping = match &self.world.entities[si].kind {
            EntityKind::Player(p) => match &p.state {
                PlayerState::Prop(ps) => ps.next_ping_time,
                PlayerState::Hunter(_) => {
                    return Err(GameError::WrongPlayerState);
                },
            },
            EntityKind::Prop(_) => {
                return Err(GameError::WrongPlayerState);
            },
        };

        // Copy the shape over.
        let ghost pre = self.world.entities@;
        {
            let e = &mut self.world.entities[si];
            e.apply_prefab(&prefab);
            e.body.set_rotation(rotation);
        }
        proof {
            assert forall|id: EntityId| #[trigger]
                crate::game_world::entity_id_count(self.world.entities@, id)
                    == crate::game_world::entity_id_count(pre, id) by {
                crate::game_world::lemma_entity_id_count_update(
                    pre,
                    si as int,
                    self.world.entities@[si as int],
                    id,
                );
            }
            assert forall|q: int| 0 <= q < self.world.entities@.len() implies (
            #[trigger] self.world.entities@[q]).wf() by {
                assert(pre[q].wf());
                if q != si as int {
                    assert(self.world.entities@[q] == pre[q]);
                }
            }
            assert(self.world.wf());
        }

        // A switched shape never keeps the old, larger ping timer: the new
        // shape's drawn delay applies when it lands sooner.
        let volume = self.world.entities[si].body.volume();
        let delay = Player::prop_ping_delay(volume, config);
        let next_ping = crate::utils::sat_add_u64(now, delay);
        if next_ping < old_ping {
            let ghost pre2 = self.world.entities@;
            {
                let e = &mut self.world.entities[si];
                match &mut e.kind {
                    EntityKind::Player(p) => match &mut p.state {
                        PlayerState::Prop(ps) => {
                            ps.next_ping_time = next_ping;
                        },
                        PlayerState::Hunter(_) => {},
                    },
                    EntityKind::Prop(_) => {},
                }
            }
            proof {
                assert forall|id: EntityId| #[trigger]
                    crate::game_world::entity_id_count(self.world.entities@, id)
                        == crate::game_world::entity_id_count(pre2, id) by {
                    crate::game_world::lemma_entity_id_count_update(
                        pre2,
                        si as int,
                        self.world.entities@[si as int],
                        id,
                    );
                }
                assert forall|q: int| 0 <= q < self.world.entities@.len() implies (
                #[trigger] self.world.entities@[q]).wf() by {
                    assert(pre2[q].wf());
                    if q != si as int {
                        assert(self.world.entities@[q] == pre2[q]);
                    }
                }
                assert(self.world.wf());
            }
            Ok(Some(delay))
        } else {
            Ok(None)
        }
    }
}


/// Whether a prop-state player's forced ping is due.
pub open spec fn spec_ping_due(e: Entity, now: u64) -> bool {
    &&& e.kind is Player
    &&& e.kind->Player_0.state is Prop
    &&& e.kind->Player_0.state->Prop_0.next_ping_time <= now
}

/// The ping events a tick broadcasts: one per due prop-state player among
/// the first `k` entities, at the prop's position, in entity order.
pub open spec fn spec_ping_events(es: Seq<Entity>, now: u64, k: int) -> Seq<ClientEvent>
    decreases k,
{
    if k <= 0 {
        Seq::empty()
    } else {
        let rest = spec_ping_events(es, now, k - 1);
        if spec_ping_due(es[k - 1], now) {
            rest.push(
                ClientEvent::Ping(
                    crate::network::PingEvent { point: es[k - 1].body.position.value },
                ),
            )
        } else {
            rest
        }
    }
}

impl Game {
    /// The per-tick forced pings. During the hunt every prop whose ping
    /// timer is due broadcasts a ping at its position, its last ping is
    /// marked, a fresh volume-dependent delay is drawn for the next one,
    /// and the ping is credited to its score. Outside the hunt nothing
    /// pings.
    pub fn tick_prop_pings(&mut self, now: u64, config: &GameConfig)
        requires
            old(self).wf(),
            config.wf(),
        ensures
            final(self).wf(),
            !(old(self).state is Hunting) ==> *final(self) == *old(self),
            old(self).state is Hunting ==> {
                &&& final(self).state == old(self).state
                &&& final(self).state_timer_ms == old(self).state_timer_ms
                &&& final(self).clients == old(self).clients
                &&& final(self).world.entities@.len() == old(self).world.entities@.len()
                // One ping event per due prop, in entity order.
                &&& final(self).client_events@ == old(self).client_events@ + spec_ping_events(
                    old(self).world.entities@,
                    now,
                    old(self).world.entities@.len() as int,
                )
                // A prop not yet due, and every non-prop, is untouched.
                &&& forall|q: int|
                    0 <= q < old(self).world.entities@.len() && !spec_ping_due(
                        old(self).world.entities@[q],
                        now,
                    ) ==> (#[trigger] final(self).world.entities@[q]) == old(
                        self,
                    ).world.entities@[q]
                // A due prop pings: the last ping is marked, the next drawn
                // from the volume's range, and the score credited.
                &&& forall|q: int|
                    0 <= q < old(self).world.entities@.len() && spec_ping_due(
                        old(self).world.entities@[q],
                        now,
                    ) ==> {
                        let oe = #[trigger] old(self).world.entities@[q];
                        let ne = final(self).world.entities@[q];
                        let op = oe.kind->Player_0;
                        let osc = op.score_counter;
                        let vol = crate::game_config::sum_volumes(oe.body.rects.value@);
                        &&& ne.kind is Player
                        &&& ne.kind->Player_0.state is Prop
                        &&& ne == (Entity {
                            kind: EntityKind::Player(
                                Player {
                                    state: PlayerState::Prop(
                                        crate::entities::player::PropState {
                                            last_ping_time: now,
                                            next_ping_time:
                                                ne.kind->Player_0.state->Prop_0.next_ping_time,
                                        },
                                    ),
                                    score_counter: ne.kind->Player_0.score_counter,
                                    ..op
                                },
                            ),
                            ..oe
                        })
                        &&& exists|d: u64|
                            {
                                let range = Player::spec_ping_range(
                                    crate::utils::spec_cbrt(vol as nat) as int,
                                    config,
                                );
                                range.0 <= d as int <= range.1
                                    && ne.kind->Player_0.state->Prop_0.next_ping_time
                                    == #[trigger] crate::utils::spec_sat_u64(now + d)
                            }
                        &&& ne.kind->Player_0.score_counter == (crate::entities::player::ScoreCounter {
                            pings: crate::utils::spec_sat_u64(osc.pings + 1),
                            total_ping_volume_milli: crate::utils::spec_sat_u64(
                                osc.total_ping_volume_milli + crate::utils::spec_cbrt(vol as nat),
                            ),
                            ..osc
                        })
                    }
            },
    {
        match self.state {
            GameState::Hunting => {},
            _ => {
                return ;
            },
        }
        let ghost pre = self.world.entities@;
        let ghost pre_events = self.client_events@;
        let n = self.world.entities.len();
        let mut i: usize = 0;
        while i < n
            invariant
                self.wf(),
                config.wf(),
                i <= n,
                n == self.world.entities@.len(),
                pre.len() == n,
                self.state == old(self).state,
                self.state is Hunting,
                self.state_timer_ms == old(self).state_timer_ms,
                self.clients == old(self).clients,
                self.world.quad_tree == old(self).world.quad_tree,
                self.world.destroyed_entities == old(self).world.destroyed_entities,
                self.world.entity_counter == old(self).world.entity_counter,
                self.cached_minimap == old(self).cached_minimap,
                self.minimap_changed == old(self).minimap_changed,
                pre == old(self).world.entities@,
                pre_events == old(self).client_events@,
                self.client_events@ == pre_events + spec_ping_events(pre, now, i as int),
                forall|q: int| i <= q < n ==> (#[trigger] self.world.entities@[q]) == pre[q],
                forall|q: int|
                    0 <= q < i && !spec_ping_due(pre[q], now) ==> (
                    #[trigger] self.world.entities@[q]) == pre[q],
                forall|q: int|
                    0 <= q < i && spec_ping_due(pre[q], now) ==> {
                        let oe = #[trigger] pre[q];
                        let ne = self.world.entities@[q];
                        let op = oe.kind->Player_0;
                        let osc = op.score_counter;
                        let vol = crate::game_config::sum_volumes(oe.body.rects.value@);
                        &&& ne.kind is Player
                        &&& ne.kind->Player_0.state is Prop
                        &&& ne == (Entity {
                            kind: EntityKind::Player(
                                Player {
                                    state: PlayerState::Prop(
                                        crate::entities::player::PropState {
                                            last_ping_time: now,
                                            next_ping_time:
                                                ne.kind->Player_0.state->Prop_0.next_ping_time,
                                        },
                                    ),
                                    score_counter: ne.kind->Player_0.score_counter,
                                    ..op
                                },
                            ),
                            ..oe
                        })
                        &&& exists|d: u64|
                            {
                                let range = Player::spec_ping_range(
                                    crate::utils::spec_cbrt(vol as nat) as int,
                                    config,
                                );
                                range.0 <= d as int <= range.1
                                    && ne.kind->Player_0.state->Prop_0.next_ping_time
                                    == #[trigger] crate::utils::spec_sat_u64(now + d)
                            }
                        &&& ne.kind->Player_0.score_counter == (crate::entities::player::ScoreCounter {
                            pings: crate::utils::spec_sat_u64(osc.pings + 1),
                            total_ping_volume_milli: crate::utils::spec_sat_u64(
                                osc.total_ping_volume_milli + crate::utils::spec_cbrt(vol as nat),
                            ),
                            ..osc
                        })
                    },
            decreases n - i,
        {
            proof {
                assert(self.world.entities@[i as int] == pre[i as int]);
                assert(pre[i as int].wf());
            }
            let due = match &self.world.entities[i].kind {
                EntityKind::Player(p) => match &p.state {
                    PlayerState::Prop(ps) => ps.next_ping_time <= now,
                    PlayerState::Hunter(_) => false,
                },
                EntityKind::Prop(_) => false,
            };
            if due {
                let pos = *self.world.entities[i].body.get_pos();
                let volume = self.world.entities[i].body.volume();
                let delay = Player::prop_ping_delay(volume, config);
                let next_ping = crate::utils::sat_add_u64(now, delay);
                let ghost mid = self.world.entities@;
                {
                    let e = &mut self.world.entities[i];
                    match &mut e.kind {
                        EntityKind::Player(p) => {
                            match &mut p.state {
                                PlayerState::Prop(ps) => {
                                    ps.last_ping_time = now;
                                    ps.next_ping_time = next_ping;
                                },
                                PlayerState::Hunter(_) => {},
                            }
                            p.score_counter.pinged(volume);
                        },
                        EntityKind::Prop(_) => {},
                    }
                }
                self.client_events.push(
                    ClientEvent::Ping(crate::network::PingEvent { point: pos }),
                );
                proof {
                    assert forall|id: EntityId| #[trigger]
                        crate::game_world::entity_id_count(self.world.entities@, id)
                            == crate::game_world::entity_id_count(mid, id) by {
                        crate::game_world::lemma_entity_id_count_update(
                            mid,
                            i as int,
                            self.world.entities@[i as int],
                            id,
                        );
                    }
                    assert forall|q: int| 0 <= q < self.world.entities@.len() implies (
                    #[trigger] self.world.entities@[q]).wf() by {
                        assert(mid[q].wf());
                        if q != i as int {
                            assert(self.world.entities@[q] == mid[q]);
                        }
                    }
                    assert(self.world.wf());
                    let d = delay;
                    let ne = self.world.entities@[i as int];
                    let vol = crate::game_config::sum_volumes(pre[i as int].body.rects.value@);
                    let range = Player::spec_ping_range(
                        crate::utils::spec_cbrt(vol as nat) as int,
                        config,
                    );
                    assert(range.0 <= d as int <= range.1 && ne.kind->Player_0.state->Prop_0.next_ping_time == crate::utils::spec_sat_u64(now + d));
                    assert(spec_ping_events(pre, now, i + 1 as int) == spec_ping_events(
                        pre,
                        now,
                        i as int,
                    ).push(ClientEvent::Ping(crate::network::PingEvent { point: pos })));
                }
            } else {
                proof {
                    assert(spec_ping_events(pre, now, i + 1 as int) == spec_ping_events(
                        pre,
                        now,
                        i as int,
                    ));
                }
            }
            i += 1;
        }
    }
}


impl Game {
    /// A prop's manual ping: it fires exactly when the hunt is on, the
    /// player is a prop, and the minimum quiet period since its last ping
    /// has passed; the ping is broadcast from the prop's position, its
    /// timers restart, and the ping is credited to its score.
    pub fn force_ping(&mut self, player_id: EntityId, now: u64, config: &GameConfig) -> (r: bool)
        requires
            old(self).wf(),
            config.wf(),
        ensures
            final(self).wf(),
            !r ==> *final(self) == *old(self),
            r <==> (old(self).state is Hunting && exists|i: int|
                0 <= i < old(self).world.entities@.len() && (
                #[trigger] old(self).world.entities@[i]).id == player_id && old(
                    self,
                ).world.entities@[i].kind is Player && old(
                    self,
                ).world.entities@[i].kind->Player_0.state is Prop && old(
                    self,
                ).world.entities@[i].kind->Player_0.state->Prop_0.last_ping_time
                    + config.player.ping_delay_min_ms < now),
            r ==> {
                &&& final(self).state == old(self).state
                &&& final(self).state_timer_ms == old(self).state_timer_ms
                &&& final(self).clients == old(self).clients
                &&& final(self).world.entities@.len() == old(self).world.entities@.len()
                &&& forall|i: int|
                    0 <= i < old(self).world.entities@.len() && (#[trigger] old(
                        self,
                    ).world.entities@[i]).id == player_id ==> {
                        let oe = old(self).world.entities@[i];
                        let ne = final(self).world.entities@[i];
                        let op = oe.kind->Player_0;
                        let osc = op.score_counter;
                        let vol = crate::game_config::sum_volumes(oe.body.rects.value@);
                        &&& ne.kind is Player
                        &&& ne.kind->Player_0.state is Prop
                        &&& ne == (Entity {
                            kind: EntityKind::Player(
                                Player {
                                    state: PlayerState::Prop(
                                        crate::entities::player::PropState {
                                            last_ping_time: now,
                                            next_ping_time:
                                                ne.kind->Player_0.state->Prop_0.next_ping_time,
                                        },
                                    ),
                                    score_counter: ne.kind->Player_0.score_counter,
                                    ..op
                                },
                            ),
                            ..oe
                        })
                        &&& exists|d: u64|
                            {
                                let range = Player::spec_ping_range(
                                    crate::utils::spec_cbrt(vol as nat) as int,
                                    config,
                                );
                                range.0 <= d as int <= range.1
                                    && ne.kind->Player_0.state->Prop_0.next_ping_time
                                    == #[trigger] crate::utils::spec_sat_u64(now + d)
                            }
                        &&& ne.kind->Player_0.score_counter == (crate::entities::player::ScoreCounter {
                            pings: crate::utils::spec_sat_u64(osc.pings + 1),
                            total_ping_volume_milli: crate::utils::spec_sat_u64(
                                osc.total_ping_volume_milli + crate::utils::spec_cbrt(vol as nat),
                            ),
                            ..osc
                        })
                        &&& (forall|q: int|
                            0 <= q < old(self).world.entities@.len() && q != i ==> (
                            #[trigger] final(self).world.entities@[q]) == old(
                                self,
                            ).world.entities@[q])
                        &&& final(self).client_events@ == old(self).client_events@.push(
                            ClientEvent::Ping(
                                crate::network::PingEvent { point: oe.body.position.value },
                            ),
                        )
                    }
            },
    {
        match self.state {
            GameState::Hunting => {},
            _ => {
                return false;
            },
        }
        let i = match self.world.entity_index_with_id(player_id) {
            Some(i) => i,
            None => {
                return false;
            },
        };
        proof {
            assert(self.world.entities@[i as int].wf());
            crate::game_world::lemma_entity_id_count_at_least_one(
                self.world.entities@,
                player_id,
                i as int,
            );
            crate::game_world::lemma_entity_unique_index(self.world.entities@, i as int, player_id);
        }
        let quiet = match &self.world.entities[i].kind {
            EntityKind::Player(p) => match &p.state {
                PlayerState::Prop(ps) => {
                    if ps.last_ping_time <= u64::MAX - config.player.ping_delay_min_ms {
                        ps.last_ping_time + config.player.ping_delay_min_ms < now
                    } else {
                        false
                    }
                },
                PlayerState::Hunter(_) => {
                    return false;
                },
            },
            EntityKind::Prop(_) => {
                return false;
            },
        };
        if !quiet {
            return false;
        }
        let pos = *self.world.entities[i].body.get_pos();
        let volume = self.world.entities[i].body.volume();
        let delay = Player::prop_ping_delay(volume, config);
        let next_ping = crate::utils::sat_add_u64(now, delay);
        let ghost pre = self.world.entities@;
        {
            let e = &mut self.world.entities[i];
            match &mut e.kind {
                EntityKind::Player(p) => {
                    match &mut p.state {
                        PlayerState::Prop(ps) => {
                            ps.last_ping_time = now;
                            ps.next_ping_time = next_ping;
                        },
                        PlayerState::Hunter(_) => {},
                    }
                    p.score_counter.pinged(volume);
                },
                EntityKind::Prop(_) => {},
            }
        }
        self.client_events.push(ClientEvent::Ping(crate::network::PingEvent { point: pos }));
        proof {
            assert forall|id: EntityId| #[trigger]
                crate::game_world::entity_id_count(self.world.entities@, id)
                    == crate::game_world::entity_id_count(pre, id) by {
                crate::game_world::lemma_entity_id_count_update(
                    pre,
                    i as int,
                    self.world.entities@[i as int],
                    id,
                );
            }
            assert forall|q: int| 0 <= q < self.world.entities@.len() implies (
            #[trigger] self.world.entities@[q]).wf() by {
                assert(pre[q].wf());
                if q != i as int {
                    assert(self.world.entities@[q] == pre[q]);
                }
            }
            assert(self.world.wf());
        }
        true
    }

    /// Turns every dead mounted player back into a full-health hunter and
    /// announces each death. One death event goes out per revived player,
    /// in client order.
    pub fn respawn_dead_players(&mut self, now: u64, config: &GameConfig)
        requires
            old(self).wf(),
            config.wf(),
        ensures
            final(self).wf(),
            final(self).state == old(self).state,
            final(self).state_timer_ms == old(self).state_timer_ms,
            final(self).clients == old(self).clients,
            final(self).world.entities@.len() == old(self).world.entities@.len(),
            final(self).client_events@.len() >= old(self).client_events@.len(),
            forall|p: int|
                0 <= p < old(self).client_events@.len() ==> (
                #[trigger] final(self).client_events@[p]) == old(self).client_events@[p],
            // Every new event is a death notice for a mounted player.
            forall|p: int|
                old(self).client_events@.len() <= p < final(self).client_events@.len() ==> ((
                #[trigger] final(self).client_events@[p]) matches ClientEvent::PlayerDeath(ev)
                    && (exists|j: int|
                    0 <= j < old(self).clients@.len() && (#[trigger] old(
                        self,
                    ).clients@[j]).1.player_id == Some(ev.player_id))),
            // Afterwards no mounted player is dead: each is a hunter at
            // full health or was never dead at all.
            forall|j: int, q: int|
                0 <= j < old(self).clients@.len() && 0 <= q < final(self).world.entities@.len()
                    && (#[trigger] old(self).clients@[j]).1.player_id == Some(
                    (#[trigger] final(self).world.entities@[q]).id,
                ) && final(self).world.entities@[q].kind is Player ==> final(self).world.entities@[q].health.value > crate::entities::entity::DEAD_HEALTH_MILLI,
    {
        let n = self.clients.len();
        let mut i: usize = 0;
        while i < n
            invariant
                self.wf(),
                config.wf(),
                n == self.clients@.len(),
                i <= n,
                self.state == old(self).state,
                self.state_timer_ms == old(self).state_timer_ms,
                self.clients == old(self).clients,
                self.world.entities@.len() == old(self).world.entities@.len(),
                self.client_events@.len() >= old(self).client_events@.len(),
                forall|p: int|
                    0 <= p < old(self).client_events@.len() ==> (
                    #[trigger] self.client_events@[p]) == old(self).client_events@[p],
                forall|p: int|
                    old(self).client_events@.len() <= p < self.client_events@.len() ==> ((
                    #[trigger] self.client_events@[p]) matches ClientEvent::PlayerDeath(ev)
                        && (exists|j: int|
                        0 <= j < old(self).clients@.len() && (#[trigger] old(
                            self,
                        ).clients@[j]).1.player_id == Some(ev.player_id))),
                forall|j: int, q: int|
                    0 <= j < i && 0 <= q < self.world.entities@.len() && (#[trigger] old(
                        self,
                    ).clients@[j]).1.player_id == Some(
                        (#[trigger] self.world.entities@[q]).id,
                    ) && self.world.entities@[q].kind is Player
                        ==> self.world.entities@[q].health.value
                        > crate::entities::entity::DEAD_HEALTH_MILLI,
            decreases n - i,
        {
            let pid = self.clients[i].1.player_id;
            if let Some(player_id) = pid {
                let ghost mid = self.world.entities@;
                let dead = match self.world.entity_index_with_id(player_id) {
                    Some(idx) => {
                        proof {
                            assert(self.world.entities@[idx as int].wf());
                            crate::game_world::lemma_entity_id_count_at_least_one(
                                self.world.entities@,
                                player_id,
                                idx as int,
                            );
                            crate::game_world::lemma_entity_unique_index(
                                self.world.entities@,
                                idx as int,
                                player_id,
                            );
                        }
                        let e = &self.world.entities[idx];
                        let is_player = match &e.kind {
                            EntityKind::Player(_) => true,
                            EntityKind::Prop(_) => false,
                        };
                        is_player && *e.health.get()
                            <= crate::entities::entity::DEAD_HEALTH_MILLI
                    },
                    None => false,
                };
                if dead {
                    let ghost pre_ev = self.client_events@;
                    self.client_events.push(
                        ClientEvent::PlayerDeath(
                            crate::network::PlayerDeathEvent { player_id },
                        ),
                    );
                    proof {
                        assert forall|p: int|
                            old(self).client_events@.len() <= p < self.client_events@.len()
                                implies ((#[trigger] self.client_events@[p]) matches
                            ClientEvent::PlayerDeath(ev) && (exists|j: int|
                            0 <= j < old(self).clients@.len() && (#[trigger] old(
                                self,
                            ).clients@[j]).1.player_id == Some(ev.player_id))) by {
                            if p < pre_ev.len() {
                                assert(self.client_events@[p] == pre_ev[p]);
                            } else {
                                assert(self.client_events@[p] == ClientEvent::PlayerDeath(
                                    crate::network::PlayerDeathEvent { player_id },
                                ));
                                assert((i as int) < old(self).clients@.len() && old(
                                    self,
                                ).clients@[i as int].1.player_id == Some(player_id));
                            }
                        }
                    }
                    self.set_player_state_by_id(player_id, true, now, config);
                }
                proof {
                    let cur = self.world.entities@;
                    assert forall|j: int, q: int|
                        0 <= j < i + 1 && 0 <= q < cur.len() && (#[trigger] old(
                            self,
                        ).clients@[j]).1.player_id == Some((#[trigger] cur[q]).id)
                            && cur[q].kind is Player implies cur[q].health.value
                        > crate::entities::entity::DEAD_HEALTH_MILLI by {
                        if mid[q].id == player_id {
                            if !(mid[q].kind is Player) {
                                assert(cur[q].kind == mid[q].kind);
                            }
                        } else {
                            assert(cur[q] == mid[q]);
                        }
                    }
                }
            }
            i += 1;
        }
    }
}

} // verus!
