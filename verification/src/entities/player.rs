//! Players: hunter and prop sub-states, weighted move input, stamina,
//! and the score counter.
use vstd::prelude::*;

use crate::entities::entity::EntityBody;
use crate::game_config::GameConfig;
use crate::geometry::Vector;
use crate::incremental_value::{IncrementalValue, IncrementalValueDiff};
use crate::utils::{
    int_cbrt, sat_add_u64, sat_mul_u64, spec_angle_mod, spec_cos_milli, spec_sat_u64,
    spec_sin_milli,
};

verus! {

/// One move input: when it arrived, the direction held (milliradians, or
/// none for standing still), and whether the player was sprinting.
pub struct MoveMessage {
    pub timestamp: u64,
    pub move_dir: Option<i64>,
    pub sprinting: bool,
}

/// Data associated with the hunter's state.
pub struct HunterState {
    /// The last time that the hunter shot, in epoch milliseconds.
    pub last_shoot_time: u64,
}

impl HunterState {
    pub fn new() -> (r: HunterState)
        ensures
            r.last_shoot_time == 0,
    {
        HunterState { last_shoot_time: 0 }
    }
}

/// Data associated with the prop's state.
pub struct PropState {
    /// The last time that the prop pinged.
    pub last_ping_time: u64,
    /// The time at which the next map ping will be forced.
    pub next_ping_time: u64,
}

impl PropState {
    pub fn new() -> (r: PropState)
        ensures
            r.last_ping_time == 0,
            r.next_ping_time == 0,
    {
        PropState { last_ping_time: 0, next_ping_time: 0 }
    }
}

/// Player state: hunting or hiding as a prop.
pub enum PlayerState {
    Hunter(HunterState),
    Prop(PropState),
}

impl PlayerState {
    /// Players start as hunters.
    pub fn default_state() -> (r: PlayerState)
        ensures
            r is Hunter,
            r->Hunter_0.last_shoot_time == 0,
    {
        PlayerState::Hunter(HunterState::new())
    }
}

/// Subtraction clamped at zero, for time differences.
pub open spec fn csub(a: int, b: int) -> int {
    if a >= b {
        a - b
    } else {
        0
    }
}

/// The unit vector of a move direction, scaled to thousandths; standing
/// still contributes nothing.
pub open spec fn spec_unit_x(d: Option<i64>) -> int {
    match d {
        Some(a) => spec_cos_milli(a as int),
        None => 0,
    }
}

pub open spec fn spec_unit_y(d: Option<i64>) -> int {
    match d {
        Some(a) => spec_sin_milli(a as int),
        None => 0,
    }
}

/// Bound on a single input's weight: time spans are clamped to this many
/// milliseconds so the weighted sums stay in machine range.
pub const WEIGHT_CAP: u64 = 100_000_000;

/// The weight of input `i`: the clamped time until the next input, or
/// until now for the last one.
pub open spec fn spec_weight(inputs: Seq<MoveMessage>, i: int, now: int) -> int {
    let raw = if i + 1 < inputs.len() {
        csub(inputs[i + 1].timestamp as int, inputs[i].timestamp as int)
    } else {
        csub(now, inputs[i].timestamp as int)
    };
    if raw > WEIGHT_CAP {
        WEIGHT_CAP as int
    } else {
        raw
    }
}

/// The weighted sum of the unit x components of the first `n` inputs.
pub open spec fn spec_sum_x(inputs: Seq<MoveMessage>, n: int, now: int) -> int
    decreases n,
{
    if n <= 0 {
        0
    } else {
        spec_sum_x(inputs, n - 1, now) + spec_unit_x(inputs[n - 1].move_dir) * spec_weight(
            inputs,
            n - 1,
            now,
        )
    }
}

/// The weighted sum of the unit y components of the first `n` inputs.
pub open spec fn spec_sum_y(inputs: Seq<MoveMessage>, n: int, now: int) -> int
    decreases n,
{
    if n <= 0 {
        0
    } else {
        spec_sum_y(inputs, n - 1, now) + spec_unit_y(inputs[n - 1].move_dir) * spec_weight(
            inputs,
            n - 1,
            now,
        )
    }
}

/// A value clamped to the scaled unit range.
pub open spec fn spec_clamp_unit(v: int) -> i64 {
    if v > 1000 {
        1000
    } else if v < -1000 {
        (-1000) as i64
    } else {
        v as i64
    }
}

/// The direction a move velocity component comes out to: the weighted sum
/// of the unit vectors held over the update, including the initial stretch
/// on the previous direction, averaged over the update length and clamped
/// to the scaled unit range.
pub open spec fn spec_move_vel(
    prev_dir: Option<i64>,
    last_input_time: int,
    inputs: Seq<MoveMessage>,
    now: int,
) -> (i64, i64) {
    let update_length = if now > last_input_time {
        now - last_input_time
    } else {
        1
    };
    let raw_w0 = if inputs.len() > 0 {
        csub(vstd::math::max(inputs[0].timestamp as int, last_input_time), last_input_time)
    } else {
        update_length
    };
    let w0 = if raw_w0 > WEIGHT_CAP {
        WEIGHT_CAP as int
    } else {
        raw_w0
    };
    let total_x = spec_unit_x(prev_dir) * w0 + spec_sum_x(inputs, inputs.len() as int, now);
    let total_y = spec_unit_y(prev_dir) * w0 + spec_sum_y(inputs, inputs.len() as int, now);
    (
        spec_clamp_unit(spec_div_trunc(total_x, update_length)),
        spec_clamp_unit(spec_div_trunc(total_y, update_length)),
    )
}

/// Truncating division of a possibly negative value by a positive one.
pub open spec fn spec_div_trunc(p: int, d: int) -> int {
    if p >= 0 {
        p / d
    } else {
        -((-p) / d)
    }
}

/// Counters from which a player's score is computed.
pub struct ScoreCounter {
    pub killed_players: u64,
    pub hit_shots: u64,
    pub missed_shots: u64,
    /// The prop's latest health, in thousandths.
    pub health_milli: u64,
    pub pings: u64,
    /// Sum of cube roots of pinged volumes, in milli-units.
    pub total_ping_volume_milli: u64,
    /// Time spent sleeping, milliseconds.
    pub sleeping_time_ms: u64,
}

impl ScoreCounter {
    pub fn new() -> (r: ScoreCounter)
        ensures
            r == (ScoreCounter {
                killed_players: 0u64,
                hit_shots: 0u64,
                missed_shots: 0u64,
                health_milli: 0u64,
                pings: 0u64,
                total_ping_volume_milli: 0u64,
                sleeping_time_ms: 0u64,
            }),
    {
        ScoreCounter {
            killed_players: 0,
            hit_shots: 0,
            missed_shots: 0,
            health_milli: 0,
            pings: 0,
            total_ping_volume_milli: 0,
            sleeping_time_ms: 0,
        }
    }

    pub fn killed_player(&mut self)
        ensures
            *final(self) == (ScoreCounter {
                killed_players: spec_sat_u64(old(self).killed_players + 1),
                ..*old(self)
            }),
    {
        self.killed_players = sat_add_u64(self.killed_players, 1);
    }

    /// Counts a shot, hit or missed.
    pub fn shot(&mut self, hit: bool)
        ensures
            *final(self) == if hit {
                ScoreCounter { hit_shots: spec_sat_u64(old(self).hit_shots + 1), ..*old(self) }
            } else {
                ScoreCounter {
                    missed_shots: spec_sat_u64(old(self).missed_shots + 1),
                    ..*old(self)
                }
            },
    {
        if hit {
            self.hit_shots = sat_add_u64(self.hit_shots, 1);
        } else {
            self.missed_shots = sat_add_u64(self.missed_shots, 1);
        }
    }

    pub fn update_prop_health(&mut self, health_milli: u64)
        ensures
            *final(self) == (ScoreCounter { health_milli, ..*old(self) }),
    {
        self.health_milli = health_milli;
    }

    /// Counts a ping and its volume's cube root (milli-units), which keeps
    /// huge props from dominating the volume score.
    pub fn pinged(&mut self, volume: i64)
        requires
            volume >= 0,
        ensures
            *final(self) == (ScoreCounter {
                pings: spec_sat_u64(old(self).pings + 1),
                total_ping_volume_milli: final(self).total_ping_volume_milli,
                ..*old(self)
            }),
            final(self).total_ping_volume_milli == spec_sat_u64(
                old(self).total_ping_volume_milli + crate::utils::spec_cbrt(volume as nat),
            ),
    {
        self.pings = sat_add_u64(self.pings, 1);
        let c = int_cbrt(volume as u64);
        self.total_ping_volume_milli = sat_add_u64(self.total_ping_volume_milli, c);
    }

    pub fn sleeping(&mut self, dt_ms: u64)
        ensures
            *final(self) == (ScoreCounter {
                sleeping_time_ms: spec_sat_u64(old(self).sleeping_time_ms + dt_ms),
                ..*old(self)
            }),
    {
        self.sleeping_time_ms = sat_add_u64(self.sleeping_time_ms, dt_ms);
    }

    /// The label and bonus for a final placement: only the first three
    /// places score.
    pub fn placement(placement: Option<u64>, config: &GameConfig) -> (r: (String, u64))
        ensures
            r.1 == Self::spec_placement_score(placement, config),
    {
        match placement {
            Some(0) => ("firstScoring".to_string(), config.scoring.first),
            Some(1) => ("secondScoring".to_string(), config.scoring.second),
            Some(2) => ("thirdScoring".to_string(), config.scoring.third),
            _ => ("didNotPlaceScoring".to_string(), 0),
        }
    }

    pub open spec fn spec_placement_score(placement: Option<u64>, config: &GameConfig) -> u64 {
        match placement {
            Some(0u64) => config.scoring.first,
            Some(1u64) => config.scoring.second,
            Some(2u64) => config.scoring.third,
            _ => 0,
        }
    }

    /// The hunter's hit-rate component: hits over total shots, scaled.
    pub open spec fn spec_percent_hit(&self, config: &GameConfig) -> u64 {
        if self.missed_shots > 0 {
            ((self.hit_shots * config.scoring.percent_hit_scale) / (self.hit_shots
                + self.missed_shots)) as u64
        } else {
            0
        }
    }

    pub fn percent_hit(&self, config: &GameConfig) -> (r: u64)
        ensures
            r == self.spec_percent_hit(config),
    {
        if self.missed_shots > 0 {
            proof {
                crate::utils::lemma_u64_prod_fits(
                    self.hit_shots as u128,
                    config.scoring.percent_hit_scale as u128,
                );
            }
            let num = (self.hit_shots as u128) * (config.scoring.percent_hit_scale as u128);
            let den = (self.hit_shots as u128) + (self.missed_shots as u128);
            proof {
                vstd::arithmetic::div_mod::lemma_div_is_ordered(0, num as int, den as int);
                vstd::arithmetic::mul::lemma_mul_inequality(
                    self.hit_shots as int,
                    den as int,
                    config.scoring.percent_hit_scale as int,
                );
                vstd::arithmetic::div_mod::lemma_div_is_ordered(
                    num as int,
                    den as int * config.scoring.percent_hit_scale as int,
                    den as int,
                );
                vstd::arithmetic::div_mod::lemma_div_multiples_vanish(
                    config.scoring.percent_hit_scale as int,
                    den as int,
                );
            }
            (num / den) as u64
        } else {
            0
        }
    }

    /// The whole score: hunter components, prop components, the team bonus
    /// and the placement bonus, all saturating.
    pub open spec fn spec_calculate(
        &self,
        placement: Option<u64>,
        winning_team: Option<bool>,
        config: &GameConfig,
    ) -> u64 {
        let hunter = spec_sat_u64(
            spec_sat_u64(
                spec_sat_u64(self.killed_players * config.scoring.killed_player) + spec_sat_u64(
                    self.hit_shots * config.scoring.hit_shot,
                ),
            ) + self.spec_percent_hit(config),
        );
        let prop = spec_sat_u64(
            spec_sat_u64(
                spec_sat_u64(
                    spec_sat_u64(self.health_milli * config.scoring.prop_health / 1000)
                        + spec_sat_u64(self.pings * config.scoring.ping),
                ) + spec_sat_u64(
                    (self.total_ping_volume_milli / 1000) * config.scoring.ping_per_unit,
                ),
            ) + spec_sat_u64(
                self.sleeping_time_ms * config.scoring.sleeping_per_second_milli / 1_000_000,
            ),
        );
        let team = if winning_team is Some && winning_team->0 {
            config.scoring.winning_team
        } else {
            0
        };
        spec_sat_u64(
            spec_sat_u64(spec_sat_u64(hunter + prop) + team) + Self::spec_placement_score(
                placement,
                config,
            ),
        )
    }

    pub fn calculate(&self, placement: Option<u64>, winning_team: Option<bool>, config: &GameConfig)
        -> (r: u64)
        ensures
            r == self.spec_calculate(placement, winning_team, config),
    {
        let hunter = sat_add_u64(
            sat_add_u64(
                sat_mul_u64(self.killed_players, config.scoring.killed_player),
                sat_mul_u64(self.hit_shots, config.scoring.hit_shot),
            ),
            self.percent_hit(config),
        );
        let health_score = mul_div_1000(self.health_milli, config.scoring.prop_health);
        let sleep_score = mul_div_million(
            self.sleeping_time_ms,
            config.scoring.sleeping_per_second_milli,
        );
        let prop = sat_add_u64(
            sat_add_u64(
                sat_add_u64(health_score, sat_mul_u64(self.pings, config.scoring.ping)),
                sat_mul_u64(self.total_ping_volume_milli / 1000, config.scoring.ping_per_unit),
            ),
            sleep_score,
        );
        let team: u64 = match winning_team {
            Some(true) => config.scoring.winning_team,
            _ => 0,
        };
        let placement_score = ScoreCounter::placement(placement, config).1;
        sat_add_u64(sat_add_u64(sat_add_u64(hunter, prop), team), placement_score)
    }
}

/// `a * b / 1000` saturated into the unsigned 64-bit range.
fn mul_div_1000(a: u64, b: u64) -> (r: u64)
    ensures
        r == spec_sat_u64(a * b / 1000),
{
    proof {
        crate::utils::lemma_u64_prod_fits(a as u128, b as u128);
    }
    let p = (a as u128) * (b as u128);
    let q = p / 1000;
    proof {
        vstd::arithmetic::div_mod::lemma_div_is_ordered(0, p as int, 1000);
    }
    if q > u64::MAX as u128 {
        u64::MAX
    } else {
        q as u64
    }
}

/// `a * b / 1_000_000` saturated into the unsigned 64-bit range.
fn mul_div_million(a: u64, b: u64) -> (r: u64)
    ensures
        r == spec_sat_u64(a * b / 1_000_000),
{
    proof {
        crate::utils::lemma_u64_prod_fits(a as u128, b as u128);
    }
    let p = (a as u128) * (b as u128);
    let q = p / 1_000_000;
    proof {
        vstd::arithmetic::div_mod::lemma_div_is_ordered(0, p as int, 1_000_000);
    }
    if q > u64::MAX as u128 {
        u64::MAX
    } else {
        q as u64
    }
}

/// The player itself.
pub struct Player {
    /// If this user is an admin.
    pub is_admin: bool,
    /// Data for the player's score.
    pub score_counter: ScoreCounter,
    /// Display name for the player.
    pub username: String,
    /// Character id for the player when a hunter.
    pub character_id: String,
    /// The state the player is in.
    pub state: PlayerState,
    /// Timestamp of the last input batch.
    pub last_input_time: u64,
    /// The move velocity for the next frame, a scaled unit vector.
    pub move_vel_x: i64,
    pub move_vel_y: i64,
    /// The move direction of the player, milliradians.
    pub move_dir: Option<i64>,
    /// If the player is sprinting.
    pub sprinting: bool,
    /// How much stamina is remaining, in thousandths.
    pub stamina: IncrementalValue<i64>,
    /// The position at which the player spawned, to pin hiding hunters.
    pub spawn_pos: Vector,
}

impl Player {
    pub open spec fn wf(&self) -> bool {
        &&& -1000 <= self.move_vel_x <= 1000
        &&& -1000 <= self.move_vel_y <= 1000
        &&& 0 <= self.stamina.value <= 1000
        &&& self.spawn_pos.bounded(1_000_000_000i64)
    }

    pub fn new(username: String, character_id: String, is_admin: bool) -> (p: Player)
        ensures
            p.wf(),
            p.is_admin == is_admin,
            p.username@ == username@,
            p.character_id@ == character_id@,
            p.state is Hunter,
            p.score_counter == (ScoreCounter {
                killed_players: 0u64,
                hit_shots: 0u64,
                missed_shots: 0u64,
                health_milli: 0u64,
                pings: 0u64,
                total_ping_volume_milli: 0u64,
                sleeping_time_ms: 0u64,
            }),
            p.stamina.value == 1000,
            p.move_dir is None,
            !p.sprinting,
            p.last_input_time == 0,
            p.move_vel_x == 0 && p.move_vel_y == 0,
            p.spawn_pos == (Vector { x: 0i64, y: 0i64, z: 0i64 }),
    {
        Player {
            is_admin,
            score_counter: ScoreCounter::new(),
            username,
            character_id,
            state: PlayerState::default_state(),
            last_input_time: 0,
            move_dir: None,
            move_vel_x: 0,
            move_vel_y: 0,
            sprinting: false,
            stamina: IncrementalValue::new(1000),
            spawn_pos: Vector::zero(),
        }
    }

    pub fn set_admin(&mut self, admin: bool)
        ensures
            *final(self) == (Player { is_admin: admin, ..*old(self) }),
    {
        self.is_admin = admin;
    }

    pub fn username(&self) -> (r: &String)
        ensures
            r == self.username,
    {
        &self.username
    }

    pub fn score_counter(&self) -> (r: &ScoreCounter)
        ensures
            r == self.score_counter,
    {
        &self.score_counter
    }

    pub fn score_counter_mut(&mut self) -> (r: &mut ScoreCounter)
        ensures
            *r == old(self).score_counter,
            *final(self) == (Player { score_counter: *final(r), ..*old(self) }),
    {
        &mut self.score_counter
    }

    pub fn state(&self) -> (r: &PlayerState)
        ensures
            r == self.state,
    {
        &self.state
    }

    pub fn state_mut(&mut self) -> (r: &mut PlayerState)
        ensures
            *r == old(self).state,
            *final(self) == (Player { state: *final(r), ..*old(self) }),
    {
        &mut self.state
    }

    pub fn set_state(&mut self, state: PlayerState)
        ensures
            *final(self) == (Player { state, ..*old(self) }),
    {
        self.state = state;
    }

    pub fn move_dir(&self) -> (r: &Option<i64>)
        ensures
            r == self.move_dir,
    {
        &self.move_dir
    }

    pub fn spawn_pos(&self) -> (r: &Vector)
        ensures
            r == self.spawn_pos,
    {
        &self.spawn_pos
    }

    pub fn set_spawn_pos(&mut self, pos: &Vector)
        ensures
            *final(self) == (Player { spawn_pos: *pos, ..*old(self) }),
    {
        self.spawn_pos.copy_from(pos);
    }

    /// Folds a batch of move inputs into the move velocity: each direction
    /// held over the update weighs in by how long it was held, so small,
    /// quick inputs still move the player a little. The last input's
    /// direction and sprint flag stick.
    pub fn apply_move_messages(&mut self, inputs: Vec<MoveMessage>, now: u64)
        requires
            old(self).wf(),
        ensures
            final(self).wf(),
            ({
                let mv = spec_move_vel(
                    old(self).move_dir,
                    old(self).last_input_time as int,
                    inputs@,
                    now as int,
                );
                *final(self) == (Player {
                    move_vel_x: mv.0,
                    move_vel_y: mv.1,
                    move_dir: if inputs@.len() > 0 {
                        inputs@.last().move_dir
                    } else {
                        old(self).move_dir
                    },
                    sprinting: if inputs@.len() > 0 {
                        inputs@.last().sprinting
                    } else {
                        old(self).sprinting
                    },
                    last_input_time: now,
                    ..*old(self)
                })
            }),
    {
        let update_length: u64 = if now > self.last_input_time {
            now - self.last_input_time
        } else {
            1
        };

        // Weight for the stretch before the first input, on the previous
        // direction.
        let raw_w0: u64 = if inputs.len() > 0 {
            let t0 = inputs[0].timestamp;
            let base = if t0 > self.last_input_time {
                t0
            } else {
                self.last_input_time
            };
            base - self.last_input_time
        } else {
            update_length
        };
        let w0: u64 = if raw_w0 > WEIGHT_CAP {
            WEIGHT_CAP
        } else {
            raw_w0
        };

        let (ux0, uy0) = unit_components(&self.move_dir);
        proof {
            assert(-100_000_000_000 <= (ux0 as i128) * (w0 as i128) <= 100_000_000_000)
                by (nonlinear_arith)
                requires -1000 <= ux0 <= 1000, 0 <= w0 <= 100_000_000;
            assert(-100_000_000_000 <= (uy0 as i128) * (w0 as i128) <= 100_000_000_000)
                by (nonlinear_arith)
                requires -1000 <= uy0 <= 1000, 0 <= w0 <= 100_000_000;
        }
        let mut total_x: i128 = (ux0 as i128) * (w0 as i128);
        let mut total_y: i128 = (uy0 as i128) * (w0 as i128);

        let n = inputs.len();
        let mut i: usize = 0;
        while i < n
            invariant
                n == inputs@.len(),
                i <= n,
                total_x == spec_unit_x(self.move_dir) * (w0 as int) + spec_sum_x(
                    inputs@,
                    i as int,
                    now as int,
                ),
                total_y == spec_unit_y(self.move_dir) * (w0 as int) + spec_sum_y(
                    inputs@,
                    i as int,
                    now as int,
                ),
                -200_000_000_000i128 * (i + 1) <= total_x <= 200_000_000_000i128 * (i + 1),
                -200_000_000_000i128 * (i + 1) <= total_y <= 200_000_000_000i128 * (i + 1),
                *self == *old(self),
            decreases n - i,
        {
            let raw_w: u64 = if i + 1 < n {
                let next_t = inputs[i + 1].timestamp;
                let t = inputs[i].timestamp;
                if next_t > t {
                    next_t - t
                } else {
                    0
                }
            } else {
                let t = inputs[i].timestamp;
                if now > t {
                    now - t
                } else {
                    0
                }
            };
            let w: u64 = if raw_w > WEIGHT_CAP {
                WEIGHT_CAP
            } else {
                raw_w
            };
            let (ux, uy) = unit_components(&inputs[i].move_dir);
            proof {
                assert(-100_000_000_000 <= (ux as i128) * (w as i128) <= 100_000_000_000)
                    by (nonlinear_arith)
                    requires -1000 <= ux <= 1000, 0 <= w <= 100_000_000;
                assert(-100_000_000_000 <= (uy as i128) * (w as i128) <= 100_000_000_000)
                    by (nonlinear_arith)
                    requires -1000 <= uy <= 1000, 0 <= w <= 100_000_000;
                assert((ux as i128) * (w as i128) == spec_unit_x(inputs@[i as int].move_dir)
                    * spec_weight(inputs@, i as int, now as int));
                assert((uy as i128) * (w as i128) == spec_unit_y(inputs@[i as int].move_dir)
                    * spec_weight(inputs@, i as int, now as int));
            }
            total_x = total_x + (ux as i128) * (w as i128);
            total_y = total_y + (uy as i128) * (w as i128);
            i += 1;
        }

        // Save the direction and sprint flag of the last input.
        if n > 0 {
            self.move_dir = inputs[n - 1].move_dir;
            self.sprinting = inputs[n - 1].sprinting;
        }

        // Average the weighted sum over the update and clamp to a scaled
        // unit vector.
        self.move_vel_x = div_clamp_unit(total_x, update_length);
        self.move_vel_y = div_clamp_unit(total_y, update_length);
        self.last_input_time = now;
    }

    pub fn stamina(&mut self) -> (r: &mut IncrementalValue<i64>)
        ensures
            *r == old(self).stamina,
            *final(self) == (Player { stamina: *final(r), ..*old(self) }),
    {
        &mut self.stamina
    }
}

/// A stamina value clamped into the scaled unit range.
pub open spec fn spec_clamp_stamina(v: int) -> i64 {
    if v > 1000 {
        1000
    } else if v < 0 {
        0
    } else {
        v as i64
    }
}

impl Player {
    /// The stamina after one tick: spent while sprinting, regained while
    /// not, in proportion to the tick length over the configured reserve;
    /// an admin always has a full bar.
    pub open spec fn spec_next_stamina(&self, dt_ms: u64, config: &GameConfig) -> i64 {
        if self.is_admin {
            1000
        } else {
            let reserve = if self.state is Hunter {
                config.player.hunter_stamina_ms
            } else {
                config.player.prop_stamina_ms
            };
            let delta = dt_ms * 1000 / (reserve as int);
            if self.sprinting {
                spec_clamp_stamina(self.stamina.value - delta)
            } else {
                spec_clamp_stamina(self.stamina.value + delta)
            }
        }
    }

    /// The speed the player moves at: the sprint speed only while
    /// sprinting on a positive stamina bar, with a fixed fast speed for
    /// admins.
    pub open spec fn spec_move_speed(&self, new_stamina: i64, config: &GameConfig) -> i64 {
        if self.sprinting && new_stamina > 0 {
            if self.is_admin {
                250_000
            } else {
                config.player.sprint_speed
            }
        } else {
            config.player.move_speed
        }
    }

    /// Before integration: updates stamina and sets the body's horizontal
    /// velocity to the move direction times the move speed.
    pub fn physics_will_update(&mut self, dt_ms: u64, body: &mut EntityBody, config: &GameConfig)
        requires
            old(self).wf(),
            old(body).wf(),
            !old(body).is_static,
            config.wf(),
            dt_ms <= 1_000_000,
        ensures
            final(self).wf(),
            final(body).wf(),
            ({
                let new_stamina = old(self).spec_next_stamina(dt_ms, config);
                let speed = old(self).spec_move_speed(new_stamina, config);
                &&& *final(self) == (Player {
                    stamina: IncrementalValue {
                        value: new_stamina,
                        previous_value: old(self).stamina.previous_value,
                    },
                    ..*old(self)
                })
                &&& *final(body) == (EntityBody {
                    velocity: IncrementalValueDiff {
                        value: Vector {
                            x: crate::utils::spec_scale_div(
                                old(self).move_vel_x as int,
                                speed as int,
                                1000,
                            ) as i64,
                            y: crate::utils::spec_scale_div(
                                old(self).move_vel_y as int,
                                speed as int,
                                1000,
                            ) as i64,
                            z: old(body).velocity.value.z,
                        },
                        previous_value: old(body).velocity.previous_value,
                        diff: old(body).velocity.diff,
                    },
                    ..*old(body)
                })
            }),
    {
        // Decrease or increase stamina.
        let new_stamina: i64;
        if self.is_admin {
            // Always have full stamina if admin.
            new_stamina = 1000;
        } else {
            let reserve: u64 = match &self.state {
                PlayerState::Hunter(_) => config.player.hunter_stamina_ms,
                PlayerState::Prop(_) => config.player.prop_stamina_ms,
            };
            let delta: i64 = ((dt_ms * 1000) / reserve) as i64;
            let raw: i64 = if self.sprinting {
                self.stamina.get() - delta
            } else {
                self.stamina.get() + delta
            };
            new_stamina = if raw > 1000 {
                1000
            } else if raw < 0 {
                0
            } else {
                raw
            };
        }
        self.stamina.set(new_stamina);

        // Set the move velocity.
        let move_speed: i64 = if self.sprinting && new_stamina > 0 {
            if self.is_admin {
                250_000
            } else {
                config.player.sprint_speed
            }
        } else {
            config.player.move_speed
        };
        let vx = crate::utils::scale_div(self.move_vel_x, move_speed, 1000);
        let vy = crate::utils::scale_div(self.move_vel_y, move_speed, 1000);
        proof {
            assert(-1_000_000_000 <= self.move_vel_x as int * move_speed <= 1_000_000_000)
                by (nonlinear_arith)
                requires -1000 <= self.move_vel_x <= 1000, 0 <= move_speed <= 1_000_000;
            assert(-1_000_000_000 <= self.move_vel_y as int * move_speed <= 1_000_000_000)
                by (nonlinear_arith)
                requires -1000 <= self.move_vel_y <= 1000, 0 <= move_speed <= 1_000_000;
            crate::utils::lemma_scale_div_abs(
                self.move_vel_x as int,
                move_speed as int,
                1000,
                1_000_000_000,
            );
            crate::utils::lemma_scale_div_abs(
                self.move_vel_y as int,
                move_speed as int,
                1000,
                1_000_000_000,
            );
        }
        let vz = body.velocity.get().z;
        body.set_vel(Vector::new(vx, vy, vz));
    }

    /// The range the next ping delay is drawn from, for a given cube root
    /// of the body volume (milli-units): both ends grow with the cube
    /// root, and neither goes below the configured minimum.
    pub open spec fn spec_ping_range(adj_milli: int, config: &GameConfig) -> (int, int) {
        let lo0 = adj_milli * config.player.ping_delay_unit_ms.0 / 1000
            + config.player.ping_delay_base_ms.0;
        let lo = vstd::math::max(config.player.ping_delay_min_ms as int, lo0);
        let hi0 = adj_milli * config.player.ping_delay_unit_ms.1 / 1000
            + config.player.ping_delay_base_ms.1;
        let hi = vstd::math::max(lo, hi0);
        (lo, hi)
    }

    /// Draws the delay until a prop's next forced ping, uniformly from the
    /// volume-dependent range: bigger props ping no sooner.
    pub fn prop_ping_delay(volume: i64, config: &GameConfig) -> (r: u64)
        requires
            volume >= 0,
            config.wf(),
        ensures
            ({
                let adj = crate::utils::spec_cbrt(volume as nat);
                let range = Self::spec_ping_range(adj as int, config);
                range.0 <= r <= range.1
            }),
    {
        // The cube root keeps huge props from never pinging at all.
        let adjusted_volume: u64 = int_cbrt(volume as u64);
        proof {
            assert(adjusted_volume <= 2_097_151) by {
                assert(volume <= 9_223_372_036_854_775_807);
                if adjusted_volume > 2_097_151 {
                    assert(adjusted_volume as int * adjusted_volume * adjusted_volume
                        > 9_223_372_036_854_775_807) by (nonlinear_arith)
                        requires adjusted_volume >= 2_097_152;
                }
            }
            assert(adjusted_volume as int * config.player.ping_delay_unit_ms.0
                <= 2_097_151_000_000_000_000) by (nonlinear_arith)
                requires 0 <= adjusted_volume <= 2_097_151,
                    0 <= config.player.ping_delay_unit_ms.0 <= 1_000_000;
            assert(adjusted_volume as int * config.player.ping_delay_unit_ms.1
                <= 2_097_151_000_000_000_000) by (nonlinear_arith)
                requires 0 <= adjusted_volume <= 2_097_151,
                    0 <= config.player.ping_delay_unit_ms.1 <= 1_000_000;
        }
        let lo0: u64 = adjusted_volume * config.player.ping_delay_unit_ms.0 / 1000
            + config.player.ping_delay_base_ms.0;
        let lo: u64 = if config.player.ping_delay_min_ms > lo0 {
            config.player.ping_delay_min_ms
        } else {
            lo0
        };
        let hi0: u64 = adjusted_volume * config.player.ping_delay_unit_ms.1 / 1000
            + config.player.ping_delay_base_ms.1;
        let hi: u64 = if lo > hi0 {
            lo
        } else {
            hi0
        };
        proof {
            vstd::arithmetic::div_mod::lemma_div_is_ordered(
                0,
                adjusted_volume as int * config.player.ping_delay_unit_ms.0 as int,
                1000,
            );
            vstd::arithmetic::div_mod::lemma_div_is_ordered(
                0,
                adjusted_volume as int * config.player.ping_delay_unit_ms.1 as int,
                1000,
            );
        }
        // One past the top so the two ends are never equal.
        crate::utils::rand_u64(lo, hi + 1)
    }
}

/// The unit vector of a direction, by the fixed-point trig.
fn unit_components(d: &Option<i64>) -> (r: (i64, i64))
    ensures
        r.0 == spec_unit_x(*d),
        r.1 == spec_unit_y(*d),
        -1000 <= r.0 <= 1000,
        -1000 <= r.1 <= 1000,
{
    match d {
        Some(a) => {
            let a_clamped = *a;
            if a_clamped > i64::MIN {
                (cos_milli_wide(a_clamped), sin_milli_wide(a_clamped))
            } else {
                // The angle is reduced modulo a full turn first, so the
                // extreme value maps like its value one turn later.
                proof {
                    assert(spec_angle_mod(i64::MIN as int) == spec_angle_mod(
                        i64::MIN as int + 6284,
                    ));
                    assert(spec_angle_mod(i64::MIN as int + 1571) == spec_angle_mod(
                        i64::MIN as int + 6284 + 1571,
                    ));
                }
                (cos_milli_wide(a_clamped + 6284), sin_milli_wide(a_clamped + 6284))
            }
        },
        None => (0, 0),
    }
}

/// The cosine over the whole angle range.
fn cos_milli_wide(a: i64) -> (r: i64)
    requires
        a > i64::MIN,
    ensures
        r == spec_cos_milli(a as int),
        -1000 <= r <= 1000,
{
    if a <= i64::MAX - 1571 {
        crate::utils::sin_milli(a + 1571)
    } else {
        // One whole turn back: the sine is periodic.
        proof {
            crate::utils::lemma_sin_period(a as int + 1571 - 6284);
        }
        crate::utils::sin_milli(a - 4713)
    }
}

/// The sine over the whole angle range.
fn sin_milli_wide(a: i64) -> (r: i64)
    requires
        a > i64::MIN,
    ensures
        r == spec_sin_milli(a as int),
        -1000 <= r <= 1000,
{
    crate::utils::sin_milli(a)
}

/// Divides an accumulated weighted sum by the update length and clamps to
/// a scaled unit component.
fn div_clamp_unit(p: i128, d: u64) -> (r: i64)
    requires
        d >= 1,
        p > i128::MIN,
    ensures
        r == spec_clamp_unit(spec_div_trunc(p as int, d as int)),
        -1000 <= r <= 1000,
{
    let q: i128 = if p >= 0 {
        proof {
            vstd::arithmetic::div_mod::lemma_div_is_ordered(0, p as int, d as int);
        }
        p / (d as i128)
    } else {
        proof {
            vstd::arithmetic::div_mod::lemma_div_is_ordered(0, -p as int, d as int);
        }
        -((-p) / (d as i128))
    };
    if q > 1000 {
        1000
    } else if q < -1000 {
        -1000
    } else {
        q as i64
    }
}

} // verus!
