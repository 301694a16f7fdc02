//! The message router and the per-client session: inbound message decoding
//! over the wire value model, outbound message tags, broadcast events with
//! their range rule, and the per-tick delta construction.
use vstd::prelude::*;

use crate::entities::entity::{Entity, EntityId};
use crate::game_world::GameWorld;
use crate::geometry::{Rect, Vector, COORD_LIMIT};
use crate::wire::WireValue;

verus! {

/// Errors that occur when processing messages.
#[derive(Debug)]
pub enum MessageError {
    Malformed,
    MissingData,
    DataType,
    EventType,
}

/// Type used to identify clients.
pub type ClientId = u64;

/// Message data that was received from the client. Angles arrive in
/// milliradians and positions in milli-units, as the decode boundary
/// scales them.
pub enum ClientMessage {
    Auth { player_token: String },
    Join { username: String, character_id: String },
    MoveDir { move_dir: Option<i64>, sprinting: bool },
    FaceDir { dir: i64 },
    Rotate { rot: u8 },
    Shoot { target: Vector },
    Select { entity_id: EntityId },
    Jump,
    ForcePing,
    CheatCode(String),
    TempData { data: String },
    Leave,
}

/// The exact decode of an inbound message body under its tag.
pub open spec fn spec_from_data(message_type: u64, data: WireValue) -> Result<
    ClientMessage,
    MessageError,
> {
    if message_type == 0 {
        match data {
            WireValue::Arr(items) => if items@.len() != 1 {
                Err(MessageError::MissingData)
            } else {
                match items@[0] {
                    WireValue::Str(s) => Ok(ClientMessage::Auth { player_token: s }),
                    _ => Err(MessageError::MissingData),
                }
            },
            _ => Err(MessageError::MissingData),
        }
    } else if message_type == 1 {
        match data {
            WireValue::Arr(items) => if items@.len() != 2 {
                Err(MessageError::MissingData)
            } else {
                match (items@[0], items@[1]) {
                    (WireValue::Str(u), WireValue::Str(c)) => Ok(
                        ClientMessage::Join { username: u, character_id: c },
                    ),
                    _ => Err(MessageError::MissingData),
                }
            },
            _ => Err(MessageError::MissingData),
        }
    } else if message_type == 2 {
        match data {
            WireValue::Arr(items) => if items@.len() != 2 {
                Err(MessageError::MissingData)
            } else {
                match items@[1] {
                    WireValue::Bool(sprinting) => match items@[0] {
                        WireValue::I(d) => Ok(
                            ClientMessage::MoveDir { move_dir: Some(d), sprinting },
                        ),
                        _ => Ok(ClientMessage::MoveDir { move_dir: None, sprinting }),
                    },
                    _ => Err(MessageError::MissingData),
                }
            },
            _ => Err(MessageError::MissingData),
        }
    } else if message_type == 3 {
        match data {
            WireValue::I(d) => Ok(ClientMessage::FaceDir { dir: d }),
            _ => Err(MessageError::MissingData),
        }
    } else if message_type == 4 {
        match data {
            WireValue::U(r) => if r <= 255 {
                Ok(ClientMessage::Rotate { rot: r as u8 })
            } else {
                Err(MessageError::MissingData)
            },
            _ => Err(MessageError::MissingData),
        }
    } else if message_type == 5 {
        match data {
            WireValue::Arr(items) => if items@.len() != 3 {
                Err(MessageError::MissingData)
            } else {
                match (items@[0], items@[1], items@[2]) {
                    (WireValue::I(x), WireValue::I(y), WireValue::I(z)) => Ok(
                        ClientMessage::Shoot { target: Vector { x, y, z } },
                    ),
                    _ => Err(MessageError::MissingData),
                }
            },
            _ => Err(MessageError::MissingData),
        }
    } else if message_type == 6 {
        match data {
            WireValue::U(id) => Ok(ClientMessage::Select { entity_id: id }),
            _ => Err(MessageError::MissingData),
        }
    } else if message_type == 7 {
        Ok(ClientMessage::Jump)
    } else if message_type == 8 {
        Ok(ClientMessage::ForcePing)
    } else if message_type == 9 {
        match data {
            WireValue::Str(s) => Ok(ClientMessage::CheatCode(s)),
            _ => Err(MessageError::MissingData),
        }
    } else if message_type == 10 {
        match data {
            WireValue::Str(s) => Ok(ClientMessage::TempData { data: s }),
            _ => Err(MessageError::MissingData),
        }
    } else {
        Err(MessageError::EventType)
    }
}

impl ClientMessage {
    /// Decodes an inbound message body under its tag, exactly per
    /// `spec_from_data`.
    pub fn from_data(message_type: u64, data: WireValue) -> (r: Result<
        ClientMessage,
        MessageError,
    >)
        ensures
            r == spec_from_data(message_type, data),
    {
        match message_type {
            0 => match data {
                WireValue::Arr(mut items) => if items.len() != 1 {
                    Err(MessageError::MissingData)
                } else {
                    match items.pop() {
                        Some(WireValue::Str(s)) => Ok(ClientMessage::Auth { player_token: s }),
                        _ => Err(MessageError::MissingData),
                    }
                },
                _ => Err(MessageError::MissingData),
            },
            1 => match data {
                WireValue::Arr(mut items) => if items.len() != 2 {
                    Err(MessageError::MissingData)
                } else {
                    let c = items.pop();
                    let u = items.pop();
                    match (u, c) {
                        (Some(WireValue::Str(u)), Some(WireValue::Str(c))) => Ok(
                            ClientMessage::Join { username: u, character_id: c },
                        ),
                        _ => Err(MessageError::MissingData),
                    }
                },
                _ => Err(MessageError::MissingData),
            },
            2 => match data {
                WireValue::Arr(mut items) => if items.len() != 2 {
                    Err(MessageError::MissingData)
                } else {
                    let s = items.pop();
                    let d = items.pop();
                    match s {
                        Some(WireValue::Bool(sprinting)) => match d {
                            Some(WireValue::I(dd)) => Ok(
                                ClientMessage::MoveDir { move_dir: Some(dd), sprinting },
                            ),
                            _ => Ok(ClientMessage::MoveDir { move_dir: None, sprinting }),
                        },
                        _ => Err(MessageError::MissingData),
                    }
                },
                _ => Err(MessageError::MissingData),
            },
            3 => match data {
                WireValue::I(d) => Ok(ClientMessage::FaceDir { dir: d }),
                _ => Err(MessageError::MissingData),
            },
            4 => match data {
                WireValue::U(r) => if r <= 255 {
                    Ok(ClientMessage::Rotate { rot: r as u8 })
                } else {
                    Err(MessageError::MissingData)
                },
                _ => Err(MessageError::MissingData),
            },
            5 => match data {
                WireValue::Arr(mut items) => if items.len() != 3 {
                    Err(MessageError::MissingData)
                } else {
                    let z = items.pop();
                    let y = items.pop();
                    let x = items.pop();
                    match (x, y, z) {
                        (
                            Some(WireValue::I(xx)),
                            Some(WireValue::I(yy)),
                            Some(WireValue::I(zz)),
                        ) => Ok(ClientMessage::Shoot { target: Vector::new(xx, yy, zz) }),
                        _ => Err(MessageError::MissingData),
                    }
                },
                _ => Err(MessageError::MissingData),
            },
            6 => match data {
                WireValue::U(id) => Ok(ClientMessage::Select { entity_id: id }),
                _ => Err(MessageError::MissingData),
            },
            7 => Ok(ClientMessage::Jump),
            8 => Ok(ClientMessage::ForcePing),
            9 => match data {
                WireValue::Str(s) => Ok(ClientMessage::CheatCode(s)),
                _ => Err(MessageError::MissingData),
            },
            10 => match data {
                WireValue::Str(s) => Ok(ClientMessage::TempData { data: s }),
                _ => Err(MessageError::MissingData),
            },
            _ => Err(MessageError::EventType),
        }
    }
}

/// Declares the type of an outbound message.
pub enum MessageType {
    Init,
    Update,
    PingDelay,
    ShootDelay,
    Stamina,
    GameResults,
}

impl MessageType {
    /// The stable wire tag of each outbound message type.
    pub fn message_flag(&self) -> (r: u8)
        ensures
            r == match self {
                MessageType::Init => 0u8,
                MessageType::Update => 1u8,
                MessageType::PingDelay => 2u8,
                MessageType::ShootDelay => 3u8,
                MessageType::Stamina => 4u8,
                MessageType::GameResults => 5u8,
            },
    {
        match self {
            MessageType::Init => 0,
            MessageType::Update => 1,
            MessageType::PingDelay => 2,
            MessageType::ShootDelay => 3,
            MessageType::Stamina => 4,
            MessageType::GameResults => 5,
        }
    }
}

/// Identifier for the client event data.
pub enum ClientEventFlag {
    GameState,
    Shoot,
    Ping,
    PlayerDeath,
    ScoreboardUpdate,
}

impl ClientEventFlag {
    /// The stable wire tag of each event kind.
    pub fn flag_raw(&self) -> (r: u8)
        ensures
            r == match self {
                ClientEventFlag::GameState => 0u8,
                ClientEventFlag::Shoot => 1u8,
                ClientEventFlag::Ping => 2u8,
                ClientEventFlag::PlayerDeath => 3u8,
                ClientEventFlag::ScoreboardUpdate => 4u8,
            },
    {
        match self {
            ClientEventFlag::GameState => 0,
            ClientEventFlag::Shoot => 1,
            ClientEventFlag::Ping => 2,
            ClientEventFlag::PlayerDeath => 3,
            ClientEventFlag::ScoreboardUpdate => 4,
        }
    }
}

/// A shot fired, drawn from its start to its end.
pub struct ShootEvent {
    pub shooter: EntityId,
    pub start: Vector,
    pub end: Vector,
}

/// A prop's sonar ping at a point.
pub struct PingEvent {
    pub point: Vector,
}

/// A player died and respawns as a hunter.
pub struct PlayerDeathEvent {
    pub player_id: EntityId,
}

/// The game state changed.
pub struct GameStateEvent {
    pub state_tag: u8,
}

/// A fresh scoreboard for everyone.
pub struct ScoreboardUpdateEvent {
    pub items: Vec<crate::game::ScoreboardItem>,
}

/// One broadcast event of a tick.
pub enum ClientEvent {
    GameState(GameStateEvent),
    Shoot(ShootEvent),
    Ping(PingEvent),
    PlayerDeath(PlayerDeathEvent),
    ScoreboardUpdate(ScoreboardUpdateEvent),
}

impl ClientEvent {
    /// The position the event occurs at: only shots are ranged, so that
    /// far-away clients do not learn of them.
    pub open spec fn spec_event_pos(&self) -> Option<Vector> {
        match self {
            ClientEvent::Shoot(e) => Some(e.start),
            _ => None,
        }
    }

    pub fn event_pos(&self) -> (r: Option<Vector>)
        ensures
            r == self.spec_event_pos(),
    {
        match self {
            ClientEvent::Shoot(e) => Some(e.start),
            _ => None,
        }
    }

    pub fn event_flag(&self) -> (r: u8)
        ensures
            r == match self {
                ClientEvent::GameState(_) => 0u8,
                ClientEvent::Shoot(_) => 1u8,
                ClientEvent::Ping(_) => 2u8,
                ClientEvent::PlayerDeath(_) => 3u8,
                ClientEvent::ScoreboardUpdate(_) => 4u8,
            },
    {
        match self {
            ClientEvent::GameState(_) => ClientEventFlag::GameState.flag_raw(),
            ClientEvent::Shoot(_) => ClientEventFlag::Shoot.flag_raw(),
            ClientEvent::Ping(_) => ClientEventFlag::Ping.flag_raw(),
            ClientEvent::PlayerDeath(_) => ClientEventFlag::PlayerDeath.flag_raw(),
            ClientEvent::ScoreboardUpdate(_) => ClientEventFlag::ScoreboardUpdate.flag_raw(),
        }
    }

    /// Whether a wire value is this event's body.
    pub open spec fn is_serialized(&self, w: WireValue) -> bool {
        match self {
            ClientEvent::GameState(e) => w == WireValue::U(e.state_tag as u64),
            ClientEvent::Shoot(e) => w is Arr && w->Arr_0@.len() == 3 && w->Arr_0@[0]
                == WireValue::U(e.shooter) && crate::wire::is_ser_vector(w->Arr_0@[1], e.start)
                && crate::wire::is_ser_vector(w->Arr_0@[2], e.end),
            ClientEvent::Ping(e) => crate::wire::is_ser_vector(w, e.point),
            ClientEvent::PlayerDeath(e) => w == WireValue::U(e.player_id),
            ClientEvent::ScoreboardUpdate(e) => crate::game::is_ser_scoreboard(w, e.items@),
        }
    }

    /// The event body on the wire.
    pub fn serialize(&self) -> (r: WireValue)
        ensures
            self.is_serialized(r),
    {
        match self {
            ClientEvent::GameState(e) => WireValue::U(e.state_tag as u64),
            ClientEvent::Shoot(e) => {
                let mut items: Vec<WireValue> = Vec::new();
                items.push(WireValue::U(e.shooter));
                items.push(crate::wire::ser_vector(&e.start));
                items.push(crate::wire::ser_vector(&e.end));
                WireValue::Arr(items)
            },
            ClientEvent::Ping(e) => crate::wire::ser_vector(&e.point),
            ClientEvent::PlayerDeath(e) => WireValue::U(e.player_id),
            ClientEvent::ScoreboardUpdate(e) => crate::game::ser_scoreboard(&e.items),
        }
    }
}

/// Whether a point lies within the view range box around a base point, in
/// the plane.
pub open spec fn spec_point_in_range(range: i64, base: Vector, point: Vector) -> bool {
    &&& point.x <= base.x + range
    &&& point.x >= base.x - range
    &&& point.y <= base.y + range
    &&& point.y >= base.y - range
}

/// If a given point is within range of a base vector.
pub fn point_in_range(range: i64, base: &Vector, point: &Vector) -> (r: bool)
    ensures
        r == spec_point_in_range(range, *base, *point),
{
    (point.x as i128) <= (base.x as i128) + (range as i128) && (point.x as i128) >= (
    base.x as i128) - (range as i128) && (point.y as i128) <= (base.y as i128) + (range as i128)
        && (point.y as i128) >= (base.y as i128) - (range as i128)
}

/// The indices of the events a client receives, in order: every event
/// without a position, and every placed event within view range of the
/// spectator position.
pub open spec fn spec_sent_events(
    events: Seq<ClientEvent>,
    range: i64,
    base: Vector,
    i: int,
) -> Seq<int>
    decreases events.len() - i,
{
    if i < 0 || i >= events.len() {
        Seq::empty()
    } else {
        (if spec_event_sent(events[i], range, base) {
            seq![i]
        } else {
            Seq::empty()
        }) + spec_sent_events(events, range, base, i + 1)
    }
}

/// Whether an event reaches a client: always without a position, within
/// the view range box otherwise.
pub open spec fn spec_event_sent(ev: ClientEvent, view_range: i64, base: Vector) -> bool {
    match ev.spec_event_pos() {
        Some(pos) => spec_point_in_range(view_range, base, pos),
        None => true,
    }
}

/// The per-client session: authentication and role flags, what the client
/// watches, and where it spectates from.
pub struct ClientHandle {
    pub is_admin: bool,
    /// Set once the lobby service accepted the player's token.
    pub player_token: Option<String>,
    pub sent_init_message: bool,
    /// The ids of the entities this client currently sees.
    pub watching_entities: Vec<EntityId>,
    /// Position at which the client is spectating from, so a client with
    /// no player and nobody to spectate still sees something.
    pub spectating_position: Vector,
    pub spectating_id: Option<EntityId>,
    pub player_id: Option<EntityId>,
}

/// The z extent of the view column, effectively unbounded.
pub const VIEW_COLUMN_Z: i64 = 1_000_000;

impl ClientHandle {
    pub open spec fn wf(&self) -> bool {
        self.spectating_position.bounded(COORD_LIMIT as i64)
    }

    pub fn new() -> (c: ClientHandle)
        ensures
            c.wf(),
            !c.is_admin,
            c.player_token is None,
            !c.sent_init_message,
            c.watching_entities@.len() == 0,
            c.spectating_id is None,
            c.player_id is None,
    {
        ClientHandle {
            is_admin: false,
            player_token: None,
            sent_init_message: false,
            watching_entities: Vec::new(),
            spectating_position: Vector::new(0, 0, 0),
            spectating_id: None,
            player_id: None,
        }
    }

    /// Builds this tick's update for the client: the state and timer, the
    /// minimap when it changed or this is the first update, the broadcast
    /// events within view range, and the four delta categories of the
    /// visible-set diff against the last tick's watching set.
    pub fn build_update_message(
        &mut self,
        state_tag: u8,
        state_timer_ms: u64,
        world: &GameWorld,
        events: &Vec<ClientEvent>,
        minimap_data: &WireValue,
        minimap_changed: bool,
        view_range: i64,
    ) -> (msg: WireValue)
        requires
            old(self).wf(),
            world.wf(),
            0 <= view_range <= 400_000_000,
        ensures
            final(self).wf(),
            final(self).sent_init_message,
            final(self).is_admin == old(self).is_admin,
            final(self).player_token == old(self).player_token,
            final(self).player_id == old(self).player_id,
            final(self).spectating_id == old(self).spectating_id,
            msg is Arr,
            msg->Arr_0@.len() == 10,
            msg->Arr_0@[0] == (match old(self).player_id {
                Some(id) => WireValue::U(id),
                None => WireValue::Nil,
            }),
            msg->Arr_0@[1] == (match old(self).spectating_id {
                Some(id) => WireValue::U(id),
                None => WireValue::Nil,
            }),
            msg->Arr_0@[2] == WireValue::U(state_tag as u64),
            msg->Arr_0@[3] == WireValue::U(state_timer_ms),
            // The minimap goes out exactly when it changed or this is the
            // client's first update.
            if minimap_changed || !old(self).sent_init_message {
                crate::wire::wire_bytes(msg->Arr_0@[4]) == crate::wire::wire_bytes(*minimap_data)
            } else {
                msg->Arr_0@[4] is Nil
            },
            // Events: exactly the in-range ones, in order, each framed as
            // its tag and body.
            msg->Arr_0@[5] is Arr,
            ({
                let sent = msg->Arr_0@[5]->Arr_0@;
                let kept = spec_sent_events(
                    events@,
                    view_range,
                    final(self).spectating_position,
                    0,
                );
                &&& sent.len() == kept.len()
                &&& forall|k: int|
                    #![trigger sent[k]]
                    0 <= k < sent.len() ==> sent[k] is Arr && sent[k]->Arr_0@.len() == 2
                        && sent[k]->Arr_0@[0] == WireValue::U(
                        spec_event_tag(events@[kept[k]]) as u64,
                    ) && events@[kept[k]].is_serialized(sent[k]->Arr_0@[1])
            }),
            // The spectator anchor follows the refresh rule before
            // anything is culled against it.
            final(self).spectating_position == spec_refreshed_position(
                *old(self),
                world.entities@,
            ),
            // The watching set afterwards is exactly what the visibility
            // query around the refreshed anchor returned: sound for hits,
            // complete for visible entries.
            ({
                let pos = spec_refreshed_position(*old(self), world.entities@);
                let rect = spec_view_rect(view_range);
                let w2 = final(self).watching_entities@;
                &&& forall|j: int|
                    0 <= j < w2.len() ==> exists|e: crate::quad_tree::TreeEntry|
                        world.quad_tree.spec_entries().contains(e) && e.id == #[trigger] w2[j]
                            && crate::quad_tree::entry_hit(e, rect, pos, true, true)
                &&& forall|e: crate::quad_tree::TreeEntry|
                    world.quad_tree.spec_entries().contains(e) && crate::quad_tree::entry_vis(
                        e,
                        rect,
                        pos,
                        true,
                        true,
                    ) ==> w2.contains(e.id)
            }),
            msg->Arr_0@[6] is Arr,
            msg->Arr_0@[7] is Arr,
            msg->Arr_0@[8] is Arr,
            msg->Arr_0@[9] is Arr,
            // Slot 6: one full snapshot per freshly visible id, in view
            // order.
            ({
                let w2 = final(self).watching_entities@;
                let fresh = spec_fresh_indices(
                    old(self).watching_entities@,
                    w2,
                    w2.len() as int,
                );
                let ap = msg->Arr_0@[6]->Arr_0@;
                &&& ap.len() == fresh.len()
                &&& forall|k: int|
                    #![trigger ap[k]]
                    0 <= k < ap.len() ==> spec_entity_snapshot(
                        world.entities@,
                        w2[fresh[k]],
                        ap[k],
                        true,
                    )
            }),
            // Slot 7: one delta per still-watched dirty id, in view order.
            ({
                let w2 = final(self).watching_entities@;
                let upd = spec_updated_indices(
                    old(self).watching_entities@,
                    w2,
                    world.entities@,
                    w2.len() as int,
                );
                let up = msg->Arr_0@[7]->Arr_0@;
                &&& up.len() == upd.len()
                &&& forall|k: int|
                    #![trigger up[k]]
                    0 <= k < up.len() ==> spec_entity_snapshot(
                        world.entities@,
                        w2[upd[k]],
                        up[k],
                        false,
                    )
            }),
            // Slots 8 and 9: every id that fell out of view, exactly once,
            // split by whether it was destroyed this tick.
            msg->Arr_0@[8]->Arr_0@ == spec_disappeared_list(
                old(self).watching_entities@,
                final(self).watching_entities@,
                world.destroyed_entities@,
                old(self).watching_entities@.len() as int,
            ),
            msg->Arr_0@[9]->Arr_0@ == spec_destroyed_list(
                old(self).watching_entities@,
                final(self).watching_entities@,
                world.destroyed_entities@,
                old(self).watching_entities@.len() as int,
            ),
    {
        // Refresh the spectator position: the player's position when
        // joined, else the spectated entity's, else the last one known.
        match self.player_id {
            Some(pid) => {
                match world.entity_index_with_id(pid) {
                    Some(i) => {
                        proof {
                            assert(world.entities@[i as int].wf());
                            crate::game_world::lemma_entity_unique_index(
                                world.entities@,
                                i as int,
                                pid,
                            );
                            assert(spec_position_of(world.entities@, pid) == Some(
                                world.entities@[i as int].body.position.value,
                            )) by {
                                let j = choose|j: int|
                                    0 <= j < world.entities@.len() && (
                                    #[trigger] world.entities@[j]).id == pid;
                                assert(j == i as int);
                            }
                        }
                        self.spectating_position = *world.entities[i].body.position.get();
                    },
                    None => {
                        proof {
                            assert(spec_position_of(world.entities@, pid) is None);
                        }
                    },
                }
            },
            None => {
                match self.spectating_id {
                    Some(sid) => {
                        match world.entity_index_with_id(sid) {
                            Some(i) => {
                                proof {
                                    assert(world.entities@[i as int].wf());
                                    crate::game_world::lemma_entity_unique_index(
                                        world.entities@,
                                        i as int,
                                        sid,
                                    );
                                    assert(spec_position_of(world.entities@, sid) == Some(
                                        world.entities@[i as int].body.position.value,
                                    )) by {
                                        let j = choose|j: int|
                                            0 <= j < world.entities@.len() && (
                                            #[trigger] world.entities@[j]).id == sid;
                                        assert(j == i as int);
                                    }
                                }
                                self.spectating_position = *world.entities[
                                    i
                                ].body.position.get();
                            },
                            None => {
                                proof {
                                    assert(spec_position_of(world.entities@, sid) is None);
                                }
                            },
                        }
                    },
                    None => {},
                }
            },
        }
        proof {
            assert(self.spectating_position == spec_refreshed_position(
                *old(self),
                world.entities@,
            ));
        }

        // Partition the broadcast events by range.
        let mut sent_events: Vec<WireValue> = Vec::new();
        let ne = events.len();
        let mut e: usize = 0;
        while e < ne
            invariant
                ne == events@.len(),
                e <= ne,
                self.wf(),
                0 <= view_range <= 400_000_000,
                spec_sent_events(events@, view_range, self.spectating_position, 0)
                    =~= spec_sent_events(events@, view_range, self.spectating_position, 0).subrange(
                    0,
                    sent_events@.len() as int,
                ) + spec_sent_events(events@, view_range, self.spectating_position, e as int),
                sent_events@.len() <= spec_sent_events(
                    events@,
                    view_range,
                    self.spectating_position,
                    0,
                ).len(),
                forall|k: int|
                    #![trigger sent_events@[k]]
                    0 <= k < sent_events@.len() ==> {
                        let idx = spec_sent_events(
                            events@,
                            view_range,
                            self.spectating_position,
                            0,
                        )[k];
                        &&& sent_events@[k] is Arr
                        &&& sent_events@[k]->Arr_0@.len() == 2
                        &&& sent_events@[k]->Arr_0@[0] == WireValue::U(
                            spec_event_tag(events@[idx]) as u64,
                        )
                        &&& events@[idx].is_serialized(sent_events@[k]->Arr_0@[1])
                    },
            decreases ne - e,
        {
            let ghost base = self.spectating_position;
            let ghost whole = spec_sent_events(events@, view_range, base, 0);
            let ev = &events[e];
            let keep_event = match ev.event_pos() {
                Some(pos) => point_in_range(view_range, &self.spectating_position, &pos),
                None => true,
            };
            proof {
                assert(spec_sent_events(events@, view_range, base, e as int) == (
                if spec_event_sent(events@[e as int], view_range, base) {
                    seq![e as int]
                } else {
                    Seq::empty()
                }) + spec_sent_events(events@, view_range, base, e + 1));
            }
            if keep_event {
                let mut pair: Vec<WireValue> = Vec::new();
                pair.push(WireValue::U(ev.event_flag() as u64));
                pair.push(ev.serialize());
                let framed = WireValue::Arr(pair);
                proof {
                    assert(framed->Arr_0@.len() == 2);
                    assert(whole.subrange(0, sent_events@.len() as int + 1) =~= whole.subrange(
                        0,
                        sent_events@.len() as int,
                    ) + seq![e as int]);
                    assert(whole[sent_events@.len() as int] == e as int);
                }
                sent_events.push(framed);
            }
            e += 1;
        }
        proof {
            let base = self.spectating_position;
            let whole = spec_sent_events(events@, view_range, base, 0);
            assert(spec_sent_events(events@, view_range, base, ne as int) =~= Seq::<int>::empty());
            assert(whole =~= whole.subrange(0, sent_events@.len() as int));
            assert(sent_events@.len() == whole.len());
        }

        // Recompute the visible set: everything whose bounding box or
        // origin meets the view column around the spectator.
        let side = if view_range > 500_000 {
            1_000_000
        } else {
            2 * view_range
        };
        let spectating_rect = Rect::new(
            Vector::new(0, 0, 0),
            Vector::new(side, side, VIEW_COLUMN_Z),
        );
        let visible = world.query_rect_all(
            &spectating_rect,
            &self.spectating_position,
            true,
            true,
            None,
        );
        let mut new_watching: Vec<EntityId> = Vec::new();
        let nv = visible.len();
        let mut v: usize = 0;
        while v < nv
            invariant
                nv == visible@.len(),
                v <= nv,
                new_watching@.len() == v,
                forall|j: int| 0 <= j < v ==> #[trigger] new_watching@[j] == visible@[j].id,
            decreases nv - v,
        {
            new_watching.push(visible[v].id);
            v += 1;
        }

        // Diff against the previous watching set: still-visible watched
        // ids update when dirty, fresh ids appear with a full init, and
        // whatever fell out either was destroyed this tick or disappeared.
        let ghost prev_w = self.watching_entities@;
        let mut appeared: Vec<WireValue> = Vec::new();
        let mut updated: Vec<WireValue> = Vec::new();
        let mut disappeared: Vec<WireValue> = Vec::new();
        let mut destroyed: Vec<WireValue> = Vec::new();
        let mut v2: usize = 0;
        while v2 < nv
            invariant
                nv == visible@.len(),
                v2 <= nv,
                world.wf(),
                self.watching_entities@ == prev_w,
                forall|i: int|
                    0 <= i < nv ==> world.quad_tree.spec_entries().contains(
                        *#[trigger] visible@[i],
                    ),
                new_watching@.len() == nv,
                forall|j: int| 0 <= j < nv ==> #[trigger] new_watching@[j] == visible@[j].id,
                appeared@.len() == spec_fresh_indices(prev_w, new_watching@, v2 as int).len(),
                forall|k: int|
                    #![trigger appeared@[k]]
                    0 <= k < appeared@.len() ==> spec_entity_snapshot(
                        world.entities@,
                        new_watching@[spec_fresh_indices(prev_w, new_watching@, v2 as int)[k]],
                        appeared@[k],
                        true,
                    ),
                updated@.len() == spec_updated_indices(
                    prev_w,
                    new_watching@,
                    world.entities@,
                    v2 as int,
                ).len(),
                forall|k: int|
                    #![trigger updated@[k]]
                    0 <= k < updated@.len() ==> spec_entity_snapshot(
                        world.entities@,
                        new_watching@[spec_updated_indices(
                            prev_w,
                            new_watching@,
                            world.entities@,
                            v2 as int,
                        )[k]],
                        updated@[k],
                        false,
                    ),
            decreases nv - v2,
        {
            let entry_id = visible[v2].id;
            proof {
                assert(new_watching@[v2 as int] == entry_id);
                assert(spec_fresh_indices(prev_w, new_watching@, v2 + 1) == (
                if !prev_w.contains(new_watching@[v2 as int]) {
                    spec_fresh_indices(prev_w, new_watching@, v2 as int).push(v2 as int)
                } else {
                    spec_fresh_indices(prev_w, new_watching@, v2 as int)
                }));
                assert(spec_updated_indices(prev_w, new_watching@, world.entities@, v2 + 1) == (
                if prev_w.contains(new_watching@[v2 as int]) && spec_watched_dirty(
                    world.entities@,
                    new_watching@[v2 as int],
                ) {
                    spec_updated_indices(prev_w, new_watching@, world.entities@, v2 as int).push(
                        v2 as int,
                    )
                } else {
                    spec_updated_indices(prev_w, new_watching@, world.entities@, v2 as int)
                }));
            }
            let was_watching = contains_id(&self.watching_entities, entry_id);
            match world.entity_index_with_id(entry_id) {
                Some(idx) => {
                    proof {
                        assert(world.entities@[idx as int].wf());
                        crate::game_world::lemma_entity_unique_index(
                            world.entities@,
                            idx as int,
                            entry_id,
                        );
                    }
                    let ent = &world.entities[idx];
                    if was_watching {
                        if ent.is_changed() {
                            proof {
                                assert(spec_watched_dirty(world.entities@, entry_id));
                            }
                            let ghost prev_u = updated@;
                            updated.push(ent.serialize(false));
                            proof {
                                assert forall|k: int|
                                    #![trigger updated@[k]]
                                    0 <= k < updated@.len() implies spec_entity_snapshot(
                                    world.entities@,
                                    new_watching@[spec_updated_indices(
                                        prev_w,
                                        new_watching@,
                                        world.entities@,
                                        v2 + 1,
                                    )[k]],
                                    updated@[k],
                                    false,
                                ) by {
                                    if k < prev_u.len() {
                                        assert(updated@[k] == prev_u[k]);
                                        assert(spec_updated_indices(
                                            prev_w,
                                            new_watching@,
                                            world.entities@,
                                            v2 + 1,
                                        )[k] == spec_updated_indices(
                                            prev_w,
                                            new_watching@,
                                            world.entities@,
                                            v2 as int,
                                        )[k]);
                                    } else {
                                        assert(spec_updated_indices(
                                            prev_w,
                                            new_watching@,
                                            world.entities@,
                                            v2 + 1,
                                        )[k] == v2 as int);
                                        assert((idx as int) < world.entities@.len()
                                            && world.entities@[idx as int].id
                                            == new_watching@[v2 as int]
                                            && crate::entities::entity::is_serialized_entity(
                                            updated@[k],
                                            world.entities@[idx as int],
                                            false,
                                        ));
                                    }
                                }
                            }
                        } else {
                            proof {
                                assert(!spec_watched_dirty(world.entities@, entry_id)) by {
                                    if spec_watched_dirty(world.entities@, entry_id) {
                                        let j = choose|j: int|
                                            0 <= j < world.entities@.len() && (
                                            #[trigger] world.entities@[j]).id == entry_id
                                                && world.entities@[j].spec_changed();
                                        assert(j == idx as int);
                                    }
                                }
                            }
                        }
                    } else {
                        let ghost prev_a = appeared@;
                        appeared.push(ent.serialize(true));
                        proof {
                            assert forall|k: int|
                                #![trigger appeared@[k]]
                                0 <= k < appeared@.len() implies spec_entity_snapshot(
                                world.entities@,
                                new_watching@[spec_fresh_indices(prev_w, new_watching@, v2 + 1)[k]],
                                appeared@[k],
                                true,
                            ) by {
                                if k < prev_a.len() {
                                    assert(appeared@[k] == prev_a[k]);
                                    assert(spec_fresh_indices(prev_w, new_watching@, v2 + 1)[k]
                                        == spec_fresh_indices(
                                        prev_w,
                                        new_watching@,
                                        v2 as int,
                                    )[k]);
                                } else {
                                    assert(spec_fresh_indices(prev_w, new_watching@, v2 + 1)[k]
                                        == v2 as int);
                                    assert((idx as int) < world.entities@.len()
                                        && world.entities@[idx as int].id
                                        == new_watching@[v2 as int]
                                        && crate::entities::entity::is_serialized_entity(
                                        appeared@[k],
                                        world.entities@[idx as int],
                                        true,
                                    ));
                                }
                            }
                        }
                    }
                },
                None => {
                    proof {
                        // Every visible entry sits in the index, so its id
                        // resolves to an entity.
                        let j = choose|j: int|
                            0 <= j < world.quad_tree.spec_entries().len()
                                && world.quad_tree.spec_entries()[j] == *visible@[v2 as int];
                        crate::quad_tree::lemma_id_count_at_least_one(
                            world.quad_tree.spec_entries(),
                            entry_id,
                            j,
                        );
                        assert(world.quad_tree.spec_id_count(entry_id) >= 1);
                        assert(crate::game_world::entity_id_count(world.entities@, entry_id)
                            >= 1);
                        let q = crate::game_world::lemma_entity_count_witness(
                            world.entities@,
                            entry_id,
                        );
                        assert(false);
                    }
                },
            }
            v2 += 1;
        }
        let nw = self.watching_entities.len();
        let mut w: usize = 0;
        while w < nw
            invariant
                nw == self.watching_entities@.len(),
                self.watching_entities@ == prev_w,
                w <= nw,
                disappeared@ == spec_disappeared_list(
                    prev_w,
                    new_watching@,
                    world.destroyed_entities@,
                    w as int,
                ),
                destroyed@ == spec_destroyed_list(
                    prev_w,
                    new_watching@,
                    world.destroyed_entities@,
                    w as int,
                ),
            decreases nw - w,
        {
            let id = self.watching_entities[w];
            proof {
                assert(prev_w[w as int] == id);
                assert(spec_disappeared_list(
                    prev_w,
                    new_watching@,
                    world.destroyed_entities@,
                    w + 1,
                ) == (if !new_watching@.contains(id) && !world.destroyed_entities@.contains(id) {
                    spec_disappeared_list(
                        prev_w,
                        new_watching@,
                        world.destroyed_entities@,
                        w as int,
                    ).push(WireValue::U(id))
                } else {
                    spec_disappeared_list(
                        prev_w,
                        new_watching@,
                        world.destroyed_entities@,
                        w as int,
                    )
                }));
                assert(spec_destroyed_list(
                    prev_w,
                    new_watching@,
                    world.destroyed_entities@,
                    w + 1,
                ) == (if !new_watching@.contains(id) && world.destroyed_entities@.contains(id) {
                    spec_destroyed_list(
                        prev_w,
                        new_watching@,
                        world.destroyed_entities@,
                        w as int,
                    ).push(WireValue::U(id))
                } else {
                    spec_destroyed_list(
                        prev_w,
                        new_watching@,
                        world.destroyed_entities@,
                        w as int,
                    )
                }));
            }
            if !contains_id(&new_watching, id) {
                if world.is_destroyed(id) {
                    destroyed.push(WireValue::U(id));
                } else {
                    disappeared.push(WireValue::U(id));
                }
            }
            w += 1;
        }

        // Assemble the update body.
        let mut slots: Vec<WireValue> = Vec::new();
        slots.push(
            match self.player_id {
                Some(id) => WireValue::U(id),
                None => WireValue::Nil,
            },
        );
        slots.push(
            match self.spectating_id {
                Some(id) => WireValue::U(id),
                None => WireValue::Nil,
            },
        );
        slots.push(WireValue::U(state_tag as u64));
        slots.push(WireValue::U(state_timer_ms));
        slots.push(
            if minimap_changed || !self.sent_init_message {
                clone_wire(minimap_data)
            } else {
                WireValue::Nil
            },
        );
        slots.push(WireValue::Arr(sent_events));
        slots.push(WireValue::Arr(appeared));
        slots.push(WireValue::Arr(updated));
        slots.push(WireValue::Arr(disappeared));
        slots.push(WireValue::Arr(destroyed));

        self.watching_entities = new_watching;
        self.sent_init_message = true;
        proof {
            let pos = self.spectating_position;
            let rect = spec_view_rect(view_range);
            let w2 = self.watching_entities@;
            assert forall|j: int| 0 <= j < w2.len() implies exists|
                e: crate::quad_tree::TreeEntry,
            |
                world.quad_tree.spec_entries().contains(e) && e.id == #[trigger] w2[j]
                    && crate::quad_tree::entry_hit(e, rect, pos, true, true) by {
                assert(world.quad_tree.spec_entries().contains(*visible@[j])
                    && visible@[j].id == w2[j] && crate::quad_tree::entry_hit(
                    *visible@[j],
                    rect,
                    pos,
                    true,
                    true,
                ));
            }
            assert forall|e: crate::quad_tree::TreeEntry|
                world.quad_tree.spec_entries().contains(e) && crate::quad_tree::entry_vis(
                    e,
                    rect,
                    pos,
                    true,
                    true,
                ) implies w2.contains(e.id) by {
                let j = choose|j: int|
                    0 <= j < world.quad_tree.spec_entries().len()
                        && world.quad_tree.spec_entries()[j] == e;
                let i = choose|i: int| 0 <= i < visible@.len() && *visible@[i] == e;
                assert(w2[i] == e.id);
            }
        }
        WireValue::Arr(slots)
    }
}

/// The position of the unique entity carrying an id, if one is present.
pub open spec fn spec_position_of(entities: Seq<Entity>, id: EntityId) -> Option<Vector> {
    if exists|i: int| 0 <= i < entities.len() && (#[trigger] entities[i]).id == id {
        let i = choose|i: int| 0 <= i < entities.len() && (#[trigger] entities[i]).id == id;
        Some(entities[i].body.position.value)
    } else {
        None
    }
}

/// The spectator anchor after a refresh: the mounted player's position,
/// else the spectated entity's, else the last one known.
pub open spec fn spec_refreshed_position(c: ClientHandle, entities: Seq<Entity>) -> Vector {
    match c.player_id {
        Some(pid) => match spec_position_of(entities, pid) {
            Some(p) => p,
            None => c.spectating_position,
        },
        None => match c.spectating_id {
            Some(sid) => match spec_position_of(entities, sid) {
                Some(p) => p,
                None => c.spectating_position,
            },
            None => c.spectating_position,
        },
    }
}

/// The view column around the spectator: a clamped square, full height.
pub open spec fn spec_view_rect(view_range: i64) -> Rect {
    let side: i64 = if view_range > 500_000 {
        1_000_000i64
    } else {
        (2 * view_range) as i64
    };
    Rect {
        center: (Vector { x: 0i64, y: 0i64, z: 0i64 }),
        size: (Vector { x: side, y: side, z: VIEW_COLUMN_Z }),
    }
}

/// The visible-set positions whose id was not watched before.
pub open spec fn spec_fresh_indices(prev: Seq<EntityId>, cur: Seq<EntityId>, k: int) -> Seq<int>
    decreases k,
{
    if k <= 0 {
        Seq::empty()
    } else {
        let rest = spec_fresh_indices(prev, cur, k - 1);
        if !prev.contains(cur[k - 1]) {
            rest.push(k - 1)
        } else {
            rest
        }
    }
}

/// Whether a wire value is the serialized snapshot of the entity
/// carrying an id.
pub open spec fn spec_entity_snapshot(
    entities: Seq<Entity>,
    id: EntityId,
    w: WireValue,
    init: bool,
) -> bool {
    exists|q: int|
        0 <= q < entities.len() && (#[trigger] entities[q]).id == id
            && crate::entities::entity::is_serialized_entity(w, entities[q], init)
}

/// Whether the entity carrying an id has unsent changes.
pub open spec fn spec_watched_dirty(entities: Seq<Entity>, id: EntityId) -> bool {
    exists|i: int|
        0 <= i < entities.len() && (#[trigger] entities[i]).id == id
            && entities[i].spec_changed()
}

/// The visible-set positions whose id was watched and whose entity is
/// dirty.
pub open spec fn spec_updated_indices(
    prev: Seq<EntityId>,
    cur: Seq<EntityId>,
    entities: Seq<Entity>,
    k: int,
) -> Seq<int>
    decreases k,
{
    if k <= 0 {
        Seq::empty()
    } else {
        let rest = spec_updated_indices(prev, cur, entities, k - 1);
        if prev.contains(cur[k - 1]) && spec_watched_dirty(entities, cur[k - 1]) {
            rest.push(k - 1)
        } else {
            rest
        }
    }
}

/// The formerly watched ids that left view without being destroyed, in
/// former order.
pub open spec fn spec_disappeared_list(
    prev: Seq<EntityId>,
    cur: Seq<EntityId>,
    destroyed: Seq<EntityId>,
    k: int,
) -> Seq<WireValue>
    decreases k,
{
    if k <= 0 {
        Seq::empty()
    } else {
        let rest = spec_disappeared_list(prev, cur, destroyed, k - 1);
        if !cur.contains(prev[k - 1]) && !destroyed.contains(prev[k - 1]) {
            rest.push(WireValue::U(prev[k - 1]))
        } else {
            rest
        }
    }
}

/// The formerly watched ids that were destroyed this tick, in former
/// order.
pub open spec fn spec_destroyed_list(
    prev: Seq<EntityId>,
    cur: Seq<EntityId>,
    destroyed: Seq<EntityId>,
    k: int,
) -> Seq<WireValue>
    decreases k,
{
    if k <= 0 {
        Seq::empty()
    } else {
        let rest = spec_destroyed_list(prev, cur, destroyed, k - 1);
        if !cur.contains(prev[k - 1]) && destroyed.contains(prev[k - 1]) {
            rest.push(WireValue::U(prev[k - 1]))
        } else {
            rest
        }
    }
}

/// The wire tag of an event, at spec level.
pub open spec fn spec_event_tag(ev: ClientEvent) -> u8 {
    match ev {
        ClientEvent::GameState(_) => 0u8,
        ClientEvent::Shoot(_) => 1u8,
        ClientEvent::Ping(_) => 2u8,
        ClientEvent::PlayerDeath(_) => 3u8,
        ClientEvent::ScoreboardUpdate(_) => 4u8,
    }
}

/// An equal-view copy of a wire value, preserving its encoding.
pub fn clone_wire(w: &WireValue) -> (r: WireValue)
    ensures
        crate::wire::wire_bytes(r) == crate::wire::wire_bytes(*w),
    decreases *w,
{
    match w {
        WireValue::Nil => {
            proof {
                assert(*w is Nil);
            }
            WireValue::Nil
        },
        WireValue::Bool(b) => WireValue::Bool(*b),
        WireValue::U(x) => WireValue::U(*x),
        WireValue::I(x) => WireValue::I(*x),
        WireValue::Str(s) => {
            let c = crate::game_config::clone_string(s);
            proof {
                assert(crate::wire::wire_bytes(WireValue::Str(c)) == crate::wire::str_msgpack(c@));
                assert(crate::wire::wire_bytes(*w) == crate::wire::str_msgpack(s@));
            }
            WireValue::Str(c)
        },
        WireValue::Arr(vs) => {
            let n = vs.len();
            let mut items: Vec<WireValue> = Vec::new();
            let mut i: usize = 0;
            while i < n
                invariant
                    w == WireValue::Arr(*vs),
                    n == vs@.len(),
                    i <= n,
                    items@.len() == i,
                    forall|j: int|
                        0 <= j < i ==> crate::wire::wire_bytes(#[trigger] items@[j])
                            == crate::wire::wire_bytes(vs@[j]),
                decreases n - i,
            {
                proof {
                    assert(decreases_to!(*w => (*w)->Arr_0));
                    assert((*w)->Arr_0 == *vs);
                    assert(decreases_to!(*vs => vs@));
                    assert(decreases_to!(vs@ => vs@[i as int]));
                    assert(decreases_to!(*w => vs@[i as int]));
                }
                items.push(clone_wire(&vs[i]));
                i += 1;
            }
            let r = WireValue::Arr(items);
            proof {
                lemma_tail_bytes_congruence(items@, vs@);
                assert(crate::wire::arr_tail_bytes(items@, 0) =~= crate::wire::arr_tail_bytes(
                    vs@,
                    0,
                ));
                assert(crate::wire::wire_bytes(r) == crate::wire::arr_len_msgpack(
                    items@.len() as u32,
                ) + crate::wire::arr_tail_bytes(items@, 0));
                assert(crate::wire::wire_bytes(*w) == crate::wire::arr_len_msgpack(
                    vs@.len() as u32,
                ) + crate::wire::arr_tail_bytes(vs@, 0));
            }
            r
        },
        WireValue::Dict(ps) => {
            let n = ps.len();
            let mut items: Vec<(WireValue, WireValue)> = Vec::new();
            let mut i: usize = 0;
            while i < n
                invariant
                    w == WireValue::Dict(*ps),
                    n == ps@.len(),
                    i <= n,
                    items@.len() == i,
                    forall|j: int|
                        0 <= j < i ==> crate::wire::wire_bytes((#[trigger] items@[j]).0)
                            == crate::wire::wire_bytes(ps@[j].0) && crate::wire::wire_bytes(
                            items@[j].1,
                        ) == crate::wire::wire_bytes(ps@[j].1),
                decreases n - i,
            {
                proof {
                    assert(decreases_to!(*w => (*w)->Dict_0));
                    assert((*w)->Dict_0 == *ps);
                    assert(decreases_to!(*ps => ps@));
                    assert(decreases_to!(ps@ => ps@[i as int]));
                    assert(decreases_to!(ps@[i as int] => ps@[i as int].0));
                    assert(decreases_to!(ps@[i as int] => ps@[i as int].1));
                    assert(decreases_to!(*w => ps@[i as int].0));
                    assert(decreases_to!(*w => ps@[i as int].1));
                }
                let k = clone_wire(&ps[i].0);
                let v = clone_wire(&ps[i].1);
                items.push((k, v));
                i += 1;
            }
            let r = WireValue::Dict(items);
            proof {
                lemma_map_tail_bytes_congruence(items@, ps@);
                assert(crate::wire::map_tail_bytes(items@, 0) =~= crate::wire::map_tail_bytes(
                    ps@,
                    0,
                ));
                assert(crate::wire::wire_bytes(r) == crate::wire::map_len_msgpack(
                    items@.len() as u32,
                ) + crate::wire::map_tail_bytes(items@, 0));
                assert(crate::wire::wire_bytes(*w) == crate::wire::map_len_msgpack(
                    ps@.len() as u32,
                ) + crate::wire::map_tail_bytes(ps@, 0));
            }
            r
        },
    }
}

/// Pointwise equal encodings make equal array tails.
proof fn lemma_tail_bytes_congruence(a: Seq<WireValue>, b: Seq<WireValue>)
    requires
        a.len() == b.len(),
        forall|j: int|
            0 <= j < a.len() ==> crate::wire::wire_bytes(#[trigger] a[j]) == crate::wire::wire_bytes(
                b[j],
            ),
    ensures
        forall|i: int|
            0 <= i <= a.len() ==> crate::wire::arr_tail_bytes(a, i) =~= crate::wire::arr_tail_bytes(
                b,
                i,
            ),
{
    assert forall|i: int|
        0 <= i <= a.len() implies crate::wire::arr_tail_bytes(a, i)
        =~= crate::wire::arr_tail_bytes(b, i) by {
        lemma_tail_bytes_congruence_at(a, b, i);
    }
}

proof fn lemma_tail_bytes_congruence_at(a: Seq<WireValue>, b: Seq<WireValue>, i: int)
    requires
        a.len() == b.len(),
        forall|j: int|
            0 <= j < a.len() ==> crate::wire::wire_bytes(#[trigger] a[j]) == crate::wire::wire_bytes(
                b[j],
            ),
        0 <= i <= a.len(),
    ensures
        crate::wire::arr_tail_bytes(a, i) == crate::wire::arr_tail_bytes(b, i),
    decreases a.len() - i,
{
    if i < a.len() {
        lemma_tail_bytes_congruence_at(a, b, i + 1);
    }
}

/// Pointwise equal encodings make equal map tails.
proof fn lemma_map_tail_bytes_congruence(
    a: Seq<(WireValue, WireValue)>,
    b: Seq<(WireValue, WireValue)>,
)
    requires
        a.len() == b.len(),
        forall|j: int|
            0 <= j < a.len() ==> crate::wire::wire_bytes((#[trigger] a[j]).0)
                == crate::wire::wire_bytes(b[j].0) && crate::wire::wire_bytes(a[j].1)
                == crate::wire::wire_bytes(b[j].1),
    ensures
        forall|i: int|
            0 <= i <= a.len() ==> crate::wire::map_tail_bytes(a, i)
                =~= crate::wire::map_tail_bytes(b, i),
{
    assert forall|i: int|
        0 <= i <= a.len() implies crate::wire::map_tail_bytes(a, i) =~= crate::wire::map_tail_bytes(
        b,
        i,
    ) by {
        lemma_map_tail_bytes_congruence_at(a, b, i);
    }
}

proof fn lemma_map_tail_bytes_congruence_at(
    a: Seq<(WireValue, WireValue)>,
    b: Seq<(WireValue, WireValue)>,
    i: int,
)
    requires
        a.len() == b.len(),
        forall|j: int|
            0 <= j < a.len() ==> crate::wire::wire_bytes((#[trigger] a[j]).0)
                == crate::wire::wire_bytes(b[j].0) && crate::wire::wire_bytes(a[j].1)
                == crate::wire::wire_bytes(b[j].1),
        0 <= i <= a.len(),
    ensures
        crate::wire::map_tail_bytes(a, i) == crate::wire::map_tail_bytes(b, i),
    decreases a.len() - i,
{
    if i < a.len() {
        lemma_map_tail_bytes_congruence_at(a, b, i + 1);
    }
}

/// Whether an id list holds an id.
pub fn contains_id(v: &Vec<EntityId>, id: EntityId) -> (r: bool)
    ensures
        r == v@.contains(id),
{
    let n = v.len();
    let mut i: usize = 0;
    while i < n
        invariant
            n == v@.len(),
            i <= n,
            forall|j: int| 0 <= j < i ==> v@[j] != id,
        decreases n - i,
    {
        if v[i] == id {
            return true;
        }
        i += 1;
    }
    false
}


/// Whether an inbound message may be handled yet: before a successful
/// authentication only the authentication message itself is let through.
pub fn gate_message(authed: bool, msg: &ClientMessage) -> (r: bool)
    ensures
        r == (authed || msg is Auth),
{
    authed || match msg {
        ClientMessage::Auth { .. } => true,
        _ => false,
    }
}

/// The ping-delay message: the milliseconds until a prop's next forced
/// ping, or nil to clear the display.
pub fn ping_delay_message(delay: Option<u64>) -> (r: Vec<u8>)
    ensures
        r@ == crate::wire::arr_len_msgpack(2) + crate::wire::u64_msgpack(2) + crate::wire::wire_bytes(
            match delay {
                Some(d) => WireValue::U(d),
                None => WireValue::Nil,
            },
        ),
{
    let body = match delay {
        Some(d) => WireValue::U(d),
        None => WireValue::Nil,
    };
    crate::wire::encode_message(MessageType::PingDelay.message_flag(), body)
}

/// The shoot-delay message: the milliseconds until the hunter may shoot
/// again, or nil to clear the display.
pub fn shoot_delay_message(delay: Option<u64>) -> (r: Vec<u8>)
    ensures
        r@ == crate::wire::arr_len_msgpack(2) + crate::wire::u64_msgpack(3) + crate::wire::wire_bytes(
            match delay {
                Some(d) => WireValue::U(d),
                None => WireValue::Nil,
            },
        ),
{
    let body = match delay {
        Some(d) => WireValue::U(d),
        None => WireValue::Nil,
    };
    crate::wire::encode_message(MessageType::ShootDelay.message_flag(), body)
}

/// The stamina message: a player's stamina in thousandths of a full bar.
pub fn stamina_message(stamina_milli: i64) -> (r: Vec<u8>)
    ensures
        r@ == crate::wire::arr_len_msgpack(2) + crate::wire::u64_msgpack(4) + crate::wire::wire_bytes(WireValue::I(stamina_milli)),
{
    crate::wire::encode_message(MessageType::Stamina.message_flag(), WireValue::I(stamina_milli))
}

} // verus!
