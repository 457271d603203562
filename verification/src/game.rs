//! The frame update controller and the state it mutates.
//!
//! The host engine owns the frame loop; once per rendered frame it hands
//! [`tick`] the elapsed time, this frame's collision events and the input
//! state, all as plain values, together with the persistent [`GameState`]
//! and the [`World`] mirror of the entities and display texts it renders.
//! [`tick`] mutates both exactly as [`crate::model::tick_model`] says and
//! returns the engine operations and side effects for the host to perform,
//! in order.

use vstd::prelude::*;

use crate::model::{
    click_fires, collision_effects, cursor_x, cursor_y, event_scores, keeps_label, model_wf,
    n_scoring, step_len, survives, tick_effects_ok, tick_model, timer_fires, EffectModel,
    EventModel, InputModel, Model, MOVEMENT_SPEED, SPAWN_INTERVAL, SPAWN_X_LIMIT, SPAWN_Y_LIMIT,
    TARGET_SCALE,
};
use crate::rng::random_in_range;
use crate::text::{
    bytes_eq, high_score_text_bytes, initial_high_score_text_bytes, player_label_bytes,
    score_log_line_bytes, score_text, score_text_bytes, zebra_label, zebra_label_bytes,
};

verus! {

/// Scores and spawn bookkeeping carried across ticks by the host loop.
pub struct GameState {
    /// Best score reached so far in this run.
    pub high_score: u32,
    /// Current run score.
    pub score: u32,
    /// Counter used to mint unique target identifiers; never reused.
    pub target_index: u64,
    /// Time accumulated toward the next timer spawn, in milli-time-units.
    pub spawn_elapsed_ms: u64,
}

/// The controller's mirror of what the host renders: the player position,
/// the live transient targets, and the two display texts.
pub struct World {
    /// Player position, in milli-distance-units.
    pub player_x: i64,
    /// Player position, in milli-distance-units.
    pub player_y: i64,
    /// Counter values of the live transient targets, in creation order.
    pub zebras: Vec<u64>,
    /// Bytes of the score display text.
    pub score_text_value: Vec<u8>,
    /// Bytes of the high-score display text.
    pub high_score_text_value: Vec<u8>,
}

/// One collision event reported by the host's physics step for this frame:
/// an unordered pair of entity identifiers and a begin/end tag.
pub struct CollisionEvent {
    /// Identifier of one participant.
    pub a: Vec<u8>,
    /// Identifier of the other participant.
    pub b: Vec<u8>,
    /// Whether this is a collision-begin event.
    pub begin: bool,
}

impl View for CollisionEvent {
    type V = EventModel;

    open spec fn view(&self) -> EventModel {
        EventModel { a: self.a@, b: self.b@, begin: self.begin }
    }
}

/// Everything the host hands the controller for one tick.
pub struct FrameInput {
    /// Time since the previous tick, in milli-time-units.
    pub delta_ms: u32,
    /// This frame's collision events, in arrival order.
    pub events: Vec<CollisionEvent>,
    /// Whether the Up key is held.
    pub up: bool,
    /// Whether the Down key is held.
    pub down: bool,
    /// Whether the Left key is held.
    pub left: bool,
    /// Whether the Right key is held.
    pub right: bool,
    /// Whether the reset key was freshly pressed this frame.
    pub reset_just_pressed: bool,
    /// Whether the left mouse button was freshly pressed this frame.
    pub click_just_pressed: bool,
    /// The cursor position in milli-distance-units, if resolvable.
    pub cursor: Option<(i64, i64)>,
}

/// The ghost image of a sequence of collision events.
pub open spec fn events_view(s: Seq<CollisionEvent>) -> Seq<EventModel> {
    s.map_values(|e: CollisionEvent| e@)
}

impl View for FrameInput {
    type V = InputModel;

    open spec fn view(&self) -> InputModel {
        InputModel {
            delta: self.delta_ms as nat,
            events: events_view(self.events@),
            up: self.up,
            down: self.down,
            left: self.left,
            right: self.right,
            reset: self.reset_just_pressed,
            click: self.click_just_pressed,
            cursor: match self.cursor {
                Some(p) => Some((p.0 as int, p.1 as int)),
                None => None,
            },
        }
    }
}

/// One engine operation or side effect for the host to perform.
pub enum Effect {
    /// Remove the entity with this identifier; a no-op if it is absent.
    RemoveSprite { label: Vec<u8> },
    /// Create a collision-enabled entity at this position, in
    /// milli-distance-units, with this visual scale in milli-units.
    AddSprite { label: Vec<u8>, x: i64, y: i64, scale: u32 },
    /// Re-render the score display with these bytes.
    SetScoreText { value: Vec<u8> },
    /// Re-render the high-score display with these bytes.
    SetHighScoreText { value: Vec<u8> },
    /// Trigger the one-shot scoring sound effect.
    PlaySfx,
    /// Write one diagnostic log line.
    Log { line: Vec<u8> },
}

impl View for Effect {
    type V = EffectModel;

    open spec fn view(&self) -> EffectModel {
        match self {
            Effect::RemoveSprite { label } => EffectModel::RemoveSprite { label: label@ },
            Effect::AddSprite { label, x, y, scale } => EffectModel::AddSprite {
                label: label@,
                x: *x as int,
                y: *y as int,
                scale: *scale as nat,
            },
            Effect::SetScoreText { value } => EffectModel::SetScoreText { value: value@ },
            Effect::SetHighScoreText { value } => EffectModel::SetHighScoreText { value: value@ },
            Effect::PlaySfx => EffectModel::PlaySfx,
            Effect::Log { line } => EffectModel::Log { line: line@ },
        }
    }
}

/// The ghost image of a sequence of effects.
pub open spec fn effects_view(s: Seq<Effect>) -> Seq<EffectModel> {
    s.map_values(|e: Effect| e@)
}

/// The counter values of a target list, as mathematical integers.
pub open spec fn nat_view(s: Seq<u64>) -> Seq<nat> {
    s.map_values(|z: u64| z as nat)
}

/// The ghost image of the persistent state and the rendered world together.
pub open spec fn model_of(s: GameState, w: World) -> Model {
    Model {
        high_score: s.high_score as nat,
        score: s.score as nat,
        target_index: s.target_index as nat,
        spawn_elapsed: s.spawn_elapsed_ms as nat,
        player_x: w.player_x as int,
        player_y: w.player_y as int,
        zebras: nat_view(w.zebras@),
        score_text_value: w.score_text_value@,
        high_score_text_value: w.high_score_text_value@,
    }
}

impl GameState {
    /// The state a fresh run starts from.
    pub fn new() -> (s: GameState)
        ensures
            s == (GameState { high_score: 0, score: 0, target_index: 0, spawn_elapsed_ms: 0 }),
    {
        GameState { high_score: 0, score: 0, target_index: 0, spawn_elapsed_ms: 0 }
    }
}

impl Default for GameState {
    /// The state a fresh run starts from.
    fn default() -> (s: GameState)
        ensures
            s == (GameState { high_score: 0, score: 0, target_index: 0, spawn_elapsed_ms: 0 }),
    {
        GameState::new()
    }
}

impl World {
    /// The world the host sets up at start-up: the player at the origin, no
    /// targets, and the two display texts with their initial values (the
    /// high-score text's capital `Score` included).
    pub fn new() -> (w: World)
        ensures
            w.player_x == 0,
            w.player_y == 0,
            w.zebras@ =~= Seq::<u64>::empty(),
            w.score_text_value@ == score_text(0),
            w.high_score_text_value@ == crate::text::initial_high_score_text(),
    {
        World {
            player_x: 0,
            player_y: 0,
            zebras: Vec::new(),
            score_text_value: score_text_bytes(0),
            high_score_text_value: initial_high_score_text_bytes(),
        }
    }
}

/// A fresh pair of state and world is the initial model, and well-formed.
pub proof fn lemma_initial_model(s: GameState, w: World)
    requires
        s == (GameState { high_score: 0, score: 0, target_index: 0, spawn_elapsed_ms: 0 }),
        w.player_x == 0,
        w.player_y == 0,
        w.zebras@ == Seq::<u64>::empty(),
        w.score_text_value@ == score_text(0),
        w.high_score_text_value@ == crate::text::initial_high_score_text(),
    ensures
        model_of(s, w) == crate::model::initial_model(),
        model_wf(model_of(s, w)),
{
    assert(model_of(s, w).zebras =~= Seq::<nat>::empty());
    assert(model_of(s, w) =~= crate::model::initial_model());
}

/// A copy of a byte vector.
fn copy_bytes(v: &Vec<u8>) -> (r: Vec<u8>)
    ensures
        r@ == v@,
{
    let mut r: Vec<u8> = Vec::new();
    let mut i: usize = 0;
    while i < v.len()
        invariant
            i <= v@.len(),
            r@ == v@.take(i as int),
        decreases v@.len() - i,
    {
        r.push(v[i]);
        proof {
            assert(r@ =~= v@.take(i + 1));
        }
        i += 1;
    }
    proof {
        assert(v@.take(v@.len() as int) =~= v@);
    }
    r
}

/// Removes every live target whose identifier is `label`; a no-op when none
/// matches.
fn remove_zebras_matching(zebras: &mut Vec<u64>, label: &Vec<u8>)
    ensures
        nat_view(final(zebras)@) == nat_view(old(zebras)@).filter(keeps_label(label@)),
{
    let ghost zs0 = nat_view(zebras@);
    let mut kept: Vec<u64> = Vec::new();
    let mut i: usize = 0;
    while i < zebras.len()
        invariant
            i <= zebras@.len(),
            nat_view(zebras@) == zs0,
            nat_view(kept@) == zs0.take(i as int).filter(keeps_label(label@)),
        decreases zebras@.len() - i,
    {
        let z = zebras[i];
        let zl = zebra_label_bytes(z);
        let matches_label = bytes_eq(&zl, label);
        proof {
            assert(zs0.take(i + 1) =~= zs0.take(i as int).push(z as nat));
            crate::model::lemma_filter_push(
                zs0.take(i as int),
                keeps_label(label@),
                z as nat,
            );
        }
        if !matches_label {
            let ghost prev = kept@;
            kept.push(z);
            proof {
                assert(nat_view(kept@) =~= nat_view(prev).push(z as nat));
            }
        }
        i += 1;
    }
    proof {
        assert(zs0.take(zs0.len() as int) =~= zs0);
    }
    *zebras = kept;
}

/// The collision-resolution phase: drain this frame's events in arrival
/// order. Each collision-begin event with the player on one side removes
/// the other participant from the live targets (a no-op if it is absent),
/// scores one point, re-renders the score display, re-renders the
/// high-score display when the best is beaten, and emits the sound effect
/// and the diagnostic log line. Other events are dropped without effect.
pub fn process_collisions(
    state: &mut GameState,
    world: &mut World,
    events: &Vec<CollisionEvent>,
    effects: &mut Vec<Effect>,
)
    requires
        old(state).score <= old(state).high_score,
        old(state).score + n_scoring(events_view(events@)) <= u32::MAX,
    ensures
        model_of(*final(state), *final(world)) == crate::model::collisions_model(
            model_of(*old(state), *old(world)),
            events_view(events@),
        ),
        effects_view(final(effects)@) == effects_view(old(effects)@) + collision_effects(
            old(state).score as nat,
            old(state).high_score as nat,
            events_view(events@),
        ),
{
    let ghost m0 = model_of(*old(state), *old(world));
    let ghost evs = events_view(events@);
    let ghost ev0 = effects_view(old(effects)@);
    let player_lab = player_label_bytes();
    proof {
        assert forall|z: nat| m0.zebras.contains(z) implies survives(Seq::<EventModel>::empty())(
            z,
        ) by {}
        crate::model::lemma_filter_all(m0.zebras, survives(Seq::<EventModel>::empty()));
        assert(evs.take(0) =~= Seq::<EventModel>::empty());
        assert(model_of(*state, *world) =~= crate::model::collisions_model(m0, evs.take(0)));
        assert(effects_view(effects@) =~= ev0 + collision_effects(
            m0.score,
            m0.high_score,
            evs.take(0),
        ));
    }
    let mut i: usize = 0;
    while i < events.len()
        invariant
            i <= events@.len(),
            evs == events_view(events@),
            evs.len() == events@.len(),
            m0.score + n_scoring(evs) <= u32::MAX,
            m0.score <= m0.high_score,
            model_of(*state, *world) == crate::model::collisions_model(m0, evs.take(i as int)),
            effects_view(effects@) == ev0 + collision_effects(
                m0.score,
                m0.high_score,
                evs.take(i as int),
            ),
            player_lab@ == crate::text::player_label(),
        decreases events@.len() - i,
    {
        let ev: &CollisionEvent = &events[i];
        let ghost e = evs[i as int];
        let ghost pe = effects_view(effects@);
        proof {
            assert(e == events@[i as int]@);
            assert(evs.take(i + 1) =~= evs.take(i as int).push(e));
            crate::model::lemma_n_scoring_push(evs.take(i as int), e);
            assert(evs =~= evs.take(i + 1) + evs.skip(i + 1));
            crate::model::lemma_n_scoring_add(evs.take(i + 1), evs.skip(i + 1));
            crate::model::lemma_collision_effects_push(
                m0.score,
                m0.high_score,
                evs.take(i as int),
                e,
            );
        }
        let a_is_player = bytes_eq(&ev.a, &player_lab);
        let b_is_player = bytes_eq(&ev.b, &player_lab);
        if ev.begin && (a_is_player || b_is_player) {
            proof {
                assert(event_scores(e));
                crate::model::lemma_survivors_event_step(m0.zebras, evs.take(i as int), e);
            }
            if !a_is_player {
                remove_zebras_matching(&mut world.zebras, &ev.a);
                effects.push(Effect::RemoveSprite { label: copy_bytes(&ev.a) });
            }
            if !b_is_player {
                remove_zebras_matching(&mut world.zebras, &ev.b);
                effects.push(Effect::RemoveSprite { label: copy_bytes(&ev.b) });
            }
            proof {
                assert(nat_view(world.zebras@) == m0.zebras.filter(survives(evs.take(i + 1))));
            }
            state.score = state.score + 1;
            world.score_text_value = score_text_bytes(state.score);
            effects.push(Effect::SetScoreText { value: score_text_bytes(state.score) });
            if state.score > state.high_score {
                state.high_score = state.score;
                world.high_score_text_value = high_score_text_bytes(state.high_score);
                effects.push(
                    Effect::SetHighScoreText { value: high_score_text_bytes(state.high_score) },
                );
            }
            effects.push(Effect::PlaySfx);
            effects.push(Effect::Log { line: score_log_line_bytes(state.score) });
            proof {
                assert(model_of(*state, *world) =~= crate::model::collisions_model(
                    m0,
                    evs.take(i + 1),
                ));
                let sr = m0.score + n_scoring(evs.take(i as int));
                let hr = if sr > m0.high_score {
                    sr
                } else {
                    m0.high_score
                };
                assert(effects_view(effects@) =~= pe + crate::model::event_effects(
                    (sr + 1) as nat,
                    hr,
                    e,
                ));
                assert(effects_view(effects@) =~= ev0 + collision_effects(
                    m0.score,
                    m0.high_score,
                    evs.take(i + 1),
                ));
            }
        } else {
            proof {
                assert(!event_scores(e));
                crate::model::lemma_survivors_skip_step(m0.zebras, evs.take(i as int), e);
                assert(model_of(*state, *world) =~= crate::model::collisions_model(
                    m0,
                    evs.take(i + 1),
                ));
                assert(effects_view(effects@) =~= ev0 + collision_effects(
                    m0.score,
                    m0.high_score,
                    evs.take(i + 1),
                ));
            }
        }
        i += 1;
    }
    proof {
        assert(evs.take(events@.len() as int) =~= evs);
    }
}

/// The movement phase: each held directional key displaces the player along
/// its axis by `MOVEMENT_SPEED` times the elapsed time, independently of the
/// other keys; positions are not clamped.
pub fn apply_movement(world: &mut World, delta_ms: u32, up: bool, down: bool, left: bool, right: bool)
    requires
        old(world).player_x + step_len(delta_ms as nat) <= i64::MAX,
        old(world).player_x - step_len(delta_ms as nat) >= i64::MIN,
        old(world).player_y + step_len(delta_ms as nat) <= i64::MAX,
        old(world).player_y - step_len(delta_ms as nat) >= i64::MIN,
    ensures
        final(world).player_x == old(world).player_x + (if right {
            step_len(delta_ms as nat)
        } else {
            0
        }) - (if left {
            step_len(delta_ms as nat)
        } else {
            0
        }),
        final(world).player_y == old(world).player_y + (if up {
            step_len(delta_ms as nat)
        } else {
            0
        }) - (if down {
            step_len(delta_ms as nat)
        } else {
            0
        }),
        final(world).zebras@ == old(world).zebras@,
        final(world).score_text_value@ == old(world).score_text_value@,
        final(world).high_score_text_value@ == old(world).high_score_text_value@,
{
    let d: i64 = (MOVEMENT_SPEED as i64) * (delta_ms as i64);
    if up {
        world.player_y = world.player_y + d;
    }
    if down {
        world.player_y = world.player_y - d;
    }
    if right {
        world.player_x = world.player_x + d;
    }
    if left {
        world.player_x = world.player_x - d;
    }
}

/// Mints the next target identifier and creates a collision-enabled target
/// of fixed scale at `(x, y)`.
fn spawn_target(state: &mut GameState, world: &mut World, x: i64, y: i64, effects: &mut Vec<Effect>)
    requires
        old(state).target_index < u64::MAX,
    ensures
        final(state).target_index == old(state).target_index + 1,
        final(state).high_score == old(state).high_score,
        final(state).score == old(state).score,
        final(state).spawn_elapsed_ms == old(state).spawn_elapsed_ms,
        final(world).player_x == old(world).player_x,
        final(world).player_y == old(world).player_y,
        final(world).score_text_value@ == old(world).score_text_value@,
        final(world).high_score_text_value@ == old(world).high_score_text_value@,
        final(world).zebras@ == old(world).zebras@.push(old(state).target_index),
        effects_view(final(effects)@) == effects_view(old(effects)@).push(
            EffectModel::AddSprite {
                label: zebra_label(old(state).target_index as nat),
                x: x as int,
                y: y as int,
                scale: TARGET_SCALE as nat,
            },
        ),
{
    let idx = state.target_index;
    let label = zebra_label_bytes(idx);
    state.target_index = idx + 1;
    world.zebras.push(idx);
    effects.push(Effect::AddSprite { label, x, y, scale: TARGET_SCALE });
    proof {
        assert(effects_view(effects@) =~= effects_view(old(effects)@).push(
            EffectModel::AddSprite {
                label: zebra_label(idx as nat),
                x: x as int,
                y: y as int,
                scale: TARGET_SCALE as nat,
            },
        ));
    }
}

/// The timer-spawn phase: advance the repeating timer by the elapsed time
/// and mint one target per fired interval, at a position drawn from the
/// spawn field. The timer re-arms itself with the remainder.
pub fn timer_spawn(state: &mut GameState, world: &mut World, delta_ms: u32, effects: &mut Vec<Effect>)
    requires
        old(state).spawn_elapsed_ms < SPAWN_INTERVAL as u64,
        old(state).target_index + timer_fires(
            old(state).spawn_elapsed_ms as nat,
            delta_ms as nat,
        ) <= u64::MAX,
    ensures
        final(state).spawn_elapsed_ms == (old(state).spawn_elapsed_ms + delta_ms as u64) as u64 % (
        SPAWN_INTERVAL as u64),
        final(state).target_index == old(state).target_index + timer_fires(
            old(state).spawn_elapsed_ms as nat,
            delta_ms as nat,
        ),
        final(state).high_score == old(state).high_score,
        final(state).score == old(state).score,
        final(world).player_x == old(world).player_x,
        final(world).player_y == old(world).player_y,
        final(world).score_text_value@ == old(world).score_text_value@,
        final(world).high_score_text_value@ == old(world).high_score_text_value@,
        nat_view(final(world).zebras@) == nat_view(old(world).zebras@) + crate::model::index_run(
            old(state).target_index as nat,
            timer_fires(old(state).spawn_elapsed_ms as nat, delta_ms as nat),
        ),
        final(effects)@.len() == old(effects)@.len() + timer_fires(
            old(state).spawn_elapsed_ms as nat,
            delta_ms as nat,
        ),
        effects_view(final(effects)@).take(old(effects)@.len() as int) == effects_view(
            old(effects)@,
        ),
        forall|j: int|
            0 <= j < timer_fires(old(state).spawn_elapsed_ms as nat, delta_ms as nat)
                ==> ((#[trigger] effects_view(final(effects)@)[old(effects)@.len() + j])
                matches EffectModel::AddSprite { label, x, y, scale } && label == zebra_label(
                (old(state).target_index + j) as nat,
            ) && -(SPAWN_X_LIMIT as int) <= x <= SPAWN_X_LIMIT as int && -(SPAWN_Y_LIMIT as int)
                <= y <= SPAWN_Y_LIMIT as int && scale == TARGET_SCALE as nat),
{
    let ghost t0 = state.target_index;
    let ghost e0 = effects@;
    let ghost f = timer_fires(state.spawn_elapsed_ms as nat, delta_ms as nat);
    let total: u64 = state.spawn_elapsed_ms + delta_ms as u64;
    let fires: u64 = total / (SPAWN_INTERVAL as u64);
    state.spawn_elapsed_ms = total % (SPAWN_INTERVAL as u64);
    assert(fires as nat == f);
    let mut j: u64 = 0;
    while j < fires
        invariant
            j <= fires,
            fires as nat == f,
            t0 + f <= u64::MAX,
            state.target_index == t0 + j,
            state.high_score == old(state).high_score,
            state.score == old(state).score,
            state.spawn_elapsed_ms == total % (SPAWN_INTERVAL as u64),
            world.player_x == old(world).player_x,
            world.player_y == old(world).player_y,
            world.score_text_value@ == old(world).score_text_value@,
            world.high_score_text_value@ == old(world).high_score_text_value@,
            nat_view(world.zebras@) == nat_view(old(world).zebras@) + crate::model::index_run(
                t0 as nat,
                j as nat,
            ),
            effects@.len() == e0.len() + j,
            effects_view(effects@).take(e0.len() as int) == effects_view(e0),
            forall|k: int|
                0 <= k < j ==> ((#[trigger] effects_view(effects@)[e0.len() + k])
                    matches EffectModel::AddSprite { label, x, y, scale } && label == zebra_label(
                    (t0 + k) as nat,
                ) && -(SPAWN_X_LIMIT as int) <= x <= SPAWN_X_LIMIT as int && -(SPAWN_Y_LIMIT as int)
                    <= y <= SPAWN_Y_LIMIT as int && scale == TARGET_SCALE as nat),
        decreases fires - j,
    {
        let x = random_in_range(-SPAWN_X_LIMIT, SPAWN_X_LIMIT);
        let y = random_in_range(-SPAWN_Y_LIMIT, SPAWN_Y_LIMIT);
        let ghost pre = effects@;
        let ghost prez = world.zebras@;
        let ghost pret = state.target_index;
        spawn_target(state, world, x, y, effects);
        proof {
            assert(effects_view(effects@).len() == effects_view(pre).len() + 1);
            assert(nat_view(world.zebras@) =~= nat_view(prez).push(pret as nat));
            assert(crate::model::index_run(t0 as nat, (j + 1) as nat) =~= crate::model::index_run(
                t0 as nat,
                j as nat,
            ).push((t0 + j) as nat));
            assert(nat_view(world.zebras@) =~= nat_view(old(world).zebras@)
                + crate::model::index_run(t0 as nat, (j + 1) as nat));
            assert(effects_view(effects@).take(e0.len() as int) =~= effects_view(pre).take(
                e0.len() as int,
            ));
            assert forall|k: int|
                0 <= k < j + 1 implies ((#[trigger] effects_view(effects@)[e0.len() + k])
                    matches EffectModel::AddSprite { label, x, y, scale } && label == zebra_label(
                    (t0 + k) as nat,
                ) && -(SPAWN_X_LIMIT as int) <= x <= SPAWN_X_LIMIT as int && -(SPAWN_Y_LIMIT as int)
                    <= y <= SPAWN_Y_LIMIT as int && scale == TARGET_SCALE as nat) by {
                if k < j {
                    assert(effects_view(effects@)[e0.len() + k] == effects_view(pre)[e0.len() + k]);
                } else {
                    assert(effects_view(effects@)[e0.len() + k] == effects_view(effects@).last());
                }
            }
        }
        j += 1;
    }
}

/// The manual-reset phase: on a fresh press of the reset key the score
/// drops to zero and the score display is re-rendered; the high score and
/// its display are left untouched by design.
pub fn manual_reset(state: &mut GameState, world: &mut World, reset: bool, effects: &mut Vec<Effect>)
    ensures
        final(state).high_score == old(state).high_score,
        final(state).target_index == old(state).target_index,
        final(state).spawn_elapsed_ms == old(state).spawn_elapsed_ms,
        final(state).score == if reset {
            0u32
        } else {
            old(state).score
        },
        final(world).player_x == old(world).player_x,
        final(world).player_y == old(world).player_y,
        final(world).zebras@ == old(world).zebras@,
        final(world).high_score_text_value@ == old(world).high_score_text_value@,
        final(world).score_text_value@ == if reset {
            score_text(0)
        } else {
            old(world).score_text_value@
        },
        effects_view(final(effects)@) == if reset {
            effects_view(old(effects)@).push(EffectModel::SetScoreText { value: score_text(0) })
        } else {
            effects_view(old(effects)@)
        },
{
    if reset {
        state.score = 0;
        world.score_text_value = score_text_bytes(0);
        effects.push(Effect::SetScoreText { value: score_text_bytes(0) });
        proof {
            assert(effects_view(effects@) =~= effects_view(old(effects)@).push(
                EffectModel::SetScoreText { value: score_text(0) },
            ));
        }
    }
}


/// One tick of the frame update controller: collision resolution, player
/// movement, click spawn, timer spawn and manual reset, in that order.
/// The state and world change exactly as [`tick_model`] says, and the
/// returned effects are the engine operations and side effects for the host
/// to perform, in order, as [`tick_effects_ok`] describes.
pub fn tick(state: &mut GameState, world: &mut World, input: &FrameInput) -> (effects: Vec<Effect>)
    requires
        model_wf(model_of(*old(state), *old(world))),
        old(state).score + n_scoring(events_view(input.events@)) <= u32::MAX,
        old(state).target_index + (if click_fires(input@) {
            1int
        } else {
            0int
        }) + timer_fires(old(state).spawn_elapsed_ms as nat, input.delta_ms as nat) <= u64::MAX,
        old(world).player_x + step_len(input.delta_ms as nat) <= i64::MAX,
        old(world).player_x - step_len(input.delta_ms as nat) >= i64::MIN,
        old(world).player_y + step_len(input.delta_ms as nat) <= i64::MAX,
        old(world).player_y - step_len(input.delta_ms as nat) >= i64::MIN,
    ensures
        model_of(*final(state), *final(world)) == tick_model(
            model_of(*old(state), *old(world)),
            input@,
        ),
        model_wf(model_of(*final(state), *final(world))),
        tick_effects_ok(model_of(*old(state), *old(world)), input@, effects_view(effects@)),
{
    let ghost m0 = model_of(*old(state), *old(world));
    let ghost im = input@;
    let ghost ce = collision_effects(m0.score, m0.high_score, im.events);
    let mut effects: Vec<Effect> = Vec::new();
    proof {
        assert(effects_view(effects@) =~= effects_view(Seq::<Effect>::empty()));
        assert(effects_view(Seq::<Effect>::empty()) =~= Seq::<EffectModel>::empty());
    }
    process_collisions(state, world, &input.events, &mut effects);
    let ghost m1 = crate::model::collisions_model(m0, im.events);
    proof {
        assert(model_of(*state, *world) == m1);
        assert(effects_view(effects@) =~= ce);
        assert(effects@.len() == ce.len()) by {
            assert(effects_view(effects@).len() == effects@.len());
        }
    }
    apply_movement(world, input.delta_ms, input.up, input.down, input.left, input.right);
    let ghost m2 = crate::model::movement_model(m1, im);
    proof {
        assert(model_of(*state, *world) =~= m2);
    }
    let ghost pre_click = effects@;
    if input.click_just_pressed {
        if let Some(p) = input.cursor {
            spawn_target(state, world, p.0, p.1, &mut effects);
            proof {
                assert(crate::model::cursor_x(im) == p.0 as int);
                assert(crate::model::cursor_y(im) == p.1 as int);
                assert(nat_view(world.zebras@) =~= m2.zebras.push(m2.target_index));
            }
        }
    }
    let ghost m3 = crate::model::click_model(m2, im);
    let ghost clicks: nat = if click_fires(im) {
        1nat
    } else {
        0nat
    };
    proof {
        assert(click_fires(im) == (input.click_just_pressed && input.cursor is Some));
        assert(model_of(*state, *world) =~= m3);
        if click_fires(im) {
            assert(effects_view(effects@) == ce.push(
                EffectModel::AddSprite {
                    label: zebra_label(m0.target_index),
                    x: crate::model::cursor_x(im),
                    y: crate::model::cursor_y(im),
                    scale: TARGET_SCALE as nat,
                },
            ));
        } else {
            assert(effects_view(effects@) == ce);
        }
        assert(effects@.len() == ce.len() + clicks) by {
            assert(effects_view(effects@).len() == effects@.len());
        }
    }
    let ghost pre_timer = effects@;
    let ghost f = timer_fires(m0.spawn_elapsed, im.delta);
    timer_spawn(state, world, input.delta_ms, &mut effects);
    let ghost m4 = crate::model::timer_model(m3, im);
    proof {
        assert(model_of(*state, *world) =~= m4);
        assert(effects@.len() == ce.len() + clicks + f);
        assert(effects_view(effects@).take((ce.len() + clicks) as int) == effects_view(pre_timer));
    }
    let ghost pre_reset = effects@;
    manual_reset(state, world, input.reset_just_pressed, &mut effects);
    let ghost m5 = crate::model::reset_model(m4, im);
    proof {
        assert(model_of(*state, *world) =~= m5);
        assert(m5 == tick_model(m0, im));
        crate::model::lemma_tick_model_wf(m0, im);
        let effs = effects_view(effects@);
        assert(effs.len() == ce.len() + clicks + f + (if im.reset {
            1int
        } else {
            0int
        })) by {
            assert(effects_view(pre_reset).len() == pre_reset.len());
            assert(effs.len() == effects@.len());
        }
        assert forall|k: int| 0 <= k < pre_reset.len() implies effs[k] == effects_view(pre_reset)[k]
            by {
            if im.reset {
                assert(effs == effects_view(pre_reset).push(
                    EffectModel::SetScoreText { value: score_text(0) },
                ));
            }
        }
        assert(effs.take(ce.len() as int) =~= ce) by {
            assert forall|k: int| 0 <= k < ce.len() implies effs[k] == ce[k] by {
                assert(effs[k] == effects_view(pre_reset)[k]);
                assert(effects_view(pre_reset)[k] == effects_view(pre_timer).take(
                    (ce.len() + clicks) as int,
                )[k]);
                assert(effects_view(pre_timer)[k] == ce[k]);
            }
        }
        if click_fires(im) {
            assert(effs[ce.len() as int] == EffectModel::AddSprite {
                label: zebra_label(m0.target_index),
                x: crate::model::cursor_x(im),
                y: crate::model::cursor_y(im),
                scale: TARGET_SCALE as nat,
            }) by {
                assert(effs[ce.len() as int] == effects_view(pre_reset)[ce.len() as int]);
                assert(effects_view(pre_reset)[ce.len() as int] == effects_view(pre_timer).take(
                    (ce.len() + clicks) as int,
                )[ce.len() as int]);
            }
        }
        assert forall|j: int|
            0 <= j < f implies ((#[trigger] effs[ce.len() + clicks + j])
                matches EffectModel::AddSprite { label, x, y, scale } && label == zebra_label(
                (m0.target_index + clicks + j) as nat,
            ) && -(SPAWN_X_LIMIT as int) <= x <= SPAWN_X_LIMIT as int && -(SPAWN_Y_LIMIT as int)
                <= y <= SPAWN_Y_LIMIT as int && scale == TARGET_SCALE as nat) by {
            assert(effs[ce.len() + clicks + j] == effects_view(pre_reset)[ce.len() + clicks + j]);
            assert(m3.target_index == m0.target_index + clicks);
        }
        if im.reset {
            assert(effs.last() == EffectModel::SetScoreText { value: score_text(0) });
        }
        assert(tick_effects_ok(m0, im, effs));
    }
    effects
}

} // verus!
