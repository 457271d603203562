//! The mathematical model of one frame.
//!
//! A tick is described as a pure function on a ghost [`Model`]: collision
//! scoring, player movement, click spawning, timer spawning and the manual
//! reset, applied in that order. The executable controller in [`crate::game`]
//! is proved to follow [`tick_model`] exactly; the laws in [`crate::laws`]
//! are proved of [`tick_model`] alone.

use vstd::prelude::*;

use crate::text::{
    high_score_text, initial_high_score_text, player_label, score_text, zebra_label,
};

verus! {

/// Distance covered per time unit by a held directional key, in distance
/// units per time unit. Equivalently: milli-distance-units per
/// milli-time-unit, so a tick of `delta` milli-time-units moves the player
/// `MOVEMENT_SPEED * delta` milli-distance-units per pressed axis.
pub const MOVEMENT_SPEED: u32 = 200;

/// The repeating spawn timer's interval, in milli-time-units.
pub const SPAWN_INTERVAL: u32 = 1000;

/// Timer-spawned targets draw their x coordinate from
/// `[-SPAWN_X_LIMIT, SPAWN_X_LIMIT]` milli-distance-units.
pub const SPAWN_X_LIMIT: i64 = 550_000;

/// Timer-spawned targets draw their y coordinate from
/// `[-SPAWN_Y_LIMIT, SPAWN_Y_LIMIT]` milli-distance-units.
pub const SPAWN_Y_LIMIT: i64 = 325_000;

/// The fixed visual scale of a spawned target, in milli-units.
pub const TARGET_SCALE: u32 = 100;

/// One frame of game state, as the specification sees it.
#[verifier::ext_equal]
pub struct Model {
    /// Best score reached so far in this run.
    pub high_score: nat,
    /// Current run score.
    pub score: nat,
    /// Counter minting unique target identifiers; never reused.
    pub target_index: nat,
    /// Time accumulated toward the next timer spawn, in milli-time-units.
    pub spawn_elapsed: nat,
    /// Player position, in milli-distance-units.
    pub player_x: int,
    /// Player position, in milli-distance-units.
    pub player_y: int,
    /// Counter values of the live transient targets, in creation order.
    pub zebras: Seq<nat>,
    /// Bytes of the score display text.
    pub score_text_value: Seq<u8>,
    /// Bytes of the high-score display text.
    pub high_score_text_value: Seq<u8>,
}

/// One collision event reported by the host's physics step.
#[verifier::ext_equal]
pub struct EventModel {
    /// Identifier of one participant.
    pub a: Seq<u8>,
    /// Identifier of the other participant.
    pub b: Seq<u8>,
    /// Whether this is a collision-begin event (as opposed to an end event).
    pub begin: bool,
}

/// One frame of host input, as the specification sees it.
#[verifier::ext_equal]
pub struct InputModel {
    /// Time since the previous tick, in milli-time-units.
    pub delta: nat,
    /// This frame's collision events, in arrival order.
    pub events: Seq<EventModel>,
    /// Whether the Up key is held.
    pub up: bool,
    /// Whether the Down key is held.
    pub down: bool,
    /// Whether the Left key is held.
    pub left: bool,
    /// Whether the Right key is held.
    pub right: bool,
    /// Whether the reset key was freshly pressed this frame.
    pub reset: bool,
    /// Whether the left mouse button was freshly pressed this frame.
    pub click: bool,
    /// The cursor position in milli-distance-units, if resolvable.
    pub cursor: Option<(int, int)>,
}

/// The cursor's x coordinate, read only when the cursor is resolvable.
pub open spec fn cursor_x(i: InputModel) -> int {
    match i.cursor {
        Some(p) => p.0,
        None => 0,
    }
}

/// The cursor's y coordinate, read only when the cursor is resolvable.
pub open spec fn cursor_y(i: InputModel) -> int {
    match i.cursor {
        Some(p) => p.1,
        None => 0,
    }
}

/// Whether an event scores: a collision-begin event with the player on one
/// side.
pub open spec fn event_scores(e: EventModel) -> bool {
    e.begin && (e.a == player_label() || e.b == player_label())
}

/// How many events of `events` score.
pub open spec fn n_scoring(events: Seq<EventModel>) -> nat
    decreases events.len(),
{
    if events.len() == 0 {
        0
    } else {
        n_scoring(events.drop_last()) + if event_scores(events.last()) {
            1nat
        } else {
            0nat
        }
    }
}

/// Whether scoring event `e` removes the target with counter value `z`:
/// the target's identifier stands on either side of the pair.
pub open spec fn event_removes(e: EventModel, z: nat) -> bool {
    event_scores(e) && (e.a == zebra_label(z) || e.b == zebra_label(z))
}

/// Whether some event of `events` removes the target with counter value `z`.
pub open spec fn removed_by(events: Seq<EventModel>, z: nat) -> bool
    decreases events.len(),
{
    if events.len() == 0 {
        false
    } else {
        removed_by(events.drop_last(), z) || event_removes(events.last(), z)
    }
}

/// The predicate a live target must meet to survive `events`.
pub open spec fn survives(events: Seq<EventModel>) -> spec_fn(nat) -> bool {
    |z: nat| !removed_by(events, z)
}

/// The predicate a live target must meet to survive the removal of the
/// single identifier `l`.
pub open spec fn keeps_label(l: Seq<u8>) -> spec_fn(nat) -> bool {
    |z: nat| zebra_label(z) != l
}

/// The collision-resolution phase: one point per scoring event, targets
/// named by a scoring event removed, displays re-rendered, high score
/// raised when beaten.
pub open spec fn collisions_model(m: Model, events: Seq<EventModel>) -> Model {
    let n = n_scoring(events);
    let s1 = m.score + n;
    Model {
        high_score: if s1 > m.high_score {
            s1
        } else {
            m.high_score
        },
        score: s1,
        target_index: m.target_index,
        spawn_elapsed: m.spawn_elapsed,
        player_x: m.player_x,
        player_y: m.player_y,
        zebras: m.zebras.filter(survives(events)),
        score_text_value: if n > 0 {
            score_text(s1)
        } else {
            m.score_text_value
        },
        high_score_text_value: if s1 > m.high_score {
            high_score_text(s1)
        } else {
            m.high_score_text_value
        },
    }
}

/// Displacement of one held directional key over a tick of `delta`
/// milli-time-units, in milli-distance-units.
pub open spec fn step_len(delta: nat) -> int {
    (MOVEMENT_SPEED as int) * (delta as int)
}

/// The movement phase: each held directional key displaces the player along
/// its axis, independently, with no clamping.
pub open spec fn movement_model(m: Model, i: InputModel) -> Model {
    Model {
        player_x: m.player_x + (if i.right {
            step_len(i.delta)
        } else {
            0
        }) - (if i.left {
            step_len(i.delta)
        } else {
            0
        }),
        player_y: m.player_y + (if i.up {
            step_len(i.delta)
        } else {
            0
        }) - (if i.down {
            step_len(i.delta)
        } else {
            0
        }),
        ..m
    }
}

/// Whether the click-spawn phase fires: a fresh press with a resolvable
/// cursor position.
pub open spec fn click_fires(i: InputModel) -> bool {
    i.click && i.cursor is Some
}

/// The click-spawn phase: mint one target at the cursor.
pub open spec fn click_model(m: Model, i: InputModel) -> Model {
    if click_fires(i) {
        Model {
            target_index: m.target_index + 1,
            zebras: m.zebras.push(m.target_index),
            ..m
        }
    } else {
        m
    }
}

/// How many timer spawns a tick of `delta` fires when `spawn_elapsed` was
/// already accumulated: one per full interval.
pub open spec fn timer_fires(spawn_elapsed: nat, delta: nat) -> nat {
    (spawn_elapsed + delta) / (SPAWN_INTERVAL as nat)
}

/// The counter values `start, start + 1, ..., start + n - 1`.
pub open spec fn index_run(start: nat, n: nat) -> Seq<nat> {
    Seq::new(n, |j: int| (start + j) as nat)
}

/// The timer-spawn phase: advance the repeating timer and mint one target
/// per fired interval. Spawn positions are random and therefore not part of
/// the model.
pub open spec fn timer_model(m: Model, i: InputModel) -> Model {
    let f = timer_fires(m.spawn_elapsed, i.delta);
    Model {
        spawn_elapsed: (m.spawn_elapsed + i.delta) % (SPAWN_INTERVAL as nat),
        target_index: m.target_index + f,
        zebras: m.zebras + index_run(m.target_index, f),
        ..m
    }
}

/// The manual-reset phase: on a fresh press of the reset key the score drops
/// to zero and the score display is re-rendered; the high score and its
/// display are left untouched by design.
pub open spec fn reset_model(m: Model, i: InputModel) -> Model {
    if i.reset {
        Model { score: 0, score_text_value: score_text(0), ..m }
    } else {
        m
    }
}

/// One full tick: collisions, movement, click spawn, timer spawn, manual
/// reset, in that order.
pub open spec fn tick_model(m: Model, i: InputModel) -> Model {
    reset_model(timer_model(click_model(movement_model(collisions_model(m, i.events), i), i), i), i)
}

/// One engine operation or side effect the controller asks of the host, as
/// the specification sees it.
#[verifier::ext_equal]
pub enum EffectModel {
    /// Remove the entity with this identifier; a no-op if it is absent.
    RemoveSprite { label: Seq<u8> },
    /// Create a collision-enabled entity at this position, in
    /// milli-distance-units, with this visual scale in milli-units.
    AddSprite { label: Seq<u8>, x: int, y: int, scale: nat },
    /// Re-render the score display with these bytes.
    SetScoreText { value: Seq<u8> },
    /// Re-render the high-score display with these bytes.
    SetHighScoreText { value: Seq<u8> },
    /// Trigger the one-shot scoring sound effect.
    PlaySfx,
    /// Write one diagnostic log line.
    Log { line: Seq<u8> },
}

/// The effects one scoring event emits, in order: removals of the
/// non-player participants, the re-rendered score display, the re-rendered
/// high-score display when the best was beaten, the sound effect, and the
/// log line. `score_after` is the score right after this event;
/// `high_before` the best right before it.
pub open spec fn event_effects(score_after: nat, high_before: nat, e: EventModel) -> Seq<
    EffectModel,
> {
    (if e.a != player_label() {
        seq![EffectModel::RemoveSprite { label: e.a }]
    } else {
        Seq::empty()
    }) + (if e.b != player_label() {
        seq![EffectModel::RemoveSprite { label: e.b }]
    } else {
        Seq::empty()
    }) + seq![EffectModel::SetScoreText { value: score_text(score_after) }] + (if score_after
        > high_before {
        seq![EffectModel::SetHighScoreText { value: high_score_text(score_after) }]
    } else {
        Seq::empty()
    }) + seq![
        EffectModel::PlaySfx,
        EffectModel::Log { line: crate::text::score_log_line(score_after) },
    ]
}

/// The effects of draining `events` in arrival order, starting from a score
/// of `score0` and a best of `high0`: non-scoring events emit nothing.
pub open spec fn collision_effects(score0: nat, high0: nat, events: Seq<EventModel>) -> Seq<
    EffectModel,
>
    decreases events.len(),
{
    if events.len() == 0 {
        Seq::empty()
    } else {
        let rest = events.drop_last();
        let sr = score0 + n_scoring(rest);
        collision_effects(score0, high0, rest) + if event_scores(events.last()) {
            event_effects(
                sr + 1,
                if sr > high0 {
                    sr
                } else {
                    high0
                },
                events.last(),
            )
        } else {
            Seq::empty()
        }
    }
}

/// Unfolding [`collision_effects`] at the back.
pub proof fn lemma_collision_effects_push(
    score0: nat,
    high0: nat,
    events: Seq<EventModel>,
    e: EventModel,
)
    ensures
        collision_effects(score0, high0, events.push(e)) == collision_effects(
            score0,
            high0,
            events,
        ) + if event_scores(e) {
            event_effects(
                score0 + n_scoring(events) + 1,
                if score0 + n_scoring(events) > high0 {
                    score0 + n_scoring(events)
                } else {
                    high0
                },
                e,
            )
        } else {
            Seq::<EffectModel>::empty()
        },
{
    assert(events.push(e).drop_last() =~= events);
    assert(events.push(e).last() == e);
}

/// What a tick's emitted effect sequence must look like, given the model
/// `m` it started from and the input `i` it was handed: the collision
/// effects, then one spawn per click and fired interval with strictly
/// increasing identifiers (timer-spawn positions lie within the spawn
/// field), then the reset's re-rendered score display.
pub open spec fn tick_effects_ok(m: Model, i: InputModel, effs: Seq<EffectModel>) -> bool {
    let ce = collision_effects(m.score, m.high_score, i.events);
    let clicks: nat = if click_fires(i) {
        1nat
    } else {
        0nat
    };
    let f = timer_fires(m.spawn_elapsed, i.delta);
    &&& effs.len() == ce.len() + clicks + f + (if i.reset {
        1int
    } else {
        0int
    })
    &&& effs.take(ce.len() as int) == ce
    &&& (click_fires(i) ==> effs[ce.len() as int] == EffectModel::AddSprite {
        label: zebra_label(m.target_index),
        x: cursor_x(i),
        y: cursor_y(i),
        scale: TARGET_SCALE as nat,
    })
    &&& forall|j: int|
        0 <= j < f ==> ((#[trigger] effs[ce.len() + clicks + j]) matches EffectModel::AddSprite {
            label,
            x,
            y,
            scale,
        } && label == zebra_label((m.target_index + clicks + j) as nat) && -(SPAWN_X_LIMIT as int)
            <= x <= SPAWN_X_LIMIT as int && -(SPAWN_Y_LIMIT as int) <= y <= SPAWN_Y_LIMIT as int
            && scale == TARGET_SCALE as nat)
    &&& (i.reset ==> effs.last() == EffectModel::SetScoreText { value: score_text(0) })
}

/// Whether `s` is strictly increasing.
pub open spec fn sorted_strict(s: Seq<nat>) -> bool {
    forall|j: int, k: int| 0 <= j < k < s.len() ==> s[j] < s[k]
}

/// Well-formedness of a model: the timer holds less than one full interval,
/// the score never exceeds the best, live targets are listed in strictly
/// increasing creation order below the minting counter, and both display
/// texts render their counters (the high-score display still shows the
/// host's start-up text, with its differing capital `Score`, until a best is
/// first recorded).
pub open spec fn model_wf(m: Model) -> bool {
    &&& m.spawn_elapsed < SPAWN_INTERVAL as nat
    &&& m.score <= m.high_score
    &&& sorted_strict(m.zebras)
    &&& forall|j: int| 0 <= j < m.zebras.len() ==> m.zebras[j] < m.target_index
    &&& m.score_text_value == score_text(m.score)
    &&& m.high_score_text_value == if m.high_score == 0 {
        initial_high_score_text()
    } else {
        high_score_text(m.high_score)
    }
}

/// Filtering keeps only elements of the sequence it started from.
pub proof fn lemma_filter_elements<A>(s: Seq<A>, p: spec_fn(A) -> bool)
    ensures
        forall|j: int| 0 <= j < s.filter(p).len() ==> s.contains(#[trigger] s.filter(p)[j]),
    decreases s.len(),
{
    reveal(Seq::filter);
    if s.len() != 0 {
        let d = s.drop_last();
        lemma_filter_elements(d, p);
        assert forall|j: int| 0 <= j < s.filter(p).len() implies s.contains(s.filter(p)[j]) by {
            if j < d.filter(p).len() {
                let x = d.filter(p)[j];
                let k = choose|k: int| 0 <= k < d.len() && d[k] == x;
                assert(s[k] == x);
            } else {
                assert(s.filter(p)[j] == s.last());
                assert(s[s.len() - 1] == s.last());
            }
        }
    }
}

/// Two predicates that agree on the elements of `s` filter `s` identically.
pub proof fn lemma_filter_agree<A>(s: Seq<A>, p: spec_fn(A) -> bool, q: spec_fn(A) -> bool)
    requires
        forall|x: A| s.contains(x) ==> p(x) == q(x),
    ensures
        s.filter(p) == s.filter(q),
    decreases s.len(),
{
    reveal(Seq::filter);
    if s.len() != 0 {
        let d = s.drop_last();
        assert forall|x: A| d.contains(x) implies p(x) == q(x) by {
            let k = choose|k: int| 0 <= k < d.len() && d[k] == x;
            assert(s[k] == x);
            assert(s.contains(x));
        }
        lemma_filter_agree(d, p, q);
        assert(s[s.len() - 1] == s.last());
        assert(s.contains(s.last()));
    }
}

/// Filtering by `p` and then by `q` filters by their conjunction.
pub proof fn lemma_filter_compose<A>(s: Seq<A>, p: spec_fn(A) -> bool, q: spec_fn(A) -> bool)
    ensures
        s.filter(p).filter(q) == s.filter(|x: A| p(x) && q(x)),
    decreases s.len(),
{
    reveal(Seq::filter);
    if s.len() == 0 {
        assert(s.filter(p).filter(q) =~= s.filter(|x: A| p(x) && q(x)));
    } else {
        let d = s.drop_last();
        lemma_filter_compose(d, p, q);
        if p(s.last()) {
            let f = d.filter(p).push(s.last());
            assert(s.filter(p) == f);
            assert(f.drop_last() =~= d.filter(p));
            assert(f.last() == s.last());
        }
    }
}

/// Filtering a sequence extended by one element.
pub proof fn lemma_filter_push<A>(s: Seq<A>, p: spec_fn(A) -> bool, x: A)
    ensures
        s.push(x).filter(p) == if p(x) {
            s.filter(p).push(x)
        } else {
            s.filter(p)
        },
{
    reveal(Seq::filter);
    assert(s.push(x).drop_last() =~= s);
    assert(s.push(x).last() == x);
}

/// A predicate that holds on every element filters nothing out.
pub proof fn lemma_filter_all<A>(s: Seq<A>, p: spec_fn(A) -> bool)
    requires
        forall|x: A| s.contains(x) ==> p(x),
    ensures
        s.filter(p) == s,
    decreases s.len(),
{
    reveal(Seq::filter);
    if s.len() == 0 {
        assert(s.filter(p) =~= s);
    } else {
        let d = s.drop_last();
        assert forall|x: A| d.contains(x) implies p(x) by {
            let k = choose|k: int| 0 <= k < d.len() && d[k] == x;
            assert(s[k] == x);
            assert(s.contains(x));
        }
        lemma_filter_all(d, p);
        assert(s[s.len() - 1] == s.last());
        assert(s.contains(s.last()));
        assert(d.filter(p).push(s.last()) =~= s);
    }
}

/// Filtering preserves strictly increasing order.
pub proof fn lemma_filter_sorted(s: Seq<nat>, p: spec_fn(nat) -> bool)
    requires
        sorted_strict(s),
    ensures
        sorted_strict(s.filter(p)),
    decreases s.len(),
{
    reveal(Seq::filter);
    if s.len() != 0 {
        let d = s.drop_last();
        assert(sorted_strict(d)) by {
            assert forall|j: int, k: int| 0 <= j < k < d.len() implies d[j] < d[k] by {
                assert(s[j] < s[k]);
            }
        }
        lemma_filter_sorted(d, p);
        lemma_filter_elements(d, p);
        if p(s.last()) {
            let f = d.filter(p).push(s.last());
            assert forall|j: int, k: int| 0 <= j < k < f.len() implies f[j] < f[k] by {
                if k < f.len() - 1 {
                    assert(d.filter(p)[j] < d.filter(p)[k]);
                } else {
                    let x = d.filter(p)[j];
                    let m = choose|m: int| 0 <= m < d.len() && d[m] == x;
                    assert(s[m] == x);
                    assert(s[m] < s[s.len() - 1]);
                }
            }
        }
    }
}

/// Extending `events` by one event extends what it removes by what that
/// event removes.
pub proof fn lemma_removed_by_push(events: Seq<EventModel>, e: EventModel, z: nat)
    ensures
        removed_by(events.push(e), z) == (removed_by(events, z) || event_removes(e, z)),
{
    assert(events.push(e).drop_last() =~= events);
    assert(events.push(e).last() == e);
}

/// Extending `events` by one event raises the scoring count by whether that
/// event scores.
pub proof fn lemma_n_scoring_push(events: Seq<EventModel>, e: EventModel)
    ensures
        n_scoring(events.push(e)) == n_scoring(events) + if event_scores(e) {
            1nat
        } else {
            0nat
        },
{
    assert(events.push(e).drop_last() =~= events);
    assert(events.push(e).last() == e);
}

/// The scoring count of a concatenation splits.
pub proof fn lemma_n_scoring_add(a: Seq<EventModel>, b: Seq<EventModel>)
    ensures
        n_scoring(a + b) == n_scoring(a) + n_scoring(b),
    decreases b.len(),
{
    if b.len() == 0 {
        assert(a + b =~= a);
    } else {
        lemma_n_scoring_add(a, b.drop_last());
        assert((a + b).drop_last() =~= a + b.drop_last());
        assert((a + b).last() == b.last());
    }
}

/// The live targets surviving `events` and then one more scoring event are
/// those surviving the extended sequence; removing the player identifier
/// from the targets removes nothing.
pub proof fn lemma_survivors_event_step(zs: Seq<nat>, events: Seq<EventModel>, e: EventModel)
    requires
        event_scores(e),
    ensures
        e.a != player_label() && e.b != player_label() ==> zs.filter(survives(events)).filter(
            keeps_label(e.a),
        ).filter(keeps_label(e.b)) == zs.filter(survives(events.push(e))),
        e.a == player_label() && e.b != player_label() ==> zs.filter(survives(events)).filter(
            keeps_label(e.b),
        ) == zs.filter(survives(events.push(e))),
        e.a != player_label() && e.b == player_label() ==> zs.filter(survives(events)).filter(
            keeps_label(e.a),
        ) == zs.filter(survives(events.push(e))),
        e.a == player_label() && e.b == player_label() ==> zs.filter(survives(events)) == zs.filter(
            survives(events.push(e)),
        ),
{
    assert forall|z: nat|
        survives(events.push(e))(z) == (survives(events)(z) && !event_removes(e, z)) by {
        lemma_removed_by_push(events, e, z);
    }
    if e.a != player_label() && e.b != player_label() {
        lemma_filter_compose(zs, survives(events), keeps_label(e.a));
        let c1 = |z: nat| survives(events)(z) && keeps_label(e.a)(z);
        lemma_filter_compose(zs, c1, keeps_label(e.b));
        let c2 = |z: nat| c1(z) && keeps_label(e.b)(z);
        assert forall|z: nat| zs.contains(z) implies c2(z) == survives(events.push(e))(z) by {
            lemma_removed_by_push(events, e, z);
        }
        lemma_filter_agree(zs, c2, survives(events.push(e)));
    } else if e.a == player_label() && e.b != player_label() {
        lemma_filter_compose(zs, survives(events), keeps_label(e.b));
        let c1 = |z: nat| survives(events)(z) && keeps_label(e.b)(z);
        assert forall|z: nat| zs.contains(z) implies c1(z) == survives(events.push(e))(z) by {
            lemma_removed_by_push(events, e, z);
            crate::text::lemma_zebra_label_not_player(z);
        }
        lemma_filter_agree(zs, c1, survives(events.push(e)));
    } else if e.a != player_label() && e.b == player_label() {
        lemma_filter_compose(zs, survives(events), keeps_label(e.a));
        let c1 = |z: nat| survives(events)(z) && keeps_label(e.a)(z);
        assert forall|z: nat| zs.contains(z) implies c1(z) == survives(events.push(e))(z) by {
            lemma_removed_by_push(events, e, z);
            crate::text::lemma_zebra_label_not_player(z);
        }
        lemma_filter_agree(zs, c1, survives(events.push(e)));
    } else {
        assert forall|z: nat| zs.contains(z) implies survives(events)(z) == survives(
            events.push(e),
        )(z) by {
            lemma_removed_by_push(events, e, z);
            crate::text::lemma_zebra_label_not_player(z);
        }
        lemma_filter_agree(zs, survives(events), survives(events.push(e)));
    }
}

/// A non-scoring event removes nothing.
pub proof fn lemma_survivors_skip_step(zs: Seq<nat>, events: Seq<EventModel>, e: EventModel)
    requires
        !event_scores(e),
    ensures
        zs.filter(survives(events)) == zs.filter(survives(events.push(e))),
{
    assert forall|z: nat| zs.contains(z) implies survives(events)(z) == survives(events.push(e))(
        z,
    ) by {
        lemma_removed_by_push(events, e, z);
    }
    lemma_filter_agree(zs, survives(events), survives(events.push(e)));
}

/// The model a fresh run starts from: both counters zero, the timer empty,
/// the player at the origin, no live targets, and the host's start-up
/// display texts.
pub open spec fn initial_model() -> Model {
    Model {
        high_score: 0,
        score: 0,
        target_index: 0,
        spawn_elapsed: 0,
        player_x: 0,
        player_y: 0,
        zebras: Seq::empty(),
        score_text_value: score_text(0),
        high_score_text_value: initial_high_score_text(),
    }
}

/// A well-formed model stays well-formed across a tick.
pub proof fn lemma_tick_model_wf(m: Model, i: InputModel)
    requires
        model_wf(m),
    ensures
        model_wf(tick_model(m, i)),
{
    let m1 = collisions_model(m, i.events);
    assert(model_wf(m1)) by {
        lemma_filter_sorted(m.zebras, survives(i.events));
        lemma_filter_elements(m.zebras, survives(i.events));
        assert forall|j: int| 0 <= j < m1.zebras.len() implies m1.zebras[j] < m1.target_index by {
            let x = m1.zebras[j];
            let k = choose|k: int| 0 <= k < m.zebras.len() && m.zebras[k] == x;
        }
        if n_scoring(i.events) == 0 {
            assert(m1.score == m.score);
        }
    }
    let m2 = movement_model(m1, i);
    let m3 = click_model(m2, i);
    assert(model_wf(m3)) by {
        if click_fires(i) {
            assert forall|j: int, k: int| 0 <= j < k < m3.zebras.len() implies m3.zebras[j]
                < m3.zebras[k] by {
                if k < m3.zebras.len() - 1 {
                    assert(m2.zebras[j] < m2.zebras[k]);
                }
            }
        }
    }
    let m4 = timer_model(m3, i);
    assert(model_wf(m4)) by {
        let f = timer_fires(m3.spawn_elapsed, i.delta);
        assert(m4.spawn_elapsed < SPAWN_INTERVAL as nat) by {
            vstd::arithmetic::div_mod::lemma_mod_division_less_than_divisor(
                m3.spawn_elapsed + i.delta as int,
                SPAWN_INTERVAL as int,
            );
        }
        assert forall|j: int, k: int| 0 <= j < k < m4.zebras.len() implies m4.zebras[j]
            < m4.zebras[k] by {
            if k >= m3.zebras.len() {
                if j >= m3.zebras.len() {
                    assert(m4.zebras[j] == m3.target_index + (j - m3.zebras.len()));
                    assert(m4.zebras[k] == m3.target_index + (k - m3.zebras.len()));
                } else {
                    assert(m3.zebras[j] < m3.target_index);
                    assert(m4.zebras[k] == m3.target_index + (k - m3.zebras.len()));
                }
            }
        }
        assert forall|j: int| 0 <= j < m4.zebras.len() implies m4.zebras[j] < m4.target_index by {
            if j >= m3.zebras.len() {
                assert(m4.zebras[j] == m3.target_index + (j - m3.zebras.len()));
            } else {
                assert(m3.zebras[j] < m3.target_index);
            }
        }
    }
    assert(model_wf(reset_model(m4, i)));
}

} // verus!
