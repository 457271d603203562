//! The laws the controller obeys, stated over [`crate::model::tick_model`].
//!
//! Each proof function here is a statement about every input the model
//! admits; the executable controller inherits them through the exact
//! contract of [`crate::game::tick`].

use vstd::prelude::*;

use crate::model::{
    click_fires, collisions_model, event_removes, index_run, model_wf, n_scoring, removed_by,
    sorted_strict, survives, tick_model, timer_fires, EventModel, InputModel, Model,
    SPAWN_INTERVAL,
};
use vstd::arithmetic::div_mod::{
    lemma_basic_div, lemma_fundamental_div_mod, lemma_hoist_over_denominator,
    lemma_mod_division_less_than_divisor, lemma_mod_multiples_vanish, lemma_small_mod,
};

verus! {

/// The model after a whole run of ticks, first input first.
pub open spec fn run_model(m: Model, inputs: Seq<InputModel>) -> Model
    decreases inputs.len(),
{
    if inputs.len() == 0 {
        m
    } else {
        run_model(tick_model(m, inputs.first()), inputs.drop_first())
    }
}

/// Well-formedness is preserved across any run.
pub proof fn lemma_run_model_wf(m: Model, inputs: Seq<InputModel>)
    requires
        model_wf(m),
    ensures
        model_wf(run_model(m, inputs)),
    decreases inputs.len(),
{
    if inputs.len() != 0 {
        crate::model::lemma_tick_model_wf(m, inputs.first());
        lemma_run_model_wf(tick_model(m, inputs.first()), inputs.drop_first());
    }
}

/// Some event of `events` removes the target with counter value `z` if one
/// stands at position `k`.
proof fn lemma_removed_by_at(events: Seq<EventModel>, k: int, z: nat)
    requires
        0 <= k < events.len(),
        event_removes(events[k], z),
    ensures
        removed_by(events, z),
    decreases events.len(),
{
    if k < events.len() - 1 {
        assert(events.drop_last()[k] == events[k]);
        lemma_removed_by_at(events.drop_last(), k, z);
    }
}

/// Draining one frame's collision events adds one point per collision-begin
/// event with the player on one side, and the non-player participant of
/// each such event is absent from the live targets afterwards.
pub proof fn lemma_collision_scoring(m: Model, events: Seq<EventModel>)
    ensures
        collisions_model(m, events).score == m.score + n_scoring(events),
        forall|k: int, z: nat|
            0 <= k < events.len() && #[trigger] event_removes(events[k], z)
                ==> !collisions_model(m, events).zebras.contains(z),
{
    assert forall|k: int, z: nat|
        0 <= k < events.len() && #[trigger] event_removes(events[k], z) implies !collisions_model(
        m,
        events,
    ).zebras.contains(z) by {
        lemma_removed_by_at(events, k, z);
        let out = collisions_model(m, events).zebras;
        if out.contains(z) {
            let j = choose|j: int| 0 <= j < out.len() && out[j] == z;
            m.zebras.lemma_filter_pred(survives(events), j);
        }
    }
}

/// The larger of two naturals.
pub open spec fn nat_max(a: nat, b: nat) -> nat {
    if a > b {
        a
    } else {
        b
    }
}

/// The best score a run reaches right after a collision phase; zero if no
/// tick happens.
pub open spec fn peak_score(m: Model, inputs: Seq<InputModel>) -> nat
    decreases inputs.len(),
{
    if inputs.len() == 0 {
        0
    } else {
        nat_max(
            m.score + n_scoring(inputs.first().events),
            peak_score(tick_model(m, inputs.first()), inputs.drop_first()),
        )
    }
}

/// Across one tick the high score becomes the larger of itself and the
/// score the collision phase reached; in particular it never decreases,
/// and a manual reset leaves it untouched while the score drops to zero.
pub proof fn lemma_tick_high_score(m: Model, i: InputModel)
    ensures
        tick_model(m, i).high_score == nat_max(m.high_score, m.score + n_scoring(i.events)),
        tick_model(m, i).high_score >= m.high_score,
        i.reset ==> tick_model(m, i).score == 0,
{
}

/// Across any run the high score tracks exactly the best score any
/// collision phase reached, and never decreases — manual resets drop the
/// score but not the high score.
pub proof fn lemma_run_high_score(m: Model, inputs: Seq<InputModel>)
    ensures
        run_model(m, inputs).high_score == nat_max(m.high_score, peak_score(m, inputs)),
        run_model(m, inputs).high_score >= m.high_score,
    decreases inputs.len(),
{
    if inputs.len() != 0 {
        lemma_run_high_score(tick_model(m, inputs.first()), inputs.drop_first());
    }
}

/// How many targets one tick mints: one per fresh click with a resolvable
/// cursor, plus one per fired timer interval.
pub open spec fn tick_spawns(m: Model, i: InputModel) -> nat {
    (if click_fires(i) {
        1nat
    } else {
        0nat
    }) + timer_fires(m.spawn_elapsed, i.delta)
}

/// How many targets a whole run mints.
pub open spec fn total_spawns(m: Model, inputs: Seq<InputModel>) -> nat
    decreases inputs.len(),
{
    if inputs.len() == 0 {
        0
    } else {
        tick_spawns(m, inputs.first()) + total_spawns(
            tick_model(m, inputs.first()),
            inputs.drop_first(),
        )
    }
}

/// The counter values a whole run mints, in creation order.
pub open spec fn minted_run(m: Model, inputs: Seq<InputModel>) -> Seq<nat>
    decreases inputs.len(),
{
    if inputs.len() == 0 {
        Seq::empty()
    } else {
        index_run(m.target_index, tick_spawns(m, inputs.first())) + minted_run(
            tick_model(m, inputs.first()),
            inputs.drop_first(),
        )
    }
}

/// Two adjacent runs of counter values concatenate into one.
proof fn lemma_index_run_concat(a: nat, n: nat, k: nat)
    ensures
        index_run(a, n) + index_run((a + n) as nat, k) == index_run(a, (n + k) as nat),
{
    assert(index_run(a, n) + index_run((a + n) as nat, k) =~= index_run(a, (n + k) as nat));
}

/// Target identifiers are strictly increasing and never repeat: a run that
/// mints `N` targets, by clicks and timer firings in any mix, mints exactly
/// the counter values `target_index, …, target_index + N - 1`, in creation
/// order — from a fresh state, `0, …, N - 1`, so the identifiers are
/// `zebra_0, …, zebra_{N-1}`.
pub proof fn lemma_minted_run(m: Model, inputs: Seq<InputModel>)
    ensures
        run_model(m, inputs).target_index == m.target_index + total_spawns(m, inputs),
        minted_run(m, inputs) == index_run(m.target_index, total_spawns(m, inputs)),
        sorted_strict(minted_run(m, inputs)),
    decreases inputs.len(),
{
    if inputs.len() == 0 {
        assert(minted_run(m, inputs) =~= index_run(m.target_index, 0));
    } else {
        let i0 = inputs.first();
        let m1 = tick_model(m, i0);
        assert(m1.target_index == m.target_index + tick_spawns(m, i0));
        lemma_minted_run(m1, inputs.drop_first());
        lemma_index_run_concat(
            m.target_index,
            tick_spawns(m, i0),
            total_spawns(m1, inputs.drop_first()),
        );
    }
}

/// The milli-time-units a run's ticks add up to.
pub open spec fn sum_deltas(inputs: Seq<InputModel>) -> nat
    decreases inputs.len(),
{
    if inputs.len() == 0 {
        0
    } else {
        inputs.first().delta + sum_deltas(inputs.drop_first())
    }
}

/// How often the spawn timer fires over a whole run.
pub open spec fn total_timer_fires(m: Model, inputs: Seq<InputModel>) -> nat
    decreases inputs.len(),
{
    if inputs.len() == 0 {
        0
    } else {
        timer_fires(m.spawn_elapsed, inputs.first().delta) + total_timer_fires(
            tick_model(m, inputs.first()),
            inputs.drop_first(),
        )
    }
}

/// The spawn timer fires exactly once per full interval accumulated, no
/// matter how the elapsed time is chunked across ticks: over any run it
/// fires `(spawn_elapsed + sum of deltas) / interval` times and carries the
/// remainder, so ten ticks of a tenth of an interval fire exactly as one
/// tick of a full interval does.
pub proof fn lemma_timer_chunking(m: Model, inputs: Seq<InputModel>)
    requires
        m.spawn_elapsed < SPAWN_INTERVAL as nat,
    ensures
        total_timer_fires(m, inputs) == (m.spawn_elapsed + sum_deltas(inputs)) as int / (
        SPAWN_INTERVAL as int),
        run_model(m, inputs).spawn_elapsed == (m.spawn_elapsed + sum_deltas(inputs)) as int % (
        SPAWN_INTERVAL as int),
    decreases inputs.len(),
{
    let p = SPAWN_INTERVAL as int;
    if inputs.len() == 0 {
        lemma_basic_div(m.spawn_elapsed as int, p);
        lemma_small_mod(m.spawn_elapsed, SPAWN_INTERVAL as nat);
    } else {
        let i0 = inputs.first();
        let m1 = tick_model(m, i0);
        let x: int = m.spawn_elapsed + i0.delta as int;
        let s = sum_deltas(inputs.drop_first()) as int;
        assert(m1.spawn_elapsed == x % p);
        lemma_mod_division_less_than_divisor(x, p);
        lemma_timer_chunking(m1, inputs.drop_first());
        lemma_fundamental_div_mod(x, p);
        assert(x == p * (x / p) + x % p);
        assert((x % p + s) / p + x / p == (x % p + s + (x / p) * p) / p) by {
            lemma_hoist_over_denominator(x % p + s, x / p, SPAWN_INTERVAL as nat);
        }
        assert(x % p + s + (x / p) * p == x + s) by {
            vstd::arithmetic::mul::lemma_mul_is_commutative(x / p, p);
        }
        assert((p * (x / p) + (x % p + s)) % p == (x % p + s) % p) by {
            lemma_mod_multiples_vanish(x / p, x % p + s, p);
        }
        assert(p * (x / p) + (x % p + s) == x + s);
    }
}

/// How many ticks of a run click-spawn: those with a fresh press and a
/// resolvable cursor.
pub open spec fn count_click_spawns(inputs: Seq<InputModel>) -> nat
    decreases inputs.len(),
{
    if inputs.len() == 0 {
        0
    } else {
        (if click_fires(inputs.first()) {
            1nat
        } else {
            0nat
        }) + count_click_spawns(inputs.drop_first())
    }
}

/// Click-spawning is edge-triggered, not level-triggered: when the left
/// button goes down at tick `p` and stays held for the rest of the run
/// (`levels` is the per-tick level signal, `prev` the level just before the
/// run), the click flag each tick is the rising edge of that signal, so the
/// run click-spawns exactly once — on the transition frame, and only if the
/// cursor resolves there — no matter how many ticks the press spans.
pub proof fn lemma_click_edge(prev: bool, levels: Seq<bool>, inputs: Seq<InputModel>, p: int)
    requires
        inputs.len() == levels.len(),
        prev == (p < 0),
        forall|k: int| 0 <= k < levels.len() ==> #[trigger] levels[k] == (p <= k),
        forall|k: int|
            0 <= k < inputs.len() ==> #[trigger] inputs[k].click == (levels[k] && !(if k == 0 {
                prev
            } else {
                levels[k - 1]
            })),
    ensures
        count_click_spawns(inputs) == if 0 <= p < inputs.len() && inputs[p].cursor is Some {
            1nat
        } else {
            0nat
        },
    decreases inputs.len(),
{
    if inputs.len() != 0 {
        assert(inputs[0].click == (levels[0] && !prev));
        let lr = levels.drop_first();
        let ir = inputs.drop_first();
        assert forall|k: int| 0 <= k < lr.len() implies #[trigger] lr[k] == (p - 1 <= k) by {
            assert(lr[k] == levels[k + 1]);
        }
        assert forall|k: int|
            0 <= k < ir.len() implies #[trigger] ir[k].click == (lr[k] && !(if k == 0 {
                levels[0]
            } else {
                lr[k - 1]
            })) by {
            assert(ir[k] == inputs[k + 1]);
            assert(lr[k] == levels[k + 1]);
            if k > 0 {
                assert(lr[k - 1] == levels[k]);
            }
        }
        lemma_click_edge(levels[0], lr, ir, p - 1);
        if 0 <= p - 1 < ir.len() {
            assert(ir[p - 1] == inputs[p]);
        }
    }
}


} // verus!
