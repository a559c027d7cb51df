//! How the two effects are wired together.
//!
//! One rule, in every mode: the wet signal is the sum of the enabled effects,
//! each at its own level, and nothing else. A disabled effect adds nothing and
//! its level control does nothing. Dry never appears here; the mix control adds
//! it back.

use vstd::prelude::*;

use crate::params::RoutingMode;

verus! {

/// An effect.
#[derive(Clone, Copy, Debug, PartialEq, Eq, Structural)]
pub enum Effect {
    /// Takes the mean of both channels.
    Reverb,
    /// Takes both channels, and gives back its taps only.
    Delay,
}

/// What an effect is fed.
#[derive(Clone, Copy, Debug, PartialEq, Eq, Structural)]
pub enum Feed {
    /// The dry signal.
    Dry,
    /// What the first effect adds to the wet signal.
    First,
}

/// One effect of the wet signal.
#[derive(Clone, Copy, Debug, PartialEq, Eq, Structural)]
pub struct Stage {
    pub effect: Effect,
    pub feed: Feed,
}

/// The effects of the wet signal: up to two of them, the first one first.
#[derive(Clone, Copy, Debug, PartialEq, Eq, Structural)]
pub struct Route {
    pub first: Option<Stage>,
    pub second: Option<Stage>,
}

impl Route {
    /// The effects in the order in which they are run.
    pub open spec fn stages(self) -> Seq<Stage> {
        match (self.first, self.second) {
            (Some(a), Some(b)) => seq![a, b],
            (Some(a), None) => seq![a],
            (None, Some(b)) => seq![b],
            (None, None) => Seq::empty(),
        }
    }
}

/// The effects of the wet signal, in the order in which they are run. What each
/// gives back is brought to its level and added.
pub open spec fn stages_of(routing: RoutingMode, rev_enabled: bool, dly_enabled: bool) -> Seq<
    Stage,
> {
    let reverb = Stage { effect: Effect::Reverb, feed: Feed::Dry };
    let delay = Stage { effect: Effect::Delay, feed: Feed::Dry };
    if rev_enabled && dly_enabled {
        match routing {
            RoutingMode::Parallel => seq![reverb, delay],
            RoutingMode::ReverbToDelay => seq![
                reverb,
                Stage { effect: Effect::Delay, feed: Feed::First },
            ],
            RoutingMode::DelayToReverb => seq![
                delay,
                Stage { effect: Effect::Reverb, feed: Feed::First },
            ],
        }
    } else if rev_enabled {
        seq![reverb]
    } else if dly_enabled {
        seq![delay]
    } else {
        Seq::empty()
    }
}

/// The effects of the wet signal, in the order in which they are run. There is
/// no second one without a first one.
pub fn route_wet(routing: RoutingMode, rev_enabled: bool, dly_enabled: bool) -> (r: Route)
    ensures
        r.stages() == stages_of(routing, rev_enabled, dly_enabled),
        r.first is None ==> r.second is None,
{
    let reverb = Stage { effect: Effect::Reverb, feed: Feed::Dry };
    let delay = Stage { effect: Effect::Delay, feed: Feed::Dry };
    if rev_enabled && dly_enabled {
        match routing {
            RoutingMode::Parallel => Route { first: Some(reverb), second: Some(delay) },
            RoutingMode::ReverbToDelay => Route {
                first: Some(reverb),
                second: Some(Stage { effect: Effect::Delay, feed: Feed::First }),
            },
            RoutingMode::DelayToReverb => Route {
                first: Some(delay),
                second: Some(Stage { effect: Effect::Reverb, feed: Feed::First }),
            },
        }
    } else if rev_enabled {
        Route { first: Some(reverb), second: None }
    } else if dly_enabled {
        Route { first: Some(delay), second: None }
    } else {
        Route { first: None, second: None }
    }
}

/// A pair of samples, in exact numbers.
pub struct Pair {
    pub l: real,
    pub r: real,
}

/// The levels of the effects, and what they make of one sample.
pub struct Effects {
    pub rev_wet: real,
    pub dly_wet: real,
    pub reverb: spec_fn(real) -> Pair,
    pub delay: spec_fn(Pair) -> Pair,
}

/// What an effect adds to the wet signal: what it makes of its feed, at its
/// level.
pub open spec fn added(fx: Effects, effect: Effect, feed: Pair) -> Pair {
    match effect {
        Effect::Reverb => {
            let out = (fx.reverb)((feed.l + feed.r) / (2 as real));
            Pair { l: out.l * fx.rev_wet, r: out.r * fx.rev_wet }
        },
        Effect::Delay => {
            let out = (fx.delay)(feed);
            Pair { l: out.l * fx.dly_wet, r: out.r * fx.dly_wet }
        },
    }
}

/// The sum of two signals.
pub open spec fn sum(a: Pair, b: Pair) -> Pair {
    Pair { l: a.l + b.l, r: a.r + b.r }
}

/// No signal.
pub open spec fn nothing() -> Pair {
    Pair { l: 0 as real, r: 0 as real }
}

/// The wet signal of some stages, in exact numbers.
pub open spec fn wet_of(stages: Seq<Stage>, dry: Pair, fx: Effects) -> Pair {
    if stages.len() == 0 {
        nothing()
    } else {
        let first = added(fx, stages[0].effect, dry);
        if stages.len() == 1 {
            first
        } else {
            let feed = match stages[1].feed {
                Feed::Dry => dry,
                Feed::First => first,
            };
            sum(first, added(fx, stages[1].effect, feed))
        }
    }
}

/// How often an effect is run.
pub open spec fn runs(stages: Seq<Stage>, effect: Effect) -> int
    decreases stages.len(),
{
    if stages.len() == 0 {
        0
    } else {
        runs(stages.drop_last(), effect) + (if stages.last().effect == effect {
            1int
        } else {
            0int
        })
    }
}

/// An enabled effect is run once for every sample, a disabled one never.
pub proof fn law_every_enabled_effect_is_run_once(
    routing: RoutingMode,
    rev_enabled: bool,
    dly_enabled: bool,
)
    ensures
        runs(stages_of(routing, rev_enabled, dly_enabled), Effect::Reverb) == (if rev_enabled {
            1int
        } else {
            0int
        }),
        runs(stages_of(routing, rev_enabled, dly_enabled), Effect::Delay) == (if dly_enabled {
            1int
        } else {
            0int
        }),
{
    let stages = stages_of(routing, rev_enabled, dly_enabled);
    reveal_with_fuel(runs, 3);
    if stages.len() == 2 {
        assert(stages.drop_last() =~= seq![stages[0]]);
        assert(seq![stages[0]].drop_last() =~= Seq::empty());
    } else if stages.len() == 1 {
        assert(stages.drop_last() =~= Seq::empty());
    }
}

/// One effect alone is the same in every mode: what it makes of the dry signal,
/// at its own level.
pub proof fn law_one_effect_is_the_same_in_every_mode(routing: RoutingMode, dry: Pair, fx: Effects)
    ensures
        wet_of(stages_of(routing, true, false), dry, fx) == added(fx, Effect::Reverb, dry),
        wet_of(stages_of(routing, false, true), dry, fx) == added(fx, Effect::Delay, dry),
{
}

/// In parallel the wet signal is the sum of what both effects make of the dry
/// one, each at its own level.
pub proof fn law_parallel_is_the_sum_of_both(dry: Pair, fx: Effects)
    ensures
        wet_of(stages_of(RoutingMode::Parallel, true, true), dry, fx) == sum(
            added(fx, Effect::Reverb, dry),
            added(fx, Effect::Delay, dry),
        ),
{
}

/// In a chain both effects are heard: what the first one adds, and on top of it
/// what the second one makes of that, each at its own level.
pub proof fn law_a_chain_is_heard_whole(dry: Pair, fx: Effects)
    ensures
        ({
            let rev = added(fx, Effect::Reverb, dry);
            wet_of(stages_of(RoutingMode::ReverbToDelay, true, true), dry, fx) == sum(
                rev,
                added(fx, Effect::Delay, rev),
            )
        }),
        ({
            let dly = added(fx, Effect::Delay, dry);
            wet_of(stages_of(RoutingMode::DelayToReverb, true, true), dry, fx) == sum(
                dly,
                added(fx, Effect::Reverb, dly),
            )
        }),
{
}

/// The first effect of a chain is still heard, at its own level and no other:
/// with the second one turned down all the way, it is heard as if it were alone.
pub proof fn law_the_first_effect_is_still_heard(dry: Pair, fx: Effects)
    ensures
        fx.dly_wet == 0 as real ==> wet_of(
            stages_of(RoutingMode::ReverbToDelay, true, true),
            dry,
            fx,
        ) == added(fx, Effect::Reverb, dry),
        fx.rev_wet == 0 as real ==> wet_of(
            stages_of(RoutingMode::DelayToReverb, true, true),
            dry,
            fx,
        ) == added(fx, Effect::Delay, dry),
{
    let rev = added(fx, Effect::Reverb, dry);
    let dly = added(fx, Effect::Delay, dry);
    if fx.dly_wet == 0 as real {
        lemma_turned_down((fx.delay)(rev));
        assert(added(fx, Effect::Delay, rev) == nothing());
    }
    if fx.rev_wet == 0 as real {
        lemma_turned_down((fx.reverb)((dly.l + dly.r) / (2 as real)));
        assert(added(fx, Effect::Reverb, dly) == nothing());
    }
}

/// A signal at no level is no signal.
proof fn lemma_turned_down(x: Pair)
    ensures
        x.l * (0 as real) == 0 as real,
        x.r * (0 as real) == 0 as real,
{
    let l = x.l;
    let r = x.r;
    assert(l * (0 as real) == 0 as real) by (nonlinear_arith);
    assert(r * (0 as real) == 0 as real) by (nonlinear_arith);
}

/// A disabled effect adds nothing, and its level control does nothing: the wet
/// signal is the same whatever it would have made of its feed, at any level.
pub proof fn law_a_disabled_effect_adds_nothing(
    routing: RoutingMode,
    enabled: bool,
    dry: Pair,
    fx: Effects,
    other: Effects,
)
    ensures
        wet_of(stages_of(routing, false, false), dry, fx) == nothing(),
        other.rev_wet == fx.rev_wet && other.reverb == fx.reverb ==> wet_of(
            stages_of(routing, enabled, false),
            dry,
            fx,
        ) == wet_of(stages_of(routing, enabled, false), dry, other),
        other.dly_wet == fx.dly_wet && other.delay == fx.delay ==> wet_of(
            stages_of(routing, false, enabled),
            dry,
            fx,
        ) == wet_of(stages_of(routing, false, enabled), dry, other),
{
}

/// The first effect is always fed the dry signal; the second one is fed what the
/// first one adds in a chain, and the dry signal in parallel. In a chain the effects
/// run in the order of its name.
pub proof fn law_a_chain_runs_in_the_order_of_its_name(
    routing: RoutingMode,
    rev_enabled: bool,
    dly_enabled: bool,
)
    ensures
        ({
            let s = stages_of(routing, rev_enabled, dly_enabled);
            let on = (if rev_enabled {
                1int
            } else {
                0int
            }) + (if dly_enabled {
                1int
            } else {
                0int
            });
            &&& s.len() == on
            &&& on >= 1 ==> s[0].feed == Feed::Dry
            &&& on == 2 ==> (s[1].feed == Feed::First <==> routing != RoutingMode::Parallel)
            &&& on == 2 ==> (s[0].effect == Effect::Delay <==> routing
                == RoutingMode::DelayToReverb)
            &&& on == 2 ==> s[0].effect != s[1].effect
            &&& rev_enabled && !dly_enabled ==> s[0].effect == Effect::Reverb
            &&& dly_enabled && !rev_enabled ==> s[0].effect == Effect::Delay
        }),
{
}

/// A route holds its effects in order, and none where there is none.
pub proof fn law_a_route_is_its_stages(a: Stage, b: Stage)
    ensures
        (Route { first: Some(a), second: Some(b) }).stages() == seq![a, b],
        (Route { first: Some(a), second: None }).stages() == seq![a],
        (Route { first: None, second: None }).stages() == Seq::<Stage>::empty(),
{
}

}
