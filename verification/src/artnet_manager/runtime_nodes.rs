//! The compiled effect runtime: sequence, parallel, delay and fade nodes.
//!
//! Every node advances by one tick when asked and reports when it is done.
//! A done node's tick is a no-op, so ticking past completion is harmless.

use vstd::prelude::*;

use super::fade::{DmxChannelDelta, MAX_FADE_TICKS};
use super::manager::ArtnetManager;
use super::universe::Universe;
use super::ArtnetError;
use crate::defs::TargetValue;
use crate::dmx::{ChannelDefinition, ChannelValue, DimmerValue, UniverseChannelDefinitions};

verus! {

pub enum EffectNodeRuntime {
    Sequence(SequenceEffectNode),
    Parallel(ParallelEffectNode),
    Delay(DelayEffectNode),
    Fade(FadeEffectNode),
}

/// Runs its children one after the other, one tick of the current child per
/// tick; done when the index has passed the last child.
pub struct SequenceEffectNode {
    pub nodes: Vec<EffectNodeRuntime>,
    pub current_node: usize,
}

/// Runs all children every tick; done when all children are done.
pub struct ParallelEffectNode {
    pub nodes: Vec<EffectNodeRuntime>,
}

/// Counts ticks from zero; done at its tick count.
pub struct DelayEffectNode {
    pub ticks: usize,
    pub current_tick: usize,
}

/// Fades the lights towards the target over a fixed number of ticks; the
/// per-component interpolation state is captured from the universes on the
/// first tick.
pub struct FadeEffectNode {
    pub lights: Vec<UniverseChannelDefinitions>,
    pub ticks: usize,
    pub current_tick: usize,
    pub target: TargetValue,
    pub state: Option<FadeEffectState>,
}

pub struct FadeEffectState {
    pub universe_states: Vec<FadeEffectUniverseState>,
}

pub struct FadeEffectUniverseState {
    pub universe_id: String,
    pub channel_states: Vec<FadeEffectChannelState>,
}

pub struct FadeEffectChannelState {
    pub channel: ChannelDefinition,
    pub value: FadeEffectDimmerState,
}

pub enum FadeEffectDimmerState {
    Single(DmxChannelDelta),
    Rgb(DmxChannelDelta, DmxChannelDelta, DmxChannelDelta),
    TriWhite(DmxChannelDelta, DmxChannelDelta, DmxChannelDelta),
}

/// The dimmer value a fade state currently holds, component for component.
pub open spec fn spec_state_value(s: &FadeEffectDimmerState) -> DimmerValue {
    match s {
        FadeEffectDimmerState::Single(d) => DimmerValue::Single(d.value),
        FadeEffectDimmerState::Rgb(a, b, c) => DimmerValue::Rgb(a.value, b.value, c.value),
        FadeEffectDimmerState::TriWhite(a, b, c) => DimmerValue::TriWhite(
            a.value,
            b.value,
            c.value,
        ),
    }
}

/// The dimmer value a fade state holds after `k` of `ticks` ticks: each
/// component at its interpolated value.
pub open spec fn spec_value_at(s: &FadeEffectDimmerState, ticks: int, k: int) -> DimmerValue {
    match s {
        FadeEffectDimmerState::Single(d) => DimmerValue::Single(
            super::fade::fade_value_at(d.start(), d.target(), ticks, k) as u8,
        ),
        FadeEffectDimmerState::Rgb(a, b, c) => DimmerValue::Rgb(
            super::fade::fade_value_at(a.start(), a.target(), ticks, k) as u8,
            super::fade::fade_value_at(b.start(), b.target(), ticks, k) as u8,
            super::fade::fade_value_at(c.start(), c.target(), ticks, k) as u8,
        ),
        FadeEffectDimmerState::TriWhite(a, b, c) => DimmerValue::TriWhite(
            super::fade::fade_value_at(a.start(), a.target(), ticks, k) as u8,
            super::fade::fade_value_at(b.start(), b.target(), ticks, k) as u8,
            super::fade::fade_value_at(c.start(), c.target(), ticks, k) as u8,
        ),
    }
}

/// The dimmer value a fade state started from, component for component.
pub open spec fn spec_start_value(s: &FadeEffectDimmerState) -> DimmerValue {
    match s {
        FadeEffectDimmerState::Single(d) => DimmerValue::Single(d.start()),
        FadeEffectDimmerState::Rgb(a, b, c) => DimmerValue::Rgb(a.start(), b.start(), c.start()),
        FadeEffectDimmerState::TriWhite(a, b, c) => DimmerValue::TriWhite(
            a.start(),
            b.start(),
            c.start(),
        ),
    }
}

/// The dimmer value a fade state is heading to, component for component.
pub open spec fn spec_target_value(s: &FadeEffectDimmerState) -> DimmerValue {
    match s {
        FadeEffectDimmerState::Single(d) => DimmerValue::Single(d.target()),
        FadeEffectDimmerState::Rgb(a, b, c) => DimmerValue::Rgb(
            a.target(),
            b.target(),
            c.target(),
        ),
        FadeEffectDimmerState::TriWhite(a, b, c) => DimmerValue::TriWhite(
            a.target(),
            b.target(),
            c.target(),
        ),
    }
}

/// Whether a captured fade state starts from exactly what its universes
/// hold and heads to exactly what the target assigns: for every channel
/// state, the universe exists, the channel is in range, the start
/// components equal the frame's current values, and the target components
/// are the target's values for the channel's family.
pub open spec fn spec_state_from_reads(
    st: &FadeEffectState,
    target: &TargetValue,
    mgr: &ArtnetManager,
) -> bool {
    forall|u: int, c: int|
        0 <= u < st.universe_states@.len() && 0 <= c
            < st.universe_states@[u].channel_states@.len() ==> {
            let us = st.universe_states@[u];
            let cs = (#[trigger] st.universe_states@[u].channel_states@[c]);
            &&& mgr.universes@.contains_key(us.universe_id@)
            &&& mgr.universes@[us.universe_id@].spec_channels_valid(cs.channel)
            &&& spec_start_value(&cs.value) == Universe::spec_read(
                mgr.universes@[us.universe_id@].packet_bytes@,
                cs.channel,
            )
            &&& Some(spec_target_value(&cs.value)) == target.spec_get(cs.channel)
        }
}

/// Whether two fade states run the same components: the same shape, and
/// each component keeping its start and target.
pub open spec fn spec_same_components(s1: &FadeEffectDimmerState, s2: &FadeEffectDimmerState) -> bool {
    match (s1, s2) {
        (FadeEffectDimmerState::Single(d1), FadeEffectDimmerState::Single(d2)) => d1.start()
            == d2.start() && d1.target() == d2.target(),
        (
            FadeEffectDimmerState::Rgb(a1, b1, c1),
            FadeEffectDimmerState::Rgb(a2, b2, c2),
        ) => a1.start() == a2.start() && a1.target() == a2.target() && b1.start() == b2.start()
            && b1.target() == b2.target() && c1.start() == c2.start() && c1.target() == c2.target(),
        (
            FadeEffectDimmerState::TriWhite(a1, b1, c1),
            FadeEffectDimmerState::TriWhite(a2, b2, c2),
        ) => a1.start() == a2.start() && a1.target() == a2.target() && b1.start() == b2.start()
            && b1.target() == b2.target() && c1.start() == c2.start() && c1.target() == c2.target(),
        _ => false,
    }
}

impl FadeEffectDimmerState {
    /// All components run over the same tick count and have taken the same
    /// number of ticks.
    pub open spec fn wf(&self, ticks: int, k: int) -> bool {
        match self {
            FadeEffectDimmerState::Single(d) => d.wf() && d.ticks() == ticks && d.taken() == k,
            FadeEffectDimmerState::Rgb(a, b, c) => {
                &&& a.wf() && a.ticks() == ticks && a.taken() == k
                &&& b.wf() && b.ticks() == ticks && b.taken() == k
                &&& c.wf() && c.ticks() == ticks && c.taken() == k
            },
            FadeEffectDimmerState::TriWhite(a, b, c) => {
                &&& a.wf() && a.ticks() == ticks && a.taken() == k
                &&& b.wf() && b.ticks() == ticks && b.taken() == k
                &&& c.wf() && c.ticks() == ticks && c.taken() == k
            },
        }
    }

    /// Every component already sits on its target.
    pub open spec fn spec_all_equal(&self) -> bool {
        match self {
            FadeEffectDimmerState::Single(d) => d.start() == d.target(),
            FadeEffectDimmerState::Rgb(a, b, c) => a.start() == a.target() && b.start()
                == b.target() && c.start() == c.target(),
            FadeEffectDimmerState::TriWhite(a, b, c) => a.start() == a.target() && b.start()
                == b.target() && c.start() == c.target(),
        }
    }

    /// Advances every component by one tick: each lands exactly on its
    /// interpolated value for the next tick, keeping its start and target.
    pub fn tick(&mut self, Ghost(ticks): Ghost<int>, Ghost(k): Ghost<int>)
        requires
            old(self).wf(ticks, k),
            k < ticks,
        ensures
            final(self).wf(ticks, k + 1),
            spec_same_components(old(self), final(self)),
            spec_state_value(final(self)) == spec_value_at(old(self), ticks, k + 1),
    {
        match self {
            FadeEffectDimmerState::Single(d) => {
                d.tick();
            },
            FadeEffectDimmerState::Rgb(a, b, c) => {
                a.tick();
                b.tick();
                c.tick();
            },
            FadeEffectDimmerState::TriWhite(a, b, c) => {
                a.tick();
                b.tick();
                c.tick();
            },
        }
    }

    /// Whether any component still has ground to cover.
    pub fn is_fade_needed(&self, Ghost(ticks): Ghost<int>, Ghost(k): Ghost<int>) -> (r: bool)
        requires
            self.wf(ticks, k),
        ensures
            r == !self.spec_all_equal(),
    {
        match self {
            FadeEffectDimmerState::Single(d) => d.is_fade_needed(),
            FadeEffectDimmerState::Rgb(a, b, c) => a.is_fade_needed() || b.is_fade_needed()
                || c.is_fade_needed(),
            FadeEffectDimmerState::TriWhite(a, b, c) => a.is_fade_needed() || b.is_fade_needed()
                || c.is_fade_needed(),
        }
    }
}

/// The write one channel state issues on the next tick: its channel, with
/// every component at the next interpolated value, sent to its universe.
pub open spec fn spec_channel_write(
    uid: Seq<char>,
    cs: FadeEffectChannelState,
    ticks: int,
    k: int,
) -> (Seq<char>, ChannelValue) {
    (uid, ChannelValue { channel: cs.channel, value: spec_value_at(&cs.value, ticks, k + 1) })
}

/// The writes one universe state issues on the next tick, in channel order.
pub open spec fn spec_universe_writes(us: &FadeEffectUniverseState, ticks: int, k: int) -> Seq<
    (Seq<char>, ChannelValue),
> {
    us.channel_states@.map_values(
        |cs: FadeEffectChannelState| spec_channel_write(us.universe_id@, cs, ticks, k),
    )
}

/// The writes a running fade issues on one tick, in traversal order.
pub open spec fn spec_fade_writes(
    states: Seq<FadeEffectUniverseState>,
    ticks: int,
    k: int,
) -> Seq<(Seq<char>, ChannelValue)>
    decreases states.len(),
{
    if states.len() == 0 {
        Seq::empty()
    } else {
        spec_fade_writes(states.drop_last(), ticks, k) + spec_universe_writes(
            &states.last(),
            ticks,
            k,
        )
    }
}

/// A frame after the writes that target universe `uid`, applied in order.
pub open spec fn spec_fold_writes(
    bytes: Seq<u8>,
    writes: Seq<(Seq<char>, ChannelValue)>,
    uid: Seq<char>,
) -> Seq<u8>
    decreases writes.len(),
{
    if writes.len() == 0 {
        bytes
    } else {
        let prev = spec_fold_writes(bytes, writes.drop_last(), uid);
        if writes.last().0 == uid {
            Universe::spec_written(prev, writes.last().1)
        } else {
            prev
        }
    }
}

/// The writes that land in the test log: those whose universe records
/// channel writes.
pub open spec fn spec_logged_writes(
    writes: Seq<(Seq<char>, ChannelValue)>,
    universes: Map<Seq<char>, Universe>,
) -> Seq<ChannelValue>
    decreases writes.len(),
{
    if writes.len() == 0 {
        Seq::empty()
    } else {
        let prev = spec_logged_writes(writes.drop_last(), universes);
        if universes.contains_key(writes.last().0) && universes[writes.last().0].log {
            prev.push(writes.last().1)
        } else {
            prev
        }
    }
}

/// Whether any write targets universe `uid`.
pub open spec fn spec_writes_target(writes: Seq<(Seq<char>, ChannelValue)>, uid: Seq<char>) -> bool {
    exists|i: int| 0 <= i < writes.len() && (#[trigger] writes[i]).0 == uid
}

/// How the first tick of a fade changes the manager: some state captured
/// exactly from the universes' current values drives the writes.
pub open spec fn spec_first_tick_effect(
    f: &FadeEffectNode,
    pre: &ArtnetManager,
    post: &ArtnetManager,
) -> bool {
    exists|st: FadeEffectState|
        #[trigger] spec_state_from_reads(&st, &f.target, pre) && spec_fade_tick_effect(
            spec_fade_writes(st.universe_states@, f.ticks as int, f.current_tick as int),
            pre,
            post,
        )
}

/// How one tick of a running fade changes the manager: every universe's
/// frame takes the writes that target it, flags and counters stay, a
/// written universe is marked modified, and the test log grows by the
/// logged writes.
pub open spec fn spec_fade_tick_effect(
    w: Seq<(Seq<char>, ChannelValue)>,
    pre: &ArtnetManager,
    post: &ArtnetManager,
) -> bool {
    &&& forall|kk: Seq<char>|
        post.universes@.contains_key(kk) ==> {
            let u = pre.universes@[kk];
            let u2 = (#[trigger] post.universes@[kk]);
            &&& u2.packet_bytes@ == spec_fold_writes(u.packet_bytes@, w, kk)
            &&& u2.controller == u.controller
            &&& u2.log == u.log
            &&& u2.disable_send == u.disable_send
            &&& u2.description == u.description
            &&& u2.non_modified_ticks == u.non_modified_ticks
            &&& (spec_writes_target(w, kk) ==> u2.modified)
            &&& (!spec_writes_target(w, kk) ==> u2 == u)
        }
    &&& post.set_channel_log@ == pre.set_channel_log@ + spec_logged_writes(w, pre.universes@)
}

impl FadeEffectChannelState {
    pub open spec fn wf(&self, ticks: int, k: int) -> bool {
        self.value.wf(ticks, k)
    }

    /// The channel value the current component values form.
    pub fn get_channel_value(&self) -> (r: ChannelValue)
        ensures
            r.channel == self.channel,
            r.value == spec_state_value(&self.value),
    {
        match &self.value {
            FadeEffectDimmerState::Single(v) => ChannelValue {
                channel: self.channel,
                value: DimmerValue::Single(v.value),
            },
            FadeEffectDimmerState::Rgb(r, g, b) => ChannelValue {
                channel: self.channel,
                value: DimmerValue::Rgb(r.value, g.value, b.value),
            },
            FadeEffectDimmerState::TriWhite(w1, w2, w3) => ChannelValue {
                channel: self.channel,
                value: DimmerValue::TriWhite(w1.value, w2.value, w3.value),
            },
        }
    }
}

impl FadeEffectState {
    pub open spec fn wf(&self, ticks: int, k: int) -> bool {
        forall|u: int, c: int|
            0 <= u < self.universe_states@.len() && 0 <= c
                < self.universe_states@[u].channel_states@.len() ==> (
            #[trigger] self.universe_states@[u].channel_states@[c]).wf(ticks, k)
    }

    /// Every component of every channel already sits on its target.
    pub open spec fn spec_all_equal(&self) -> bool {
        forall|u: int, c: int|
            0 <= u < self.universe_states@.len() && 0 <= c
                < self.universe_states@[u].channel_states@.len() ==> (
            #[trigger] self.universe_states@[u].channel_states@[c]).value.spec_all_equal()
    }

    /// Whether any channel still has ground to cover.
    pub fn fade_needed(&self, Ghost(ticks): Ghost<int>, Ghost(k): Ghost<int>) -> (r: bool)
        requires
            self.wf(ticks, k),
        ensures
            r == !self.spec_all_equal(),
    {
        let mut u: usize = 0;
        while u < self.universe_states.len()
            invariant
                u <= self.universe_states@.len(),
                self.wf(ticks, k),
                forall|p: int, c: int|
                    0 <= p < u && 0 <= c < self.universe_states@[p].channel_states@.len() ==> (
                    #[trigger] self.universe_states@[p].channel_states@[c]).value.spec_all_equal(),
            decreases self.universe_states@.len() - u,
        {
            let us = &self.universe_states[u];
            let mut c: usize = 0;
            while c < us.channel_states.len()
                invariant
                    c <= us.channel_states@.len(),
                    us == self.universe_states@[u as int],
                    u < self.universe_states@.len(),
                    self.wf(ticks, k),
                    forall|q: int|
                        0 <= q < c ==> (
                        #[trigger] us.channel_states@[q]).value.spec_all_equal(),
                decreases us.channel_states@.len() - c,
            {
                if us.channel_states[c].value.is_fade_needed(Ghost(ticks), Ghost(k)) {
                    return true;
                }
                c = c + 1;
            }
            u = u + 1;
        }
        false
    }
}

impl EffectNodeRuntime {
    /// Indexes in range, and a captured fade state that agrees with the
    /// node's tick counts.
    pub open spec fn wf(&self) -> bool
        decreases self,
    {
        match self {
            EffectNodeRuntime::Sequence(s) => {
                &&& s.current_node <= s.nodes@.len()
                &&& forall|i: int| 0 <= i < s.nodes@.len() ==> (#[trigger] s.nodes@[i]).wf()
            },
            EffectNodeRuntime::Parallel(p) => forall|i: int|
                0 <= i < p.nodes@.len() ==> (#[trigger] p.nodes@[i]).wf(),
            EffectNodeRuntime::Delay(d) => d.current_tick <= d.ticks,
            EffectNodeRuntime::Fade(f) => {
                &&& f.current_tick <= f.ticks
                &&& f.ticks <= MAX_FADE_TICKS
                &&& match f.state {
                    Some(st) => st.wf(f.ticks as int, f.current_tick as int) && f.ticks >= 1
                        && f.current_tick < f.ticks,
                    None => f.current_tick == 0 || f.current_tick >= f.ticks,
                }
            },
        }
    }

    /// Completion: a sequence past its last child, a parallel whose children
    /// are all done, a delay or fade that has taken all its ticks.
    pub open spec fn is_done_spec(&self) -> bool
        decreases self,
    {
        match self {
            EffectNodeRuntime::Sequence(s) => s.current_node >= s.nodes@.len(),
            EffectNodeRuntime::Parallel(p) => forall|i: int|
                0 <= i < p.nodes@.len() ==> (#[trigger] p.nodes@[i]).is_done_spec(),
            EffectNodeRuntime::Delay(d) => d.current_tick >= d.ticks,
            EffectNodeRuntime::Fade(f) => f.current_tick >= f.ticks,
        }
    }

    /// Whether the node is done.
    pub fn is_done(&self) -> (r: bool)
        ensures
            r == self.is_done_spec(),
        decreases self,
    {
        match self {
            EffectNodeRuntime::Sequence(s) => s.current_node >= s.nodes.len(),
            EffectNodeRuntime::Parallel(p) => {
                let ghost self0 = *self;
                let mut i: usize = 0;
                while i < p.nodes.len()
                    invariant
                        i <= p.nodes@.len(),
                        self0 == *self,
                        self0 is Parallel,
                        p == self0->Parallel_0,
                        forall|j: int| 0 <= j < i ==> (#[trigger] p.nodes@[j]).is_done_spec(),
                    decreases p.nodes@.len() - i,
                {
                    proof {
                        assert(decreases_to!(self0 => self0->Parallel_0));
                        assert(decreases_to!(self0->Parallel_0 => self0->Parallel_0.nodes));
                        assert(decreases_to!(self0->Parallel_0.nodes => self0->Parallel_0.nodes@));
                        assert(decreases_to!(
                            self0->Parallel_0.nodes@ => self0->Parallel_0.nodes@[i as int]
                        ));
                        assert(decreases_to!(self0 => self0->Parallel_0.nodes@[i as int]));
                    }
                    if !p.nodes[i].is_done() {
                        proof {
                            assert(!self.is_done_spec()) by {
                                if self.is_done_spec() {
                                    assert(p.nodes@[i as int].is_done_spec());
                                }
                            }
                        }
                        return false;
                    }
                    i = i + 1;
                }
                true
            },
            EffectNodeRuntime::Delay(d) => d.current_tick >= d.ticks,
            EffectNodeRuntime::Fade(f) => f.current_tick >= f.ticks,
        }
    }
}

/// Every listed channel reads back, from its universe, exactly the value
/// the target assigns it (channels whose family the target does not name
/// are ignored).
pub open spec fn spec_fade_lights_equal_target(
    lights: &Vec<UniverseChannelDefinitions>,
    target: &TargetValue,
    mgr: &ArtnetManager,
) -> bool {
    forall|u: int, c: int|
        0 <= u < lights@.len() && 0 <= c < (#[trigger] lights@[u]).channels@.len() ==> {
            let uid = lights@[u].universe_id@;
            let cd = (#[trigger] lights@[u].channels@[c]);
            &&& mgr.universes@.contains_key(uid)
            &&& mgr.universes@[uid].spec_channels_valid(cd)
            &&& match target.spec_get(cd) {
                Some(v) => super::universe::Universe::spec_read(
                    mgr.universes@[uid].packet_bytes@,
                    cd,
                ) == v,
                None => true,
            }
        }
}

/// The fade's lights already sit on its target values.
pub open spec fn spec_fade_start_equals_target(f: &FadeEffectNode, mgr: &ArtnetManager) -> bool {
    spec_fade_lights_equal_target(&f.lights, &f.target, mgr)
}

/// What one tick does to a child node, as far as its counters show it: a
/// delay with ticks left advances by exactly one; a running fade advances
/// its tick count by one; other shapes are related by their own clauses.
pub open spec fn spec_child_step(n1: EffectNodeRuntime, n2: EffectNodeRuntime) -> bool {
    match n1 {
        EffectNodeRuntime::Delay(d) => d.current_tick < d.ticks ==> n2 == EffectNodeRuntime::Delay(
            DelayEffectNode { ticks: d.ticks, current_tick: (d.current_tick + 1) as usize },
        ),
        EffectNodeRuntime::Fade(f) => (f.state is Some ==> (n2 matches EffectNodeRuntime::Fade(f2)
            && f2.current_tick == f.current_tick + 1 && f2.ticks == f.ticks)),
        _ => true,
    }
}

/// Advances a node by one tick against the Art-Net manager. Returns the
/// advanced node; on an error the node is returned as far as it got.
///
/// A done node's tick changes nothing. A running fade writes, for every
/// channel of its captured state, the next interpolated value into the
/// universes and steps its tick count; a fade's first tick captures that
/// state from the universes' current values. A delay steps its counter and
/// touches nothing. A sequence advances only its current child, stepping
/// the index exactly when that child finishes; a parallel keeps its child
/// count.
pub fn tick_node(node: EffectNodeRuntime, artnet_manager: &mut ArtnetManager) -> (r: (
    EffectNodeRuntime,
    Result<(), ArtnetError>,
))
    requires
        node.wf(),
        old(artnet_manager).wf(),
    ensures
        final(artnet_manager).wf(),
        final(artnet_manager).universes@.dom() == old(artnet_manager).universes@.dom(),
        final(artnet_manager).active_effects@ == old(artnet_manager).active_effects@,
        r.1 is Ok ==> r.0.wf(),
        node.is_done_spec() ==> r.1 is Ok && r.0.is_done_spec()
            && final(artnet_manager).universes@ == old(artnet_manager).universes@
            && final(artnet_manager).set_channel_log@ == old(artnet_manager).set_channel_log@,
        (node matches EffectNodeRuntime::Fade(f) && f.state is None
            && spec_fade_start_equals_target(&f, old(artnet_manager))) ==> r.1 is Ok
            && r.0.is_done_spec() && final(artnet_manager).universes@ == old(
            artnet_manager,
        ).universes@ && final(artnet_manager).set_channel_log@ == old(
            artnet_manager,
        ).set_channel_log@,
        node matches EffectNodeRuntime::Fade(f) ==> (f.state matches Some(st0) ==> (r.1 is Ok
            ==> ({
            &&& (r.0 matches EffectNodeRuntime::Fade(f2) && f2.current_tick == f.current_tick + 1
                && f2.lights == f.lights && f2.ticks == f.ticks && f2.target == f.target)
            &&& spec_fade_tick_effect(
                spec_fade_writes(st0.universe_states@, f.ticks as int, f.current_tick as int),
                old(artnet_manager),
                final(artnet_manager),
            )
        }))),
        node matches EffectNodeRuntime::Fade(f) ==> ((f.state is None && f.current_tick < f.ticks)
            ==> (r.1 is Ok ==> (r.0.is_done_spec() || (r.0 matches EffectNodeRuntime::Fade(f2)
            && f2.current_tick == f.current_tick + 1 && spec_first_tick_effect(
            &f,
            old(artnet_manager),
            final(artnet_manager),
        ))))),
        node matches EffectNodeRuntime::Delay(d) ==> (d.current_tick < d.ticks ==> (r.1 is Ok
            && r.0 == EffectNodeRuntime::Delay(
            DelayEffectNode { ticks: d.ticks, current_tick: (d.current_tick + 1) as usize },
        ) && final(artnet_manager).universes@ == old(artnet_manager).universes@
            && final(artnet_manager).set_channel_log@ == old(artnet_manager).set_channel_log@)),
        node matches EffectNodeRuntime::Sequence(s) ==> (s.current_node < s.nodes@.len() ==> (r.1
            is Ok ==> (r.0 matches EffectNodeRuntime::Sequence(s2) && s2.nodes@.len()
            == s.nodes@.len() && (forall|j: int|
            0 <= j < s.nodes@.len() && j != s.current_node ==> s2.nodes@[j] == (
            #[trigger] s.nodes@[j])) && spec_child_step(
            s.nodes@[s.current_node as int],
            s2.nodes@[s.current_node as int],
        ) && s2.current_node as int == (
        if s2.nodes@[s.current_node as int].is_done_spec() {
            s.current_node + 1
        } else {
            s.current_node as int
        })))),
        node matches EffectNodeRuntime::Parallel(p) ==> (r.1 is Ok ==> (r.0 matches
            EffectNodeRuntime::Parallel(p2) && p2.nodes@.len() == p.nodes@.len() && forall|j: int|
            0 <= j < p.nodes@.len() ==> spec_child_step(
                (#[trigger] p.nodes@[j]),
                p2.nodes@[j],
            ))),
    decreases node,
{
    let ghost node0 = node;
    match node {
        EffectNodeRuntime::Sequence(mut s) => {
            if s.current_node < s.nodes.len() {
                let ghost orig = s;
                let child = s.nodes.remove(s.current_node);
                proof {
                    assert(orig == node0->Sequence_0);
                    assert(!node0.is_done_spec());
                    assert(child == node0->Sequence_0.nodes@[orig.current_node as int]);
                    assert(decreases_to!(node0 => node0->Sequence_0));
                    assert(decreases_to!(node0->Sequence_0 => node0->Sequence_0.nodes));
                    assert(decreases_to!(node0->Sequence_0.nodes => node0->Sequence_0.nodes@));
                    assert(decreases_to!(
                        node0->Sequence_0.nodes@
                            => node0->Sequence_0.nodes@[orig.current_node as int]
                    ));
                    assert(decreases_to!(node0 => child));
                }
                let (child, result) = tick_node(child, artnet_manager);
                match result {
                    Ok(()) => {
                        let done = child.is_done();
                        s.nodes.insert(s.current_node, child);
                        if done {
                            s.current_node = s.current_node + 1;
                        }
                        proof {
                            assert(forall|i: int|
                                0 <= i < s.nodes@.len() ==> (#[trigger] s.nodes@[i]).wf());
                        }
                        (EffectNodeRuntime::Sequence(s), Ok(()))
                    },
                    Err(e) => {
                        s.nodes.insert(s.current_node, child);
                        (EffectNodeRuntime::Sequence(s), Err(e))
                    },
                }
            } else {
                proof {
                    assert(node == EffectNodeRuntime::Sequence(s));
                }
                (EffectNodeRuntime::Sequence(s), Ok(()))
            }
        },
        EffectNodeRuntime::Parallel(mut p) => {
            let ghost orig = p;
            let ghost old_nodes = p.nodes@;
            let ghost old_mgr_universes = old(artnet_manager).universes@;
            let ghost old_mgr_log = old(artnet_manager).set_channel_log@;
            let mut i: usize = 0;
            while i < p.nodes.len()
                invariant
                    i <= p.nodes@.len(),
                    node0 == node,
                    node0 is Parallel,
                    orig == node0->Parallel_0,
                    old_nodes == orig.nodes@,
                    p.nodes@.len() == old_nodes.len(),
                    artnet_manager.wf(),
                    artnet_manager.universes@.dom() == old(artnet_manager).universes@.dom(),
                    artnet_manager.active_effects@ == old(artnet_manager).active_effects@,
                    forall|j: int| 0 <= j < p.nodes@.len() ==> (#[trigger] p.nodes@[j]).wf(),
                    forall|j: int|
                        i <= j < p.nodes@.len() ==> (#[trigger] p.nodes@[j]) == old_nodes[j],
                    (forall|j: int| 0 <= j < old_nodes.len() ==> (#[trigger] old_nodes[j
                    ]).is_done_spec()) ==> (artnet_manager.universes@ == old(
                        artnet_manager,
                    ).universes@ && artnet_manager.set_channel_log@ == old(
                        artnet_manager,
                    ).set_channel_log@ && (forall|j: int|
                        0 <= j < i ==> (#[trigger] p.nodes@[j]).is_done_spec())),
                    forall|j: int|
                        0 <= j < i ==> spec_child_step(
                            (#[trigger] old_nodes[j]),
                            p.nodes@[j],
                        ),
                decreases p.nodes@.len() - i,
            {
                let child = p.nodes.remove(i);
                proof {
                    assert(orig == node0->Parallel_0);
                    assert(child == node0->Parallel_0.nodes@[i as int]);
                    assert(decreases_to!(node0 => node0->Parallel_0));
                    assert(decreases_to!(node0->Parallel_0 => node0->Parallel_0.nodes));
                    assert(decreases_to!(node0->Parallel_0.nodes => node0->Parallel_0.nodes@));
                    assert(decreases_to!(
                        node0->Parallel_0.nodes@ => node0->Parallel_0.nodes@[i as int]
                    ));
                    assert(decreases_to!(node0 => child));
                }
                let (child, result) = tick_node(child, artnet_manager);
                match result {
                    Ok(()) => {
                        p.nodes.insert(i, child);
                        i = i + 1;
                    },
                    Err(e) => {
                        proof {
                            if node.is_done_spec() {
                                assert(old_nodes[i as int].is_done_spec());
                                assert(false);
                            }
                        }
                        p.nodes.insert(i, child);
                        return (EffectNodeRuntime::Parallel(p), Err(e));
                    },
                }
            }
            proof {
                if node.is_done_spec() {
                    assert(forall|j: int|
                        0 <= j < old_nodes.len() ==> (#[trigger] old_nodes[j]).is_done_spec());
                    assert(EffectNodeRuntime::Parallel(p).is_done_spec());
                }
            }
            (EffectNodeRuntime::Parallel(p), Ok(()))
        },
        EffectNodeRuntime::Delay(mut d) => {
            if d.current_tick < d.ticks {
                d.current_tick = d.current_tick + 1;
            }
            (EffectNodeRuntime::Delay(d), Ok(()))
        },
        EffectNodeRuntime::Fade(f) => tick_fade(f, artnet_manager),
    }
}

/// One tick of a fade node: capture the interpolation state on the first
/// tick (completing at once when every component already sits on its
/// target), then advance every component and write it out.
fn tick_fade(f: FadeEffectNode, artnet_manager: &mut ArtnetManager) -> (r: (
    EffectNodeRuntime,
    Result<(), ArtnetError>,
))
    requires
        EffectNodeRuntime::Fade(f).wf(),
        old(artnet_manager).wf(),
    ensures
        final(artnet_manager).wf(),
        final(artnet_manager).universes@.dom() == old(artnet_manager).universes@.dom(),
        final(artnet_manager).active_effects@ == old(artnet_manager).active_effects@,
        r.1 is Ok ==> r.0.wf(),
        EffectNodeRuntime::Fade(f).is_done_spec() ==> r.1 is Ok && r.0.is_done_spec()
            && final(artnet_manager).universes@ == old(artnet_manager).universes@
            && final(artnet_manager).set_channel_log@ == old(artnet_manager).set_channel_log@,
        (f.state is None && spec_fade_start_equals_target(&f, old(artnet_manager))) ==> r.1 is Ok
            && r.0.is_done_spec() && final(artnet_manager).universes@ == old(
            artnet_manager,
        ).universes@ && final(artnet_manager).set_channel_log@ == old(
            artnet_manager,
        ).set_channel_log@,
        f.state matches Some(st0) ==> (r.1 is Ok ==> ({
            &&& (r.0 matches EffectNodeRuntime::Fade(f2) && f2.current_tick == f.current_tick + 1
                && f2.lights == f.lights && f2.ticks == f.ticks && f2.target == f.target)
            &&& spec_fade_tick_effect(
                spec_fade_writes(st0.universe_states@, f.ticks as int, f.current_tick as int),
                old(artnet_manager),
                final(artnet_manager),
            )
        })),
        (f.state is None && f.current_tick < f.ticks) ==> (r.1 is Ok ==> (r.0.is_done_spec() || (
        r.0 matches EffectNodeRuntime::Fade(f2) && f2.current_tick == f.current_tick + 1
            && spec_first_tick_effect(&f, old(artnet_manager), final(artnet_manager))))),
{
    let ghost from_state = f.state is Some;
    let ghost st0_states = if f.state is Some {
        f.state->Some_0.universe_states@
    } else {
        Seq::<FadeEffectUniverseState>::empty()
    };
    let mut fnode = f;
    if fnode.current_tick >= fnode.ticks {
        return (EffectNodeRuntime::Fade(fnode), Ok(()));
    }
    if fnode.state.is_none() {
        match initialize_fade_state(&fnode.lights, &fnode.target, fnode.ticks, artnet_manager) {
            Ok(st) => {
                if !st.fade_needed(Ghost(fnode.ticks as int), Ghost(0)) {
                    // Nothing to move: the fade completes at once, without
                    // one channel write.
                    fnode.current_tick = fnode.ticks;
                    return (EffectNodeRuntime::Fade(fnode), Ok(()));
                }
                fnode.state = Some(st);
            },
            Err(e) => {
                return (EffectNodeRuntime::Fade(fnode), Err(e));
            },
        }
    }
    let ghost k = fnode.current_tick as int;
    let ghost n = fnode.ticks as int;
    let st = fnode.state.take();
    let mut st = match st {
        Some(st) => st,
        None => {
            proof {
                // The state was just captured or carried in; this arm is
                // unreachable.
                assert(false);
            }
            return (EffectNodeRuntime::Fade(fnode), Ok(()));
        },
    };
    let ghost st_snapshot = st;
    let mut sts = st.universe_states;
    let ghost old_states = sts@;
    let ghost mut wdone: Seq<(Seq<char>, ChannelValue)> = Seq::empty();
    let mut new_universe_states: Vec<FadeEffectUniverseState> = Vec::new();
    let mut u: usize = 0;
    let n_states = sts.len();
    proof {
        assert(old_states.len() == n_states as int);
        assert(sts@ =~= old_states.subrange(0, old_states.len() as int));
        assert(old_states.subrange(0, 0) =~= Seq::<FadeEffectUniverseState>::empty());
        assert(wdone =~= spec_fade_writes(old_states.subrange(0, 0), n, k));
        assert forall|kk: Seq<char>|
            artnet_manager.universes@.contains_key(kk) implies fold_invariant_holds(
            wdone,
            old(artnet_manager),
            artnet_manager,
            kk,
        ) by {
            assert(spec_fold_writes(old(artnet_manager).universes@[kk].packet_bytes@, wdone, kk)
                == old(artnet_manager).universes@[kk].packet_bytes@);
        }
        assert(spec_logged_writes(wdone, old(artnet_manager).universes@)
            =~= Seq::<ChannelValue>::empty());
        assert(artnet_manager.set_channel_log@ =~= old(artnet_manager).set_channel_log@
            + spec_logged_writes(wdone, old(artnet_manager).universes@));
    }
    while sts.len() > 0
        invariant
            old_states.len() <= usize::MAX,
            f.current_tick < f.ticks,
            f.current_tick as int == k,
            f.ticks as int == n,
            fnode.lights == f.lights,
            fnode.target == f.target,
            from_state ==> old_states == st0_states,
            old_states == st_snapshot.universe_states@,
            !from_state ==> spec_state_from_reads(&st_snapshot, &f.target, old(artnet_manager)),
            u + sts@.len() == old_states.len(),
            sts@ == old_states.subrange(u as int, old_states.len() as int),
            artnet_manager.wf(),
            artnet_manager.universes@.dom() == old(artnet_manager).universes@.dom(),
            artnet_manager.active_effects@ == old(artnet_manager).active_effects@,
            k < n,
            n <= MAX_FADE_TICKS,
            fnode.current_tick as int == k,
            fnode.ticks as int == n,
            fnode.state is None,
            !(f.state is None && spec_fade_start_equals_target(&f, old(artnet_manager))),
            wdone == spec_fade_writes(old_states.subrange(0, u as int), n, k),
            forall|kk: Seq<char>|
                artnet_manager.universes@.contains_key(kk) ==> fold_invariant_holds(
                    wdone,
                    old(artnet_manager),
                    artnet_manager,
                    kk,
                ),
            artnet_manager.set_channel_log@ == old(artnet_manager).set_channel_log@
                + spec_logged_writes(wdone, old(artnet_manager).universes@),
            forall|p: int, c: int|
                0 <= p < old_states.len() && 0 <= c < old_states[p].channel_states@.len() ==> (
                #[trigger] old_states[p].channel_states@[c]).wf(n, k),
            forall|p: int, c: int|
                0 <= p < new_universe_states@.len() && 0 <= c
                    < new_universe_states@[p].channel_states@.len() ==> (
                #[trigger] new_universe_states@[p].channel_states@[c]).wf(n, k + 1),
        decreases sts@.len(),
    {
        let mut us = sts.remove(0);
        let ghost uid_view = us.universe_id@;
        proof {
            assert(us == old_states[u as int]);
            assert(sts@ =~= old_states.subrange(u + 1, old_states.len() as int));
        }
        let mut css = us.channel_states;
        let ghost old_cs = css@;
        let ghost writes_of_us = old_cs.map_values(
            |cs: FadeEffectChannelState| spec_channel_write(uid_view, cs, n, k),
        );
        let ghost wdone_before = wdone;
        let mut new_channel_states: Vec<FadeEffectChannelState> = Vec::new();
        let mut ci: usize = 0;
        let n_cs = css.len();
        proof {
            assert(old_cs.len() == n_cs as int);
            assert(css@ =~= old_cs.subrange(0, old_cs.len() as int));
            assert(forall|c: int| 0 <= c < old_cs.len() ==> (#[trigger] old_cs[c]).wf(n, k));
            assert(writes_of_us.subrange(0, 0) =~= Seq::<(Seq<char>, ChannelValue)>::empty());
            assert(wdone =~= wdone_before + writes_of_us.subrange(0, 0));
        }
        while css.len() > 0
            invariant
                old_cs.len() <= usize::MAX,
                old_states.len() <= usize::MAX,
                f.current_tick < f.ticks,
                f.current_tick as int == k,
                f.ticks as int == n,
                fnode.lights == f.lights,
                fnode.target == f.target,
                from_state ==> old_states == st0_states,
                old_states == st_snapshot.universe_states@,
                !from_state ==> spec_state_from_reads(&st_snapshot, &f.target, old(artnet_manager)),
                u < old_states.len(),
                u + 1 + sts@.len() == old_states.len(),
                sts@ == old_states.subrange(u + 1, old_states.len() as int),
                us.universe_id@ == uid_view,
                uid_view == old_states[u as int].universe_id@,
                writes_of_us == old_cs.map_values(
                    |cs: FadeEffectChannelState| spec_channel_write(uid_view, cs, n, k),
                ),
                wdone_before == spec_fade_writes(old_states.subrange(0, u as int), n, k),
                wdone == wdone_before + writes_of_us.subrange(0, ci as int),
                forall|p: int, c: int|
                    0 <= p < new_universe_states@.len() && 0 <= c
                        < new_universe_states@[p].channel_states@.len() ==> (
                    #[trigger] new_universe_states@[p].channel_states@[c]).wf(n, k + 1),
                forall|p: int, c: int|
                    0 <= p < old_states.len() && 0 <= c < old_states[p].channel_states@.len()
                        ==> (#[trigger] old_states[p].channel_states@[c]).wf(n, k),
                artnet_manager.wf(),
                artnet_manager.universes@.dom() == old(artnet_manager).universes@.dom(),
                artnet_manager.active_effects@ == old(artnet_manager).active_effects@,
                k < n,
                n <= MAX_FADE_TICKS,
                fnode.current_tick as int == k,
                fnode.ticks as int == n,
                fnode.state is None,
                !(f.state is None && spec_fade_start_equals_target(&f, old(artnet_manager))),
                forall|kk: Seq<char>|
                    artnet_manager.universes@.contains_key(kk) ==> fold_invariant_holds(
                        wdone,
                        old(artnet_manager),
                        artnet_manager,
                        kk,
                    ),
                artnet_manager.set_channel_log@ == old(artnet_manager).set_channel_log@
                    + spec_logged_writes(wdone, old(artnet_manager).universes@),
                forall|c: int| 0 <= c < old_cs.len() ==> (#[trigger] old_cs[c]).wf(n, k),
                ci + css@.len() == old_cs.len(),
                css@ == old_cs.subrange(ci as int, old_cs.len() as int),
                forall|c: int|
                    0 <= c < new_channel_states@.len() ==> (#[trigger] new_channel_states@[c]).wf(
                        n,
                        k + 1,
                    ),
            decreases css@.len(),
        {
            let mut cs = css.remove(0);
            let ghost ci0 = ci as int;
            let ghost cs0 = cs;
            proof {
                assert(cs == old_cs[ci0]);
                assert(css@ =~= old_cs.subrange(ci0 + 1, old_cs.len() as int));
            }
            cs.value.tick(Ghost(n), Ghost(k));
            let cv = cs.get_channel_value();
            let result = artnet_manager.set_channel(us.universe_id.as_str(), &cv);
            new_channel_states.push(cs);
            ci = ci + 1;
            if let Err(e) = result {
                // Put the states back together before reporting the failure.
                let mut merged = new_channel_states;
                merged.append(&mut css);
                us.channel_states = merged;
                let mut merged_universes = new_universe_states;
                merged_universes.push(us);
                merged_universes.append(&mut sts);
                fnode.state = Some(FadeEffectState { universe_states: merged_universes });
                return (EffectNodeRuntime::Fade(fnode), Err(e));
            }
            proof {
                let ghost prev_wdone = wdone;
                let wr = (uid_view, cv);
                assert(cv.channel == cs0.channel);
                assert(cv.value == spec_value_at(&cs0.value, n, k + 1));
                assert(wr == spec_channel_write(uid_view, cs0, n, k));
                assert(writes_of_us[ci0] == spec_channel_write(uid_view, old_cs[ci0], n, k));
                wdone = wdone.push(wr);
                assert(wdone =~= wdone_before + writes_of_us.subrange(0, ci0 + 1));
                assert(wdone.drop_last() =~= prev_wdone);
                assert(wdone.last() == wr);
                assert forall|kk: Seq<char>|
                    artnet_manager.universes@.contains_key(kk) implies fold_invariant_holds(
                    wdone,
                    old(artnet_manager),
                    artnet_manager,
                    kk,
                ) by {
                    let u0 = old(artnet_manager).universes@[kk];
                    if kk == uid_view {
                        assert(spec_writes_target(wdone, kk)) by {
                            assert(wdone[wdone.len() - 1].0 == kk);
                        }
                        assert(artnet_manager.universes@[kk].packet_bytes@
                            == Universe::spec_written(
                            spec_fold_writes(u0.packet_bytes@, prev_wdone, kk),
                            cv,
                        ));
                        assert(spec_fold_writes(u0.packet_bytes@, wdone, kk)
                            == Universe::spec_written(
                            spec_fold_writes(u0.packet_bytes@, prev_wdone, kk),
                            cv,
                        ));
                    } else {
                        if spec_writes_target(wdone, kk) {
                            let i0 = choose|i0: int|
                                0 <= i0 < wdone.len() && (#[trigger] wdone[i0]).0 == kk;
                            assert(i0 < wdone.len() - 1);
                            assert(prev_wdone[i0].0 == kk);
                            assert(spec_writes_target(prev_wdone, kk));
                        }
                        if spec_writes_target(prev_wdone, kk) {
                            let i0 = choose|i0: int|
                                0 <= i0 < prev_wdone.len() && (#[trigger] prev_wdone[i0]).0 == kk;
                            assert(wdone[i0].0 == kk);
                            assert(spec_writes_target(wdone, kk));
                        }
                        assert(spec_fold_writes(u0.packet_bytes@, wdone, kk) == spec_fold_writes(
                            u0.packet_bytes@,
                            prev_wdone,
                            kk,
                        ));
                    }
                }
                assert(old(artnet_manager).universes@.contains_key(uid_view));
                assert(spec_logged_writes(wdone, old(artnet_manager).universes@)
                    == if old(artnet_manager).universes@[uid_view].log {
                    spec_logged_writes(prev_wdone, old(artnet_manager).universes@).push(cv)
                } else {
                    spec_logged_writes(prev_wdone, old(artnet_manager).universes@)
                });
                assert(artnet_manager.set_channel_log@ =~= old(artnet_manager).set_channel_log@
                    + spec_logged_writes(wdone, old(artnet_manager).universes@));
            }
        }
        us.channel_states = new_channel_states;
        new_universe_states.push(us);
        u = u + 1;
        proof {
            assert(writes_of_us.subrange(0, old_cs.len() as int) =~= writes_of_us);
            assert(spec_universe_writes(&old_states[u - 1], n, k) =~= writes_of_us);
            let pre = old_states.subrange(0, u as int);
            assert(pre.drop_last() =~= old_states.subrange(0, u - 1));
            assert(pre.last() == old_states[u - 1]);
            assert(wdone =~= spec_fade_writes(old_states.subrange(0, u as int), n, k));
        }
    }
    proof {
        assert(old_states.subrange(0, old_states.len() as int) =~= old_states);
    }
    st.universe_states = new_universe_states;
    fnode.current_tick = fnode.current_tick + 1;
    if fnode.current_tick < fnode.ticks {
        fnode.state = Some(st);
    } else {
        fnode.state = None;
    }
    proof {
        if from_state {
            assert(wdone == spec_fade_writes(st0_states, n, k));
        } else {
            assert(spec_state_from_reads(&st_snapshot, &f.target, old(artnet_manager)));
            assert(wdone == spec_fade_writes(st_snapshot.universe_states@, n, k));
        }
    }
    (EffectNodeRuntime::Fade(fnode), Ok(()))
}

/// Whether the frame and flags of universe `kk` reflect exactly the writes
/// in `w` that target it.
pub open spec fn fold_invariant_holds(
    w: Seq<(Seq<char>, ChannelValue)>,
    pre: &ArtnetManager,
    post: &ArtnetManager,
    kk: Seq<char>,
) -> bool {
    let u = pre.universes@[kk];
    let u2 = post.universes@[kk];
    &&& u2.packet_bytes@ == spec_fold_writes(u.packet_bytes@, w, kk)
    &&& u2.controller == u.controller
    &&& u2.log == u.log
    &&& u2.disable_send == u.disable_send
    &&& u2.description == u.description
    &&& u2.non_modified_ticks == u.non_modified_ticks
    &&& (spec_writes_target(w, kk) ==> u2.modified)
    &&& (!spec_writes_target(w, kk) ==> u2 == u)
}

/// Captures the interpolation state of a fade by reading every channel's
/// current value back from its universe. Channels whose family the target
/// does not name are skipped.
fn initialize_fade_state(
    lights: &Vec<UniverseChannelDefinitions>,
    target: &TargetValue,
    ticks: usize,
    artnet_manager: &ArtnetManager,
) -> (r: Result<FadeEffectState, ArtnetError>)
    requires
        artnet_manager.wf(),
        1 <= ticks <= MAX_FADE_TICKS,
    ensures
        match r {
            Ok(st) => st.wf(ticks as int, 0) && spec_state_from_reads(
                &st,
                target,
                artnet_manager,
            ),
            Err(_) => true,
        },
        spec_fade_lights_equal_target(lights, target, artnet_manager) ==> r is Ok
            && r->Ok_0.spec_all_equal(),
{
    let ghost hyp = spec_fade_lights_equal_target(lights, target, artnet_manager);
    let mut universe_states: Vec<FadeEffectUniverseState> = Vec::new();
    let mut u: usize = 0;
    while u < lights.len()
        invariant
            u <= lights@.len(),
            artnet_manager.wf(),
            1 <= ticks <= MAX_FADE_TICKS,
            hyp == spec_fade_lights_equal_target(lights, target, artnet_manager),
            forall|p: int, c: int|
                0 <= p < universe_states@.len() && 0 <= c
                    < universe_states@[p].channel_states@.len() ==> (
                #[trigger] universe_states@[p].channel_states@[c]).wf(ticks as int, 0),
            hyp ==> forall|p: int, c: int|
                0 <= p < universe_states@.len() && 0 <= c
                    < universe_states@[p].channel_states@.len() ==> (
                #[trigger] universe_states@[p].channel_states@[c]).value.spec_all_equal(),
            forall|p: int, c: int|
                0 <= p < universe_states@.len() && 0 <= c
                    < universe_states@[p].channel_states@.len() ==> {
                    let us = universe_states@[p];
                    let cs = (#[trigger] universe_states@[p].channel_states@[c]);
                    &&& artnet_manager.universes@.contains_key(us.universe_id@)
                    &&& artnet_manager.universes@[us.universe_id@].spec_channels_valid(cs.channel)
                    &&& spec_start_value(&cs.value) == Universe::spec_read(
                        artnet_manager.universes@[us.universe_id@].packet_bytes@,
                        cs.channel,
                    )
                    &&& Some(spec_target_value(&cs.value)) == target.spec_get(cs.channel)
                },
        decreases lights@.len() - u,
    {
        let universe = &lights[u];
        let mut channel_states: Vec<FadeEffectChannelState> = Vec::new();
        let mut c: usize = 0;
        while c < universe.channels.len()
            invariant
                c <= universe.channels@.len(),
                artnet_manager.wf(),
                1 <= ticks <= MAX_FADE_TICKS,
                universe == lights@[u as int],
                u < lights@.len(),
                hyp == spec_fade_lights_equal_target(lights, target, artnet_manager),
                forall|q: int|
                    0 <= q < channel_states@.len() ==> (#[trigger] channel_states@[q]).wf(
                        ticks as int,
                        0,
                    ),
                hyp ==> forall|q: int|
                    0 <= q < channel_states@.len() ==> (
                    #[trigger] channel_states@[q]).value.spec_all_equal(),
                forall|q: int|
                    0 <= q < channel_states@.len() ==> {
                        let cs = (#[trigger] channel_states@[q]);
                        &&& artnet_manager.universes@.contains_key(universe.universe_id@)
                        &&& artnet_manager.universes@[universe.universe_id@].spec_channels_valid(
                            cs.channel,
                        )
                        &&& spec_start_value(&cs.value) == Universe::spec_read(
                            artnet_manager.universes@[universe.universe_id@].packet_bytes@,
                            cs.channel,
                        )
                        &&& Some(spec_target_value(&cs.value)) == target.spec_get(cs.channel)
                    },
            decreases universe.channels@.len() - c,
        {
            let channel = &universe.channels[c];
            proof {
                if hyp {
                    assert(lights@[u as int].channels@[c as int] == *channel);
                }
            }
            let current = match artnet_manager.get_channel(universe.universe_id.as_str(), channel) {
                Ok(cv) => cv,
                Err(e) => {
                    proof {
                        if hyp {
                            assert(false);
                        }
                    }
                    return Err(e);
                },
            };
            proof {
                if hyp {
                    assert(current.value == super::universe::Universe::spec_read(
                        artnet_manager.universes@[universe.universe_id@].packet_bytes@,
                        *channel,
                    ));
                }
            }
            match current.value {
                DimmerValue::Rgb(cur_r, cur_g, cur_b) => {
                    if let Some((tr, tg, tb)) = target.rgb {
                        proof {
                            if hyp {
                                assert(target.spec_get(*channel) == Some(
                                    DimmerValue::Rgb(tr, tg, tb),
                                ));
                                assert(cur_r == tr && cur_g == tg && cur_b == tb);
                            }
                        }
                        channel_states.push(
                            FadeEffectChannelState {
                                channel: *channel,
                                value: FadeEffectDimmerState::Rgb(
                                    DmxChannelDelta::new(cur_r, tr, ticks),
                                    DmxChannelDelta::new(cur_g, tg, ticks),
                                    DmxChannelDelta::new(cur_b, tb, ticks),
                                ),
                            },
                        );
                    }
                },
                DimmerValue::TriWhite(cur_1, cur_2, cur_3) => {
                    if let Some((t1, t2, t3)) = target.tri_white {
                        proof {
                            if hyp {
                                assert(target.spec_get(*channel) == Some(
                                    DimmerValue::TriWhite(t1, t2, t3),
                                ));
                                assert(cur_1 == t1 && cur_2 == t2 && cur_3 == t3);
                            }
                        }
                        channel_states.push(
                            FadeEffectChannelState {
                                channel: *channel,
                                value: FadeEffectDimmerState::TriWhite(
                                    DmxChannelDelta::new(cur_1, t1, ticks),
                                    DmxChannelDelta::new(cur_2, t2, ticks),
                                    DmxChannelDelta::new(cur_3, t3, ticks),
                                ),
                            },
                        );
                    }
                },
                DimmerValue::Single(cur) => {
                    if let Some(t) = target.single {
                        proof {
                            if hyp {
                                assert(target.spec_get(*channel) == Some(DimmerValue::Single(t)));
                                assert(cur == t);
                            }
                        }
                        channel_states.push(
                            FadeEffectChannelState {
                                channel: *channel,
                                value: FadeEffectDimmerState::Single(
                                    DmxChannelDelta::new(cur, t, ticks),
                                ),
                            },
                        );
                    }
                },
            }
            c = c + 1;
        }
        universe_states.push(
            FadeEffectUniverseState {
                universe_id: universe.universe_id.clone(),
                channel_states,
            },
        );
        u = u + 1;
    }
    Ok(FadeEffectState { universe_states })
}

} // verus!
