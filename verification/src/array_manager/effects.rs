//! Effect compilation: turning effect-tree definitions into runtime nodes,
//! with variables and light groups resolved at compile time.

use vstd::prelude::*;

use super::error::DmxArrayError;
use super::manager::ArrayManager;
use super::scope::Scope;
use crate::artnet_manager::fade::MAX_FADE_TICKS;
use crate::artnet_manager::runtime_nodes::{
    DelayEffectNode, EffectNodeRuntime, FadeEffectNode, ParallelEffectNode, SequenceEffectNode,
};
use crate::defs::{
    DelayEffectNodeDefinition, EffectNodeDefinition, EffectUsage, FadeEffectNodeDefinition,
    NumberOrVariable, ParallelEffectNodeDefinition, SequenceEffectNodeDefinition, TargetValue,
    DIMMING_AMOUNT_MAX,
};
use super::values::{spec_expand_values, symbols_view, ExpandOutcome};
use crate::strutil::{all_digits, spec_parse_uint, spec_uint_digits};

verus! {

/// The message text a decimal that fails to parse produces: empty input,
/// a value beyond the target type, or a stray character.
pub open spec fn spec_uint_failure_message(ex: Seq<char>) -> Seq<char> {
    if ex.len() == 0 {
        "cannot parse integer from empty string"@
    } else if spec_uint_digits(ex).len() > 0 && all_digits(spec_uint_digits(ex)) {
        "number too large to fit in target type"@
    } else {
        "invalid digit found in string"@
    }
}

impl NumberOrVariable {
    /// The concrete number: a literal as it stands; a variable expanded and
    /// then parsed as a decimal, with expansion failures passed through and
    /// a parse failure reported as a value error naming the parameter.
    pub fn get_value(
        &self,
        array_manager: &ArrayManager,
        scope: &Scope,
        description: &str,
    ) -> (r: Result<usize, DmxArrayError>)
        requires
            array_manager.wf(),
        ensures
            match self {
                NumberOrVariable::Number(n) => r == Ok::<usize, DmxArrayError>(*n),
                NumberOrVariable::Variable(s) => match spec_expand_values(
                    array_manager.arrays@.contains_key(scope.array_id@),
                    array_manager.spec_array_values(scope.array_id@),
                    symbols_view(&array_manager.global_values),
                    s@,
                ) {
                    ExpandOutcome::Done(ex) => match spec_parse_uint(ex, usize::MAX as int) {
                        Some(v) => (r matches Ok(n) && n as int == v),
                        None => (r matches Err(DmxArrayError::ValueError(_, what, msg)) && what@
                            == description@ && msg@ == spec_uint_failure_message(ex)),
                    },
                    ExpandOutcome::NoArray => (r matches Err(DmxArrayError::ArrayNotFound(id))
                        && id@ == scope.array_id@),
                    ExpandOutcome::Missing(name) => (r matches Err(
                        DmxArrayError::ArrayValueNotFound(a, v, nm),
                    ) && a@ == scope.array_id@ && v@ == s@ && nm@ == name),
                    ExpandOutcome::Unterminated => (r matches Err(
                        DmxArrayError::ValueExpressionNotTerminated(a, v),
                    ) && a@ == scope.array_id@ && v@ == s@),
                },
            },
    {
        match self {
            NumberOrVariable::Number(n) => Ok(*n),
            NumberOrVariable::Variable(s) => {
                let value = match array_manager.expand_values(scope.array_id.as_str(), s.as_str())
                {
                    Ok(v) => v,
                    Err(e) => {
                        return Err(e);
                    },
                };
                let chars = crate::strutil::chars_of(value.as_str());
                proof {
                    assert(chars@.subrange(0, chars@.len() as int) =~= chars@);
                }
                match crate::strutil::parse_uint_range(&chars, 0, chars.len(), usize::MAX as u64) {
                    Some(n) => Ok(n as usize),
                    None => {
                        let mut msg = String::new();
                        if chars.len() == 0 {
                            msg.append("cannot parse integer from empty string");
                        } else {
                            let start: usize = if chars[0] == '+' {
                                1
                            } else {
                                0
                            };
                            let mut all: bool = chars.len() > start;
                            let mut i = start;
                            while i < chars.len()
                                invariant
                                    start <= i <= chars@.len(),
                                    all == (chars@.len() > start && all_digits(
                                        chars@.subrange(start as int, i as int),
                                    )),
                                decreases chars@.len() - i,
                            {
                                let c = chars[i];
                                proof {
                                    let pre = chars@.subrange(start as int, i + 1);
                                    assert(pre.drop_last() =~= chars@.subrange(
                                        start as int,
                                        i as int,
                                    ));
                                    assert(pre.last() == c);
                                    assert(forall|q: int|
                                        0 <= q < pre.len() - 1 ==> pre[q] == chars@.subrange(
                                            start as int,
                                            i as int,
                                        )[q]);
                                }
                                if !('0' <= c && c <= '9') {
                                    all = false;
                                }
                                i = i + 1;
                            }
                            proof {
                                assert(chars@.subrange(start as int, chars@.len() as int)
                                    =~= spec_uint_digits(chars@));
                            }
                            if all {
                                msg.append("number too large to fit in target type");
                            } else {
                                msg.append("invalid digit found in string");
                            }
                        }
                        Err(
                            DmxArrayError::ValueError(
                                scope.description(array_manager),
                                description.to_owned(),
                                msg,
                            ),
                        )
                    },
                }
            },
        }
    }
}

/// The number a `NumberOrVariable` resolves to: the literal, or the
/// expanded text parsed as a decimal.
pub open spec fn spec_ticks_value(
    ticks: &NumberOrVariable,
    array_manager: &ArrayManager,
    array_id: Seq<char>,
) -> Option<int> {
    match ticks {
        NumberOrVariable::Number(n) => Some(*n as int),
        NumberOrVariable::Variable(s) => match spec_expand_values(
            array_manager.arrays@.contains_key(array_id),
            array_manager.spec_array_values(array_id),
            symbols_view(&array_manager.global_values),
            s@,
        ) {
            ExpandOutcome::Done(ex) => spec_parse_uint(ex, usize::MAX as int),
            _ => None,
        },
    }
}

/// Whether every stage of compiling a definition succeeds: variables
/// expand, tick counts parse and stay within the fade bound, lights
/// expressions expand, and targets parse; for sequences and parallels,
/// every child compiles.
pub open spec fn spec_compilable(
    def: &EffectNodeDefinition,
    array_manager: &ArrayManager,
    array_id: Seq<char>,
) -> bool
    decreases def,
{
    match def {
        EffectNodeDefinition::Sequence(node) => forall|i: int|
            0 <= i < node.nodes@.len() ==> spec_compilable(
                &(#[trigger] node.nodes@[i]),
                array_manager,
                array_id,
            ),
        EffectNodeDefinition::Parallel(node) => forall|i: int|
            0 <= i < node.nodes@.len() ==> spec_compilable(
                &(#[trigger] node.nodes@[i]),
                array_manager,
                array_id,
            ),
        EffectNodeDefinition::Delay(node) => spec_ticks_value(
            &node.ticks,
            array_manager,
            array_id,
        ) is Some,
        EffectNodeDefinition::Fade(node) => {
            let has = array_manager.arrays@.contains_key(array_id);
            let av = array_manager.spec_array_values(array_id);
            let gv = symbols_view(&array_manager.global_values);
            &&& (spec_expand_values(has, av, gv, node.lights@) matches ExpandOutcome::Done(ls)
                && has && super::lights::spec_expand_lights(
                super::manager::lights_view(&array_manager.arrays@[array_id]),
                ls,
                array_manager.arrays@[array_id].universe_id@,
            ) is Flat)
            &&& (spec_ticks_value(&node.ticks, array_manager, array_id) matches Some(v) && v
                <= MAX_FADE_TICKS as int)
            &&& (spec_expand_values(has, av, gv, node.target@) matches ExpandOutcome::Done(ts)
                && crate::dmx::spec_parse_target_value(ts) is Ok)
        },
    }
}

/// Whether a runtime node is the compiled form of a definition: delays and
/// fades carry their resolved values, sequences and parallels correspond
/// child for child and start at the beginning.
pub open spec fn spec_compiled_matches(
    def: &EffectNodeDefinition,
    node: &EffectNodeRuntime,
    array_manager: &ArrayManager,
    array_id: Seq<char>,
    dimming_amount: int,
) -> bool
    decreases def,
{
    match def {
        EffectNodeDefinition::Sequence(d) => (node matches EffectNodeRuntime::Sequence(s)
            && s.current_node == 0 && s.nodes@.len() == d.nodes@.len() && forall|i: int|
            0 <= i < d.nodes@.len() ==> spec_compiled_matches(
                &(#[trigger] d.nodes@[i]),
                &s.nodes@[i],
                array_manager,
                array_id,
                dimming_amount,
            )),
        EffectNodeDefinition::Parallel(d) => (node matches EffectNodeRuntime::Parallel(p)
            && p.nodes@.len() == d.nodes@.len() && forall|i: int|
            0 <= i < d.nodes@.len() ==> spec_compiled_matches(
                &(#[trigger] d.nodes@[i]),
                &p.nodes@[i],
                array_manager,
                array_id,
                dimming_amount,
            )),
        EffectNodeDefinition::Delay(d) => (node matches EffectNodeRuntime::Delay(dn)
            && dn.current_tick == 0 && Some(dn.ticks as int) == spec_ticks_value(
            &d.ticks,
            array_manager,
            array_id,
        )),
        EffectNodeDefinition::Fade(d) => (node matches EffectNodeRuntime::Fade(f) && {
            let has = array_manager.arrays@.contains_key(array_id);
            let av = array_manager.spec_array_values(array_id);
            let gv = symbols_view(&array_manager.global_values);
            &&& f.current_tick == 0
            &&& f.state is None
            &&& f.ticks <= MAX_FADE_TICKS
            &&& Some(f.ticks as int) == spec_ticks_value(&d.ticks, array_manager, array_id)
            &&& (spec_expand_values(has, av, gv, d.lights@) matches ExpandOutcome::Done(ls)
                && (super::lights::spec_expand_lights(
                super::manager::lights_view(&array_manager.arrays@[array_id]),
                ls,
                array_manager.arrays@[array_id].universe_id@,
            ) matches super::lights::LightsOutcome::Flat(flat) && f.lights@.map_values(
                |u: crate::dmx::UniverseChannelDefinitions| (u.universe_id@, u.channels@),
            ) == super::lights::spec_group_flat(flat)))
            &&& (spec_expand_values(has, av, gv, d.target@) matches ExpandOutcome::Done(ts)
                && (crate::dmx::spec_parse_target_value(ts) matches Ok(tv) && f.target
                == tv.spec_dimmed(
                if d.no_dimming {
                    DIMMING_AMOUNT_MAX as int
                } else {
                    dimming_amount
                },
            )))
        }),
    }
}

impl EffectNodeDefinition {
    /// Compiles a definition tree into a runtime node. Variables and light
    /// groups are resolved now; the returned node is well formed and ready
    /// to run from its first tick.
    pub fn get_runtime_node(&self, array_manager: &ArrayManager, scope: &Scope) -> (r: Result<
        EffectNodeRuntime,
        DmxArrayError,
    >)
        requires
            array_manager.wf(),
            scope.wf(),
        ensures
            r is Ok <==> spec_compilable(self, array_manager, scope.array_id@),
            r is Ok ==> r->Ok_0.wf() && spec_compiled_matches(
                self,
                &r->Ok_0,
                array_manager,
                scope.array_id@,
                scope.dimming_amount as int,
            ),
        decreases self,
    {
        match self {
            EffectNodeDefinition::Sequence(node) => node.get_runtime_node(array_manager, scope),
            EffectNodeDefinition::Parallel(node) => node.get_runtime_node(array_manager, scope),
            EffectNodeDefinition::Delay(node) => node.get_runtime_node(array_manager, scope),
            EffectNodeDefinition::Fade(node) => node.get_runtime_node(array_manager, scope),
        }
    }
}

impl SequenceEffectNodeDefinition {
    /// Compiles each child in order; the sequence starts at the first.
    pub fn get_runtime_node(&self, array_manager: &ArrayManager, scope: &Scope) -> (r: Result<
        EffectNodeRuntime,
        DmxArrayError,
    >)
        requires
            array_manager.wf(),
            scope.wf(),
        ensures
            r is Ok <==> spec_compilable(
                &EffectNodeDefinition::Sequence(*self),
                array_manager,
                scope.array_id@,
            ),
            r is Ok ==> r->Ok_0.wf() && spec_compiled_matches(
                &EffectNodeDefinition::Sequence(*self),
                &r->Ok_0,
                array_manager,
                scope.array_id@,
                scope.dimming_amount as int,
            ),
        decreases self,
    {
        let ghost self0 = self;
        let mut nodes: Vec<EffectNodeRuntime> = Vec::new();
        let mut i: usize = 0;
        while i < self.nodes.len()
            invariant
                i <= self.nodes@.len(),
                self0 == self,
                array_manager.wf(),
                scope.wf(),
                nodes@.len() == i,
                forall|j: int| 0 <= j < nodes@.len() ==> (#[trigger] nodes@[j]).wf(),
                forall|j: int|
                    0 <= j < i ==> spec_compilable(
                        &(#[trigger] self.nodes@[j]),
                        array_manager,
                        scope.array_id@,
                    ),
                forall|j: int|
                    0 <= j < i ==> spec_compiled_matches(
                        &(#[trigger] self.nodes@[j]),
                        &nodes@[j],
                        array_manager,
                        scope.array_id@,
                        scope.dimming_amount as int,
                    ),
            decreases self.nodes@.len() - i,
        {
            proof {
                assert(decreases_to!(self0 => self0.nodes));
                assert(decreases_to!(self0.nodes => self0.nodes@));
                assert(decreases_to!(self0.nodes@ => self0.nodes@[i as int]));
                assert(decreases_to!(self0 => self0.nodes@[i as int]));
            }
            match self.nodes[i].get_runtime_node(array_manager, scope) {
                Ok(node) => {
                    proof {
                        assert(spec_compilable(
                            &self.nodes@[i as int],
                            array_manager,
                            scope.array_id@,
                        ));
                        assert(spec_compiled_matches(
                            &self.nodes@[i as int],
                            &node,
                            array_manager,
                            scope.array_id@,
                            scope.dimming_amount as int,
                        ));
                    }
                    nodes.push(node);
                    i = i + 1;
                },
                Err(e) => {
                    proof {
                        assert(!spec_compilable(
                            &self.nodes@[i as int],
                            array_manager,
                            scope.array_id@,
                        ));
                        let def = EffectNodeDefinition::Sequence(*self);
                        assert(!spec_compilable(&def, array_manager, scope.array_id@)) by {
                            if spec_compilable(&def, array_manager, scope.array_id@) {
                                assert(def->Sequence_0.nodes@[i as int] == self.nodes@[i as int]);
                                assert(spec_compilable(
                                    &def->Sequence_0.nodes@[i as int],
                                    array_manager,
                                    scope.array_id@,
                                ));
                            }
                        }
                    }
                    return Err(e);
                },
            }
        }
        let result = EffectNodeRuntime::Sequence(SequenceEffectNode { nodes, current_node: 0 });
        proof {
            let def = EffectNodeDefinition::Sequence(*self);
            assert forall|i2: int| 0 <= i2 < def->Sequence_0.nodes@.len() implies spec_compilable(
                &(#[trigger] def->Sequence_0.nodes@[i2]),
                array_manager,
                scope.array_id@,
            ) by {
                assert(def->Sequence_0.nodes@[i2] == self.nodes@[i2]);
            }
            assert(spec_compilable(&def, array_manager, scope.array_id@));
            let s = result->Sequence_0;
            assert forall|i2: int|
                0 <= i2 < def->Sequence_0.nodes@.len() implies spec_compiled_matches(
                &(#[trigger] def->Sequence_0.nodes@[i2]),
                &s.nodes@[i2],
                array_manager,
                scope.array_id@,
                scope.dimming_amount as int,
            ) by {
                assert(def->Sequence_0.nodes@[i2] == self.nodes@[i2]);
                assert(s.nodes@[i2] == nodes@[i2]);
            }
            assert(spec_compiled_matches(
                &def,
                &result,
                array_manager,
                scope.array_id@,
                scope.dimming_amount as int,
            ));
        }
        Ok(result)
    }
}

impl ParallelEffectNodeDefinition {
    /// Compiles each child; all run together.
    pub fn get_runtime_node(&self, array_manager: &ArrayManager, scope: &Scope) -> (r: Result<
        EffectNodeRuntime,
        DmxArrayError,
    >)
        requires
            array_manager.wf(),
            scope.wf(),
        ensures
            r is Ok <==> spec_compilable(
                &EffectNodeDefinition::Parallel(*self),
                array_manager,
                scope.array_id@,
            ),
            r is Ok ==> r->Ok_0.wf() && spec_compiled_matches(
                &EffectNodeDefinition::Parallel(*self),
                &r->Ok_0,
                array_manager,
                scope.array_id@,
                scope.dimming_amount as int,
            ),
        decreases self,
    {
        let ghost self0 = self;
        let mut nodes: Vec<EffectNodeRuntime> = Vec::new();
        let mut i: usize = 0;
        while i < self.nodes.len()
            invariant
                i <= self.nodes@.len(),
                self0 == self,
                array_manager.wf(),
                scope.wf(),
                nodes@.len() == i,
                forall|j: int| 0 <= j < nodes@.len() ==> (#[trigger] nodes@[j]).wf(),
                forall|j: int|
                    0 <= j < i ==> spec_compilable(
                        &(#[trigger] self.nodes@[j]),
                        array_manager,
                        scope.array_id@,
                    ),
                forall|j: int|
                    0 <= j < i ==> spec_compiled_matches(
                        &(#[trigger] self.nodes@[j]),
                        &nodes@[j],
                        array_manager,
                        scope.array_id@,
                        scope.dimming_amount as int,
                    ),
            decreases self.nodes@.len() - i,
        {
            proof {
                assert(decreases_to!(self0 => self0.nodes));
                assert(decreases_to!(self0.nodes => self0.nodes@));
                assert(decreases_to!(self0.nodes@ => self0.nodes@[i as int]));
                assert(decreases_to!(self0 => self0.nodes@[i as int]));
            }
            match self.nodes[i].get_runtime_node(array_manager, scope) {
                Ok(node) => {
                    proof {
                        assert(spec_compilable(
                            &self.nodes@[i as int],
                            array_manager,
                            scope.array_id@,
                        ));
                        assert(spec_compiled_matches(
                            &self.nodes@[i as int],
                            &node,
                            array_manager,
                            scope.array_id@,
                            scope.dimming_amount as int,
                        ));
                    }
                    nodes.push(node);
                    i = i + 1;
                },
                Err(e) => {
                    proof {
                        assert(!spec_compilable(
                            &self.nodes@[i as int],
                            array_manager,
                            scope.array_id@,
                        ));
                        let def = EffectNodeDefinition::Parallel(*self);
                        assert(!spec_compilable(&def, array_manager, scope.array_id@)) by {
                            if spec_compilable(&def, array_manager, scope.array_id@) {
                                assert(def->Parallel_0.nodes@[i as int] == self.nodes@[i as int]);
                                assert(spec_compilable(
                                    &def->Parallel_0.nodes@[i as int],
                                    array_manager,
                                    scope.array_id@,
                                ));
                            }
                        }
                    }
                    return Err(e);
                },
            }
        }
        let result = EffectNodeRuntime::Parallel(ParallelEffectNode { nodes });
        proof {
            let def = EffectNodeDefinition::Parallel(*self);
            assert forall|i2: int| 0 <= i2 < def->Parallel_0.nodes@.len() implies spec_compilable(
                &(#[trigger] def->Parallel_0.nodes@[i2]),
                array_manager,
                scope.array_id@,
            ) by {
                assert(def->Parallel_0.nodes@[i2] == self.nodes@[i2]);
            }
            assert(spec_compilable(&def, array_manager, scope.array_id@));
            let pn = result->Parallel_0;
            assert forall|i2: int|
                0 <= i2 < def->Parallel_0.nodes@.len() implies spec_compiled_matches(
                &(#[trigger] def->Parallel_0.nodes@[i2]),
                &pn.nodes@[i2],
                array_manager,
                scope.array_id@,
                scope.dimming_amount as int,
            ) by {
                assert(def->Parallel_0.nodes@[i2] == self.nodes@[i2]);
                assert(pn.nodes@[i2] == nodes@[i2]);
            }
            assert(spec_compiled_matches(
                &def,
                &result,
                array_manager,
                scope.array_id@,
                scope.dimming_amount as int,
            ));
        }
        Ok(result)
    }
}

impl DelayEffectNodeDefinition {
    /// A delay counts its resolved tick count from zero.
    pub fn get_runtime_node(&self, array_manager: &ArrayManager, scope: &Scope) -> (r: Result<
        EffectNodeRuntime,
        DmxArrayError,
    >)
        requires
            array_manager.wf(),
            scope.wf(),
        ensures
            r is Ok <==> spec_compilable(
                &EffectNodeDefinition::Delay(*self),
                array_manager,
                scope.array_id@,
            ),
            r is Ok ==> r->Ok_0.wf() && spec_compiled_matches(
                &EffectNodeDefinition::Delay(*self),
                &r->Ok_0,
                array_manager,
                scope.array_id@,
                scope.dimming_amount as int,
            ),
    {
        let ticks = match self.ticks.get_value(array_manager, scope, "delay ticks parameter") {
            Ok(t) => t,
            Err(e) => {
                return Err(e);
            },
        };
        Ok(EffectNodeRuntime::Delay(DelayEffectNode { ticks, current_tick: 0 }))
    }
}

impl FadeEffectNodeDefinition {
    /// A fade resolves its lights, tick count and target now; the dimming
    /// amount scales the target unless the definition opts out.
    pub fn get_runtime_node(&self, array_manager: &ArrayManager, scope: &Scope) -> (r: Result<
        EffectNodeRuntime,
        DmxArrayError,
    >)
        requires
            array_manager.wf(),
            scope.wf(),
        ensures
            r is Ok <==> spec_compilable(
                &EffectNodeDefinition::Fade(*self),
                array_manager,
                scope.array_id@,
            ),
            r is Ok ==> r->Ok_0.wf() && spec_compiled_matches(
                &EffectNodeDefinition::Fade(*self),
                &r->Ok_0,
                array_manager,
                scope.array_id@,
                scope.dimming_amount as int,
            ),
    {
        let lights_list = match scope.expand_values(array_manager, self.lights.as_str()) {
            Ok(l) => l,
            Err(e) => {
                return Err(e);
            },
        };
        let lights = match scope.get_light_channels(array_manager, lights_list.as_str()) {
            Ok(l) => l,
            Err(e) => {
                return Err(e);
            },
        };
        let ticks = match self.ticks.get_value(array_manager, scope, "fade ticks parameter") {
            Ok(t) => t,
            Err(e) => {
                return Err(e);
            },
        };
        if ticks > MAX_FADE_TICKS {
            let mut msg = String::new();
            msg.append("number too large to fit in target type");
            return Err(
                DmxArrayError::ValueError(
                    scope.description(array_manager),
                    "fade ticks parameter".to_owned(),
                    msg,
                ),
            );
        }
        let target_string = match scope.expand_values(array_manager, self.target.as_str()) {
            Ok(t) => t,
            Err(e) => {
                return Err(e);
            },
        };
        let target = match TargetValue::parse(target_string.as_str()) {
            Ok(t) => t,
            Err(e) => {
                return Err(
                    DmxArrayError::ValueError(
                        scope.description(array_manager),
                        "fade target parameter".to_owned(),
                        e.message(),
                    ),
                );
            },
        };
        let target = target.get_dimmed_value(
            if self.no_dimming {
                DIMMING_AMOUNT_MAX
            } else {
                scope.dimming_amount
            },
        );
        Ok(
            EffectNodeRuntime::Fade(
                FadeEffectNode { lights, ticks, current_tick: 0, target, state: None },
            ),
        )
    }
}

impl ArrayManager {
    /// The effect definition an id names: the array's own effects first,
    /// then the global ones.
    pub fn get_effect_definition(&self, array_id: &str, effect_id: &str) -> (r: Result<
        Option<&EffectNodeDefinition>,
        DmxArrayError,
    >)
        requires
            self.wf(),
        ensures
            match r {
                Ok(Some(def)) => self.arrays@.contains_key(array_id@) && ((
                self.arrays@[array_id@].effects@.contains_key(effect_id@)
                    && *def == self.arrays@[array_id@].effects@[effect_id@]) || (
                !self.arrays@[array_id@].effects@.contains_key(effect_id@)
                    && self.effects@.contains_key(effect_id@) && *def
                    == self.effects@[effect_id@])),
                Ok(None) => self.arrays@.contains_key(array_id@)
                    && !self.arrays@[array_id@].effects@.contains_key(effect_id@)
                    && !self.effects@.contains_key(effect_id@),
                Err(DmxArrayError::ArrayNotFound(id)) => !self.arrays@.contains_key(array_id@)
                    && id@ == array_id@,
                Err(_) => false,
            },
    {
        let array = match self.arrays.get(array_id) {
            Some(a) => a,
            None => {
                return Err(DmxArrayError::ArrayNotFound(array_id.to_owned()));
            },
        };
        match array.effects.get(effect_id) {
            Some(def) => Ok(Some(def)),
            None => Ok(self.effects.get(effect_id)),
        }
    }

    /// The effect id a usage resolves to: the requested id, or the array's
    /// default for that usage.
    pub fn get_usage_effect_id(
        &self,
        usage: &EffectUsage,
        array_id: &str,
        effect_id: Option<&String>,
    ) -> (r: Result<String, DmxArrayError>)
        requires
            self.wf(),
        ensures
            match r {
                Ok(id) => match effect_id {
                    Some(e) => id@ == e@,
                    None => self.arrays@.contains_key(array_id@) && id@ == (match usage {
                        EffectUsage::On => self.arrays@[array_id@].on@,
                        EffectUsage::Off => self.arrays@[array_id@].off@,
                        EffectUsage::Dim => self.arrays@[array_id@].dim@,
                    }),
                },
                Err(DmxArrayError::ArrayNotFound(id)) => effect_id is None
                    && !self.arrays@.contains_key(array_id@) && id@ == array_id@,
                Err(_) => false,
            },
    {
        if let Some(effect_id) = effect_id {
            return Ok(effect_id.clone());
        }
        let array = match self.arrays.get(array_id) {
            Some(a) => a,
            None => {
                return Err(DmxArrayError::ArrayNotFound(array_id.to_owned()));
            },
        };
        match usage {
            EffectUsage::On => Ok(array.on.clone()),
            EffectUsage::Off => Ok(array.off.clone()),
            EffectUsage::Dim => Ok(array.dim.clone()),
        }
    }

    /// The effect id a stored array resolves a usage to, when no explicit
    /// id was given.
    pub open spec fn spec_default_effect_id(&self, usage: EffectUsage, array_id: Seq<char>) -> Seq<
        char,
    > {
        match usage {
            EffectUsage::On => self.arrays@[array_id].on@,
            EffectUsage::Off => self.arrays@[array_id].off@,
            EffectUsage::Dim => self.arrays@[array_id].dim@,
        }
    }

    /// The definition a usage resolves to: the named or default effect id,
    /// looked up in the array's effects, then the global effects, then the
    /// built-in default for the usage when the array's default id names it.
    pub fn get_usage_effect_definition(
        &self,
        usage: &EffectUsage,
        array_id: &str,
        effect_id: Option<&String>,
    ) -> (r: Result<&EffectNodeDefinition, DmxArrayError>)
        requires
            self.wf(),
        ensures
            ({
                let a = self.arrays@[array_id@];
                let rid = match effect_id {
                    Some(e) => e@,
                    None => self.spec_default_effect_id(*usage, array_id@),
                };
                match r {
                    Ok(def) => self.arrays@.contains_key(array_id@) && {
                        ||| (a.effects@.contains_key(rid) && *def == a.effects@[rid])
                        ||| (!a.effects@.contains_key(rid) && self.effects@.contains_key(rid)
                            && *def == self.effects@[rid])
                        ||| (!a.effects@.contains_key(rid) && !self.effects@.contains_key(rid) && {
                            ||| (usage is On && rid == a.on@ && *def == self.default_on_effect)
                            ||| (usage is Off && rid == a.off@ && *def == self.default_off_effect)
                            ||| (usage is Dim && rid == a.dim@ && *def == self.default_dim_effect)
                        })
                    },
                    Err(e) => match e {
                        DmxArrayError::ArrayNotFound(id) => !self.arrays@.contains_key(array_id@)
                            && id@ == array_id@,
                        DmxArrayError::EffectNotFound(_, eid) => {
                            &&& self.arrays@.contains_key(array_id@)
                            &&& eid@ == rid
                            &&& !a.effects@.contains_key(rid)
                            &&& !self.effects@.contains_key(rid)
                            &&& rid != self.spec_default_effect_id(*usage, array_id@)
                        },
                        _ => false,
                    },
                }
            }),
    {
        let resolved = match self.get_usage_effect_id(usage, array_id, effect_id) {
            Ok(id) => id,
            Err(e) => {
                return Err(e);
            },
        };
        let array = match self.arrays.get(array_id) {
            Some(a) => a,
            None => {
                return Err(DmxArrayError::ArrayNotFound(array_id.to_owned()));
            },
        };
        match self.get_effect_definition(array_id, resolved.as_str()) {
            Ok(Some(def)) => Ok(def),
            Ok(None) => {
                // Fall back to the built-in default when the array's own
                // default id for this usage is the one being resolved.
                let fallback: Option<&EffectNodeDefinition> = match usage {
                    EffectUsage::On => {
                        if crate::strutil::str_eq(resolved.as_str(), array.on.as_str()) {
                            Some(&self.default_on_effect)
                        } else {
                            None
                        }
                    },
                    EffectUsage::Off => {
                        if crate::strutil::str_eq(resolved.as_str(), array.off.as_str()) {
                            Some(&self.default_off_effect)
                        } else {
                            None
                        }
                    },
                    EffectUsage::Dim => {
                        if crate::strutil::str_eq(resolved.as_str(), array.dim.as_str()) {
                            Some(&self.default_dim_effect)
                        } else {
                            None
                        }
                    },
                };
                match fallback {
                    Some(def) => Ok(def),
                    None => {
                        let mut described = String::new();
                        described.append(array_id);
                        described.append(" (");
                        described.append(array.description.as_str());
                        described.append(")");
                        Err(DmxArrayError::EffectNotFound(described, resolved))
                    },
                }
            },
            Err(e) => Err(e),
        }
    }

    /// The definition an effect id resolves to: the array's effects, then
    /// the global effects, then the built-in default for the usage when the
    /// array's own default id names it.
    pub open spec fn spec_resolved_definition(
        &self,
        usage: EffectUsage,
        array_id: Seq<char>,
        rid: Seq<char>,
    ) -> Option<EffectNodeDefinition> {
        if !self.arrays@.contains_key(array_id) {
            None
        } else {
            let a = self.arrays@[array_id];
            if a.effects@.contains_key(rid) {
                Some(a.effects@[rid])
            } else if self.effects@.contains_key(rid) {
                Some(self.effects@[rid])
            } else if usage is On && rid == a.on@ {
                Some(self.default_on_effect)
            } else if usage is Off && rid == a.off@ {
                Some(self.default_off_effect)
            } else if usage is Dim && rid == a.dim@ {
                Some(self.default_dim_effect)
            } else {
                None
            }
        }
    }

    /// Compiles the effect a usage resolves to, in a scope carrying the
    /// array, the requested effect id and the dimming amount (clamped to
    /// its maximum). Succeeds exactly when the id resolves to a definition
    /// and every stage of compiling it succeeds.
    pub fn get_usage_effect_runtime(
        &self,
        usage: &EffectUsage,
        array_id: &str,
        effect_id: Option<&String>,
        dimming_amount: usize,
    ) -> (r: Result<EffectNodeRuntime, DmxArrayError>)
        requires
            self.wf(),
        ensures
            ({
                let rid = match effect_id {
                    Some(e) => e@,
                    None => self.spec_default_effect_id(*usage, array_id@),
                };
                let clamped: int = if dimming_amount > crate::defs::DIMMING_AMOUNT_MAX {
                    crate::defs::DIMMING_AMOUNT_MAX as int
                } else {
                    dimming_amount as int
                };
                match r {
                    Ok(node) => {
                        &&& self.arrays@.contains_key(array_id@)
                        &&& (self.spec_resolved_definition(*usage, array_id@, rid) matches Some(def)
                            && spec_compilable(&def, self, array_id@) && node.wf()
                            && spec_compiled_matches(&def, &node, self, array_id@, clamped))
                    },
                    Err(_) => !(self.arrays@.contains_key(array_id@)
                        && (self.spec_resolved_definition(*usage, array_id@, rid) matches Some(def)
                        && spec_compilable(&def, self, array_id@))),
                }
            }),
    {
        let ghost rid = match effect_id {
            Some(e) => e@,
            None => self.spec_default_effect_id(*usage, array_id@),
        };
        let definition = match self.get_usage_effect_definition(usage, array_id, effect_id) {
            Ok(d) => d,
            Err(e) => {
                proof {
                    assert(!(self.arrays@.contains_key(array_id@)
                        && self.spec_resolved_definition(*usage, array_id@, rid) is Some));
                }
                return Err(e);
            },
        };
        proof {
            assert(self.spec_resolved_definition(*usage, array_id@, rid) == Some(*definition));
        }
        let scope = match Scope::new(self, array_id.to_owned(), effect_id, dimming_amount) {
            Ok(s) => s,
            Err(e) => {
                return Err(e);
            },
        };
        definition.get_runtime_node(self, &scope)
    }
}

} // verus!
