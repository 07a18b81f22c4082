//! The array manager: arrays, effects and value symbol tables, with the
//! validation that guards them.

use vstd::prelude::*;

use super::error::{ChannelUsage, DmxArrayError};
use super::lights::{
    expand_entries, flat_views, group_flat, spec_expand_lights, spec_group_flat, LightsOutcome,
};
use super::values::{
    expand_values_chars, spec_expand_values, symbols_view, ExpandFailure, ExpandOutcome,
};
use super::verify::{
    lemma_check_usage_ok, spec_build_usage, spec_check_usage, spec_flat_usage_pairs,
    spec_usage_pairs, UsageCheck, UsageTable,
};
use crate::defs::{
    DmxArray, EffectNodeDefinition, FadeEffectNodeDefinition, NumberOrVariable, SymbolTable,
};
use crate::dmx::{ChannelDefinition, UniverseChannelDefinitions};
use crate::strmap::StrMap;
use crate::strutil::{chars_of, spec_split, split_chars};

verus! {

pub struct ArrayManager {
    pub arrays: StrMap<DmxArray>,
    pub effects: StrMap<EffectNodeDefinition>,
    pub global_values: SymbolTable,
    pub values: StrMap<SymbolTable>,
    pub default_on_effect: EffectNodeDefinition,
    pub default_off_effect: EffectNodeDefinition,
    pub default_dim_effect: EffectNodeDefinition,
}

/// The view of a lights table.
pub open spec fn lights_view(a: &DmxArray) -> Map<Seq<char>, Seq<char>> {
    a.lights@.map_values(|v: String| v@)
}

/// The lights expression that expands the whole array.
pub open spec fn spec_all_expr() -> Seq<char> {
    seq!['@', 'a', 'l', 'l']
}

/// An array passes validation when the `all` group expands, its usage map
/// builds without role conflicts, and every group's channels check against
/// it.
pub open spec fn spec_array_valid(a: &DmxArray) -> bool {
    &&& spec_expand_lights(lights_view(a), spec_all_expr(), a.universe_id@) is Flat
    &&& {
        let all_flat = spec_expand_lights(lights_view(a), spec_all_expr(), a.universe_id@)->Flat_0;
        &&& spec_build_usage(spec_flat_usage_pairs(all_flat), Map::empty()) is Ok
        &&& {
            let m = spec_build_usage(spec_flat_usage_pairs(all_flat), Map::empty())->Ok_0;
            forall|g: int|
                0 <= g < a.lights.spec_entries().len() ==> {
                    let expr = (#[trigger] a.lights.spec_entries()[g]).1@;
                    &&& spec_expand_lights(lights_view(a), expr, a.universe_id@) is Flat
                    &&& spec_check_usage(
                        spec_flat_usage_pairs(
                            spec_expand_lights(lights_view(a), expr, a.universe_id@)->Flat_0,
                        ),
                        m,
                    ) is Fine
                }
        }
    }
}

/// Whether an error is the right report for a failed expansion of `expr`
/// in array `a`: the variant matches the expansion outcome and carries the
/// array id, the rendered expansion stack and the offending piece.
pub open spec fn spec_lights_failure(
    a: &DmxArray,
    expr: Seq<char>,
    array_id: Seq<char>,
    e: &DmxArrayError,
) -> bool {
    let spec = spec_expand_lights(lights_view(a), expr, a.universe_id@);
    match e {
        DmxArrayError::ArrayLightsNotFound(aid, s, n) => (spec matches LightsOutcome::NotFound(
            st,
            sn,
        ) && aid@ == array_id && s@ == super::lights::spec_render_stack(st) && n@ == sn),
        DmxArrayError::ArrayLightsCircularReference(aid, s, l, en) => (spec matches
            LightsOutcome::Circular(st, sl, sen) && aid@ == array_id && s@
            == super::lights::spec_render_stack(st) && l@ == sl && en@ == sen),
        DmxArrayError::ArrayLightsInvalidChannelDefinition(aid, s, en) => (spec matches
            LightsOutcome::BadChannel(st, sen) && aid@ == array_id && s@
            == super::lights::spec_render_stack(st) && en@ == sen),
        _ => false,
    }
}

/// Whether an error is the right report for a failed validation of array
/// `a`: an expansion failure of the `all` group or of one of the array's
/// groups, a role conflict inside the `all` group, or a group channel that
/// conflicts with or is missing from the `all` usage map.
pub open spec fn spec_verify_failure(a: &DmxArray, array_id: Seq<char>, e: &DmxArrayError) -> bool {
    let all_spec = spec_expand_lights(lights_view(a), spec_all_expr(), a.universe_id@);
    match e {
        DmxArrayError::ArrayLightChannelUsageMismatch(aid, u, ch, have, want, g) => aid@
            == array_id && {
            ||| (g@ == "@all"@ && (all_spec matches LightsOutcome::Flat(af) && spec_build_usage(
                spec_flat_usage_pairs(af),
                Map::empty(),
            ) == Err::<
                Map<(Seq<char>, u16), ChannelUsage>,
                ((Seq<char>, u16), ChannelUsage, ChannelUsage),
            >(((u@, *ch), *have, *want))))
            ||| (exists|gi: int|
                0 <= gi < a.lights.spec_entries().len() && (#[trigger] a.lights.spec_entries()[
                    gi
                ]).0@ == g@ && (all_spec matches LightsOutcome::Flat(af) && spec_build_usage(
                    spec_flat_usage_pairs(af),
                    Map::empty(),
                ) matches Ok(m) && (spec_expand_lights(
                    lights_view(a),
                    a.lights.spec_entries()[gi].1@,
                    a.universe_id@,
                ) matches LightsOutcome::Flat(gf) && spec_check_usage(spec_flat_usage_pairs(gf), m)
                    == UsageCheck::Mismatch((u@, *ch), *have, *want))))
        },
        DmxArrayError::ArrayLightChannelNotInAllGroup(aid, u, ch, usage, g) => aid@ == array_id
            && exists|gi: int|
            0 <= gi < a.lights.spec_entries().len() && (#[trigger] a.lights.spec_entries()[gi]).0@
                == g@ && (all_spec matches LightsOutcome::Flat(af) && spec_build_usage(
                spec_flat_usage_pairs(af),
                Map::empty(),
            ) matches Ok(m) && (spec_expand_lights(
                lights_view(a),
                a.lights.spec_entries()[gi].1@,
                a.universe_id@,
            ) matches LightsOutcome::Flat(gf) && spec_check_usage(spec_flat_usage_pairs(gf), m)
                == UsageCheck::NotInAll((u@, *ch), *usage))),
        _ => {
            ||| spec_lights_failure(a, spec_all_expr(), array_id, e)
            ||| (exists|gi: int|
                0 <= gi < a.lights.spec_entries().len() && spec_lights_failure(
                    a,
                    (#[trigger] a.lights.spec_entries()[gi]).1@,
                    array_id,
                    e,
                ))
        },
    }
}

/// Every channel any group uses appears in the `all` usage map with the
/// identical role: validation guarantees it.
pub proof fn lemma_valid_array_groups_in_all(a: &DmxArray, g: int)
    requires
        spec_array_valid(a),
        0 <= g < a.lights.spec_entries().len(),
    ensures
        ({
            let all_flat = spec_expand_lights(
                lights_view(a),
                spec_all_expr(),
                a.universe_id@,
            )->Flat_0;
            let m = spec_build_usage(spec_flat_usage_pairs(all_flat), Map::empty())->Ok_0;
            let expr = a.lights.spec_entries()[g].1@;
            let flat = spec_expand_lights(lights_view(a), expr, a.universe_id@)->Flat_0;
            forall|p: int|
                0 <= p < spec_flat_usage_pairs(flat).len() ==> m.contains_key(
                    (#[trigger] spec_flat_usage_pairs(flat)[p]).0,
                ) && m[spec_flat_usage_pairs(flat)[p].0] == spec_flat_usage_pairs(flat)[p].1
        }),
{
    let all_flat = spec_expand_lights(lights_view(a), spec_all_expr(), a.universe_id@)->Flat_0;
    let m = spec_build_usage(spec_flat_usage_pairs(all_flat), Map::empty())->Ok_0;
    let expr = a.lights.spec_entries()[g].1@;
    let flat = spec_expand_lights(lights_view(a), expr, a.universe_id@)->Flat_0;
    lemma_check_usage_ok(spec_flat_usage_pairs(flat), m);
}

impl ArrayManager {
    pub open spec fn wf(&self) -> bool {
        &&& self.arrays.wf()
        &&& self.effects.wf()
        &&& self.global_values.wf()
        &&& self.values.wf()
        &&& forall|k: Seq<char>|
            self.arrays@.contains_key(k) ==> (#[trigger] self.arrays@[k]).wf()
        &&& forall|k: Seq<char>|
            self.values@.contains_key(k) ==> (#[trigger] self.values@[k]).wf()
        &&& forall|k: Seq<char>|
            self.arrays@.contains_key(k) ==> spec_array_valid(&(#[trigger] self.arrays@[k]))
    }

    /// A fresh manager with the built-in default effects: a fade of all
    /// lights to full over `on_ticks` for `on` and `dim`, and to zero over
    /// `off_ticks` for `off`.
    pub fn new() -> (r: ArrayManager)
        ensures
            r.wf(),
            r.arrays@ == Map::<Seq<char>, DmxArray>::empty(),
            r.effects@ == Map::<Seq<char>, EffectNodeDefinition>::empty(),
            r.global_values@ == Map::<Seq<char>, String>::empty(),
            r.values@ == Map::<Seq<char>, SymbolTable>::empty(),
            (r.default_on_effect matches EffectNodeDefinition::Fade(f) && f.lights@ == "@all"@ && (
            f.ticks matches NumberOrVariable::Variable(s) && s@ == "`on_ticks=10`"@) && f.target@
                == "`target=s(255);rgb(255,255,255);w(255,255,255)`"@ && !f.no_dimming),
            (r.default_off_effect matches EffectNodeDefinition::Fade(f) && f.lights@ == "@all"@ && (
            f.ticks matches NumberOrVariable::Variable(s) && s@ == "`off_ticks=10`"@) && f.target@
                == "`target=s(0);rgb(0,0,0);w(0,0,0)`"@ && !f.no_dimming),
            (r.default_dim_effect matches EffectNodeDefinition::Fade(f) && f.lights@ == "@all"@ && (
            f.ticks matches NumberOrVariable::Variable(s) && s@ == "`dim_ticks=10`"@) && f.target@
                == "`target=s(255);rgb(255,255,255);w(255,255,255)`"@ && !f.no_dimming),
    {
        let default_on_effect = EffectNodeDefinition::Fade(
            FadeEffectNodeDefinition {
                lights: "@all".to_owned(),
                ticks: NumberOrVariable::Variable("`on_ticks=10`".to_owned()),
                target: "`target=s(255);rgb(255,255,255);w(255,255,255)`".to_owned(),
                no_dimming: false,
            },
        );
        let default_off_effect = EffectNodeDefinition::Fade(
            FadeEffectNodeDefinition {
                lights: "@all".to_owned(),
                ticks: NumberOrVariable::Variable("`off_ticks=10`".to_owned()),
                target: "`target=s(0);rgb(0,0,0);w(0,0,0)`".to_owned(),
                no_dimming: false,
            },
        );
        let default_dim_effect = EffectNodeDefinition::Fade(
            FadeEffectNodeDefinition {
                lights: "@all".to_owned(),
                ticks: NumberOrVariable::Variable("`dim_ticks=10`".to_owned()),
                target: "`target=s(255);rgb(255,255,255);w(255,255,255)`".to_owned(),
                no_dimming: false,
            },
        );
        ArrayManager {
            arrays: StrMap::new(),
            effects: StrMap::new(),
            global_values: StrMap::new(),
            values: StrMap::new(),
            default_on_effect,
            default_off_effect,
            default_dim_effect,
        }
    }

    /// Expands a lights expression of an array into the flat
    /// `(universe, channel)` list.
    pub fn expand_lights_flat(array_id: &str, array: &DmxArray, lights_list: &str) -> (r: Result<
        Vec<(String, ChannelDefinition)>,
        DmxArrayError,
    >)
        requires
            array.wf(),
        ensures
            ({
                let spec = spec_expand_lights(lights_view(array), lights_list@, array.universe_id@);
                match r {
                    Ok(flat) => spec == LightsOutcome::Flat(flat_views(flat@)),
                    Err(e) => match e {
                        DmxArrayError::ArrayLightsNotFound(a, s, n) => (spec matches
                            LightsOutcome::NotFound(st, sn) && a@ == array_id@ && s@
                            == super::lights::spec_render_stack(st) && n@ == sn),
                        DmxArrayError::ArrayLightsCircularReference(a, s, l, en) => (spec matches
                            LightsOutcome::Circular(st, sl, sen) && a@ == array_id@ && s@
                            == super::lights::spec_render_stack(st) && l@ == sl && en@ == sen),
                        DmxArrayError::ArrayLightsInvalidChannelDefinition(a, s, en) => (spec
                            matches LightsOutcome::BadChannel(st, sen) && a@ == array_id@ && s@
                            == super::lights::spec_render_stack(st) && en@ == sen),
                        _ => false,
                    },
                }
            }),
    {
        let v = chars_of(lights_list);
        let entries = split_chars(&v, ',');
        let mut stack: Vec<String> = Vec::new();
        stack.push(lights_list.to_owned());
        proof {
            assert(super::lights::stack_views(stack@) =~= seq![lights_list@]);
            assert(entries.deep_view() =~= spec_split(lights_list@, ','));
        }
        expand_entries(array_id, &array.lights, &entries, 0, &array.universe_id, &mut stack)
    }

    /// Expands and groups a lights expression of an array.
    pub fn static_get_array_light_channels(
        array_id: &str,
        array: &DmxArray,
        lights_list: &str,
    ) -> (r: Result<Vec<UniverseChannelDefinitions>, DmxArrayError>)
        requires
            array.wf(),
        ensures
            match r {
                Ok(groups) => spec_expand_lights(lights_view(array), lights_list@, array.universe_id@)
                    matches LightsOutcome::Flat(flat) && groups@.map_values(
                    |u: UniverseChannelDefinitions| (u.universe_id@, u.channels@),
                ) == spec_group_flat(flat),
                Err(e) => !(spec_expand_lights(
                    lights_view(array),
                    lights_list@,
                    array.universe_id@,
                ) is Flat) && spec_lights_failure(array, lights_list@, array_id@, &e),
            },
    {
        let flat = match Self::expand_lights_flat(array_id, array, lights_list) {
            Ok(flat) => flat,
            Err(e) => {
                return Err(e);
            },
        };
        Ok(group_flat(&flat))
    }

    /// Expands and groups a lights expression against a stored array.
    pub fn get_array_light_channels(&self, array_id: &str, lights_list: &str) -> (r: Result<
        Vec<UniverseChannelDefinitions>,
        DmxArrayError,
    >)
        requires
            self.wf(),
        ensures
            match r {
                Ok(groups) => self.arrays@.contains_key(array_id@) && (spec_expand_lights(
                    lights_view(&self.arrays@[array_id@]),
                    lights_list@,
                    self.arrays@[array_id@].universe_id@,
                ) matches LightsOutcome::Flat(flat) && groups@.map_values(
                    |u: UniverseChannelDefinitions| (u.universe_id@, u.channels@),
                ) == spec_group_flat(flat)),
                Err(DmxArrayError::ArrayNotFound(id)) => !self.arrays@.contains_key(array_id@)
                    && id@ == array_id@,
                Err(e) => self.arrays@.contains_key(array_id@) && !(spec_expand_lights(
                    lights_view(&self.arrays@[array_id@]),
                    lights_list@,
                    self.arrays@[array_id@].universe_id@,
                ) is Flat) && spec_lights_failure(
                    &self.arrays@[array_id@],
                    lights_list@,
                    array_id@,
                    &e,
                ),
            },
    {
        match self.arrays.get(array_id) {
            None => Err(DmxArrayError::ArrayNotFound(array_id.to_owned())),
            Some(array) => {
                proof {
                    assert(*array == self.arrays@[array_id@]);
                }
                Self::static_get_array_light_channels(array_id, array, lights_list)
            },
        }
    }

    /// The grouped expansion of a lights expression of a stored array, as
    /// a spec-level value.
    pub open spec fn spec_grouped_lights(&self, array_id: Seq<char>, expr: Seq<char>) -> Seq<
        (Seq<char>, Seq<ChannelDefinition>),
    > {
        spec_group_flat(
            spec_expand_lights(
                lights_view(&self.arrays@[array_id]),
                expr,
                self.arrays@[array_id].universe_id@,
            )->Flat_0,
        )
    }

    /// The flat expansion of the whole array: its `all` group.
    pub fn get_array_all_lights(&self, array_id: &str) -> (r: Result<
        Vec<UniverseChannelDefinitions>,
        DmxArrayError,
    >)
        requires
            self.wf(),
        ensures
            r is Ok ==> self.arrays@.contains_key(array_id@) && r->Ok_0@.map_values(
                |u: UniverseChannelDefinitions| (u.universe_id@, u.channels@),
            ) == self.spec_grouped_lights(array_id@, spec_all_expr()),
            r matches Err(e) ==> match e {
                DmxArrayError::ArrayNotFound(id) => !self.arrays@.contains_key(array_id@) && id@
                    == array_id@,
                _ => self.arrays@.contains_key(array_id@) && spec_lights_failure(
                    &self.arrays@[array_id@],
                    spec_all_expr(),
                    array_id@,
                    &e,
                ),
            },
    {
        let r = self.get_array_light_channels(array_id, "@all");
        proof {
            reveal_strlit("@all");
            assert("@all"@ =~= spec_all_expr());
        }
        r
    }

    /// The lights a dim command addresses: the `dimmed` group when the
    /// array defines one, the whole array otherwise.
    pub fn get_array_dimmed_lights(&self, array_id: &str) -> (r: Result<
        Vec<UniverseChannelDefinitions>,
        DmxArrayError,
    >)
        requires
            self.wf(),
        ensures
            r is Ok ==> self.arrays@.contains_key(array_id@) && r->Ok_0@.map_values(
                |u: UniverseChannelDefinitions| (u.universe_id@, u.channels@),
            ) == self.spec_grouped_lights(
                array_id@,
                if lights_view(&self.arrays@[array_id@]).contains_key("dimmed"@) {
                    "@dimmed"@
                } else {
                    spec_all_expr()
                },
            ),
            r matches Err(e) ==> match e {
                DmxArrayError::ArrayNotFound(id) => !self.arrays@.contains_key(array_id@) && id@
                    == array_id@,
                _ => self.arrays@.contains_key(array_id@) && spec_lights_failure(
                    &self.arrays@[array_id@],
                    if lights_view(&self.arrays@[array_id@]).contains_key("dimmed"@) {
                        "@dimmed"@
                    } else {
                        spec_all_expr()
                    },
                    array_id@,
                    &e,
                ),
            },
    {
        match self.arrays.get(array_id) {
            None => Err(DmxArrayError::ArrayNotFound(array_id.to_owned())),
            Some(array) => {
                if array.lights.contains_key("dimmed") {
                    self.get_array_light_channels(array_id, "@dimmed")
                } else {
                    self.get_array_all_lights(array_id)
                }
            },
        }
    }

    /// Validates an array: the `all` group must expand, roles must be
    /// consistent, and every group must stay inside `all`.
    pub fn verify_array(&self, array_id: &str, array: &DmxArray) -> (r: Result<(), DmxArrayError>)
        requires
            array.wf(),
        ensures
            r is Ok <==> spec_array_valid(array),
            r matches Err(e) ==> spec_verify_failure(array, array_id@, &e),
    {
        let all_flat = match Self::expand_lights_flat(array_id, array, "@all") {
            Ok(flat) => flat,
            Err(e) => {
                proof {
                    reveal_strlit("@all");
                    assert("@all"@ =~= spec_all_expr());
                    assert(spec_lights_failure(array, spec_all_expr(), array_id@, &e));
                }
                return Err(e);
            },
        };
        proof {
            reveal_strlit("@all");
            assert("@all"@ =~= spec_all_expr());
        }
        let pairs = Self::flat_pairs(&all_flat);
        let mut table = UsageTable::new();
        let ghost all_pairs = Self::pairs_views(pairs@);
        let mut i: usize = 0;
        proof {
            assert(all_pairs.subrange(0, all_pairs.len() as int) =~= all_pairs);
        }
        while i < pairs.len()
            invariant
                i <= pairs@.len(),
                array.wf(),
                all_pairs == Self::pairs_views(pairs@),
                all_pairs == spec_flat_usage_pairs(flat_views(all_flat@)),
                spec_expand_lights(lights_view(array), spec_all_expr(), array.universe_id@)
                    == LightsOutcome::Flat(flat_views(all_flat@)),
                spec_build_usage(all_pairs, Map::empty()) == spec_build_usage(
                    all_pairs.subrange(i as int, all_pairs.len() as int),
                    table@,
                ),
            decreases pairs@.len() - i,
        {
            let (u, ch, usage) = (&pairs[i].0, pairs[i].1, pairs[i].2);
            let ghost rem = all_pairs.subrange(i as int, all_pairs.len() as int);
            proof {
                assert(rem[0] == all_pairs[i as int]);
                assert(all_pairs[i as int] == ((u@, ch), usage));
                assert(rem.subrange(1, rem.len() as int) =~= all_pairs.subrange(
                    i + 1,
                    all_pairs.len() as int,
                ));
            }
            match table.get(u.as_str(), ch) {
                Some(existing) => {
                    if existing != usage {
                        proof {
                            assert(spec_build_usage(all_pairs, Map::empty()) == Err::<
                                Map<(Seq<char>, u16), ChannelUsage>,
                                ((Seq<char>, u16), ChannelUsage, ChannelUsage),
                            >(((u@, ch), existing, usage)));
                            assert(!spec_array_valid(array));
                        }
                        return Err(
                            DmxArrayError::ArrayLightChannelUsageMismatch(
                                array_id.to_owned(),
                                u.clone(),
                                ch,
                                existing,
                                usage,
                                "@all".to_owned(),
                            ),
                        );
                    }
                },
                None => {
                    table.insert(u.clone(), ch, usage);
                },
            }
            i = i + 1;
        }
        proof {
            assert(all_pairs.subrange(all_pairs.len() as int, all_pairs.len() as int)
                =~= Seq::<((Seq<char>, u16), ChannelUsage)>::empty());
        }
        let ghost all_map = table@;
        // Check every group against the `all` usage map.
        let mut g: usize = 0;
        let n = array.lights.len();
        while g < n
            invariant
                g <= n,
                n == array.lights.spec_entries().len(),
                array.wf(),
                all_map == table@,
                spec_expand_lights(lights_view(array), spec_all_expr(), array.universe_id@)
                    matches LightsOutcome::Flat(af) && spec_build_usage(
                    spec_flat_usage_pairs(af),
                    Map::empty(),
                ) == Ok::<Map<(Seq<char>, u16), ChannelUsage>, ((Seq<char>, u16), ChannelUsage, ChannelUsage)>(
                    all_map,
                ),
                forall|q: int|
                    0 <= q < g ==> {
                        let expr = (#[trigger] array.lights.spec_entries()[q]).1@;
                        &&& spec_expand_lights(lights_view(array), expr, array.universe_id@)
                            is Flat
                        &&& spec_check_usage(
                            spec_flat_usage_pairs(
                                spec_expand_lights(
                                    lights_view(array),
                                    expr,
                                    array.universe_id@,
                                )->Flat_0,
                            ),
                            all_map,
                        ) is Fine
                    },
            decreases n - g,
        {
            let group_name = array.lights.key_at(g).clone();
            let lights_list = array.lights.val_at(g).clone();
            let flat = match Self::expand_lights_flat(array_id, array, lights_list.as_str()) {
                Ok(flat) => flat,
                Err(e) => {
                    proof {
                        assert(lights_list@ == (
                        #[trigger] array.lights.spec_entries()[g as int]).1@);
                        assert(!spec_array_valid(array));
                        assert(spec_lights_failure(array, lights_list@, array_id@, &e));
                        assert(spec_verify_failure(array, array_id@, &e));
                    }
                    return Err(e);
                },
            };
            let gpairs = Self::flat_pairs(&flat);
            let ghost gp = Self::pairs_views(gpairs@);
            let mut j: usize = 0;
            proof {
                assert(gp.subrange(0, gp.len() as int) =~= gp);
            }
            while j < gpairs.len()
                invariant
                    j <= gpairs@.len(),
                    array.wf(),
                    (spec_expand_lights(lights_view(array), spec_all_expr(), array.universe_id@)
                        matches LightsOutcome::Flat(af) && spec_build_usage(
                        spec_flat_usage_pairs(af),
                        Map::empty(),
                    ) == Ok::<
                        Map<(Seq<char>, u16), ChannelUsage>,
                        ((Seq<char>, u16), ChannelUsage, ChannelUsage),
                    >(all_map)),
                    g < array.lights.spec_entries().len(),
                    lights_list@ == array.lights.spec_entries()[g as int].1@,
                    group_name@ == array.lights.spec_entries()[g as int].0@,
                    gp == Self::pairs_views(gpairs@),
                    gp == spec_flat_usage_pairs(flat_views(flat@)),
                    spec_expand_lights(lights_view(array), lights_list@, array.universe_id@)
                        == LightsOutcome::Flat(flat_views(flat@)),
                    all_map == table@,
                    spec_check_usage(gp, all_map) == spec_check_usage(
                        gp.subrange(j as int, gp.len() as int),
                        all_map,
                    ),
                decreases gpairs@.len() - j,
            {
                let (u, ch, usage) = (&gpairs[j].0, gpairs[j].1, gpairs[j].2);
                let ghost rem = gp.subrange(j as int, gp.len() as int);
                proof {
                    assert(rem[0] == gp[j as int]);
                    assert(gp[j as int] == ((u@, ch), usage));
                    assert(rem.subrange(1, rem.len() as int) =~= gp.subrange(
                        j + 1,
                        gp.len() as int,
                    ));
                }
                match table.get(u.as_str(), ch) {
                    Some(existing) => {
                        if existing != usage {
                            proof {
                                assert(spec_check_usage(gp, all_map) == UsageCheck::Mismatch(
                                    (u@, ch),
                                    existing,
                                    usage,
                                ));
                                assert((#[trigger] array.lights.spec_entries()[g as int]).1@
                                    == lights_list@);
                                assert(group_name@ == array.lights.spec_entries()[g as int].0@);
                                assert(!spec_array_valid(array));
                            }
                            return Err(
                                DmxArrayError::ArrayLightChannelUsageMismatch(
                                    array_id.to_owned(),
                                    u.clone(),
                                    ch,
                                    existing,
                                    usage,
                                    group_name,
                                ),
                            );
                        }
                    },
                    None => {
                        proof {
                            assert(spec_check_usage(gp, all_map) == UsageCheck::NotInAll(
                                (u@, ch),
                                usage,
                            ));
                            assert((#[trigger] array.lights.spec_entries()[g as int]).1@
                                == lights_list@);
                            assert(group_name@ == array.lights.spec_entries()[g as int].0@);
                            assert(!spec_array_valid(array));
                        }
                        return Err(
                            DmxArrayError::ArrayLightChannelNotInAllGroup(
                                array_id.to_owned(),
                                u.clone(),
                                ch,
                                usage,
                                group_name,
                            ),
                        );
                    },
                }
                j = j + 1;
            }
            proof {
                assert(gp.subrange(gp.len() as int, gp.len() as int)
                    =~= Seq::<((Seq<char>, u16), ChannelUsage)>::empty());
            }
            g = g + 1;
        }
        Ok(())
    }

    /// The usage pairs of a flat expansion, one entry per component.
    fn flat_pairs(flat: &Vec<(String, ChannelDefinition)>) -> (r: Vec<(String, u16, ChannelUsage)>)
        ensures
            Self::pairs_views(r@) == spec_flat_usage_pairs(flat_views(flat@)),
    {
        let mut r: Vec<(String, u16, ChannelUsage)> = Vec::new();
        let mut i: usize = 0;
        proof {
            assert(Self::pairs_views(r@) =~= spec_flat_usage_pairs(
                flat_views(flat@).subrange(0, 0),
            ));
        }
        while i < flat.len()
            invariant
                i <= flat@.len(),
                Self::pairs_views(r@) == spec_flat_usage_pairs(
                    flat_views(flat@).subrange(0, i as int),
                ),
            decreases flat@.len() - i,
        {
            let (u, cd) = (&flat[i].0, flat[i].1);
            let ghost old_r = r@;
            match cd {
                ChannelDefinition::Single(c) => {
                    r.push((u.clone(), c, ChannelUsage::S));
                },
                ChannelDefinition::Rgb(a, b, c) => {
                    r.push((u.clone(), a, ChannelUsage::R));
                    r.push((u.clone(), b, ChannelUsage::G));
                    r.push((u.clone(), c, ChannelUsage::B));
                },
                ChannelDefinition::TriWhite(a, b, c) => {
                    r.push((u.clone(), a, ChannelUsage::W1));
                    r.push((u.clone(), b, ChannelUsage::W2));
                    r.push((u.clone(), c, ChannelUsage::W3));
                },
            }
            i = i + 1;
            proof {
                assert(flat_views(flat@).subrange(0, i as int).drop_last() =~= flat_views(
                    flat@,
                ).subrange(0, i - 1));
                assert(flat_views(flat@).subrange(0, i as int).last() == (u@, cd));
                assert(Self::pairs_views(r@) =~= Self::pairs_views(old_r) + spec_usage_pairs(
                    u@,
                    cd,
                ));
            }
        }
        proof {
            assert(flat_views(flat@).subrange(0, flat@.len() as int) =~= flat_views(flat@));
        }
        r
    }

    /// The views of an exec pair list.
    pub open spec fn pairs_views(s: Seq<(String, u16, ChannelUsage)>) -> Seq<
        ((Seq<char>, u16), ChannelUsage),
    > {
        s.map_values(|p: (String, u16, ChannelUsage)| ((p.0@, p.1), p.2))
    }

    /// Validates and stores an array; a failed validation leaves the
    /// manager unchanged.
    pub fn add_array(&mut self, array_id: String, array: DmxArray) -> (r: Result<
        (),
        DmxArrayError,
    >)
        requires
            old(self).wf(),
            array.wf(),
        ensures
            final(self).wf(),
            match r {
                Ok(()) => spec_array_valid(&array) && final(self).arrays@ == old(
                    self,
                ).arrays@.insert(array_id@, array),
                Err(e) => !spec_array_valid(&array) && final(self).arrays@ == old(self).arrays@
                    && spec_verify_failure(&array, array_id@, &e),
            },
            final(self).effects@ == old(self).effects@,
            final(self).global_values@ == old(self).global_values@,
            final(self).values@ == old(self).values@,
    {
        if let Err(e) = self.verify_array(array_id.as_str(), &array) {
            return Err(e);
        }
        self.arrays.insert(array_id, array);
        Ok(())
    }

    /// Removes an array; an unknown id is a no-op success.
    pub fn remove_array(&mut self, array_id: &str) -> (r: Result<(), DmxArrayError>)
        requires
            old(self).wf(),
        ensures
            final(self).wf(),
            r is Ok,
            final(self).arrays@ == old(self).arrays@.remove(array_id@),
            final(self).effects@ == old(self).effects@,
            final(self).global_values@ == old(self).global_values@,
            final(self).values@ == old(self).values@,
    {
        self.arrays.remove(array_id);
        Ok(())
    }

    /// Stores a global effect under an id, replacing any previous one.
    pub fn add_effect(&mut self, effect_id: String, effect: EffectNodeDefinition) -> (r: Result<
        (),
        DmxArrayError,
    >)
        requires
            old(self).wf(),
        ensures
            final(self).wf(),
            r is Ok,
            final(self).effects@ == old(self).effects@.insert(effect_id@, effect),
            final(self).arrays@ == old(self).arrays@,
    {
        self.effects.insert(effect_id, effect);
        Ok(())
    }

    /// Removes a global effect; an unknown id is a no-op success.
    pub fn remove_effect(&mut self, effect_id: &str) -> (r: Result<(), DmxArrayError>)
        requires
            old(self).wf(),
        ensures
            final(self).wf(),
            r is Ok,
            final(self).effects@ == old(self).effects@.remove(effect_id@),
            final(self).arrays@ == old(self).arrays@,
    {
        self.effects.remove(effect_id);
        Ok(())
    }

    /// Binds one value in an array's table.
    fn set_array_value(&mut self, array_id: String, value_name: String, value: String)
        requires
            old(self).wf(),
        ensures
            final(self).wf(),
            final(self).arrays@ == old(self).arrays@,
            final(self).effects@ == old(self).effects@,
            final(self).global_values@ == old(self).global_values@,
            final(self).values@.contains_key(array_id@),
            final(self).values@[array_id@]@ == (if old(self).values@.contains_key(array_id@) {
                old(self).values@[array_id@]@.insert(value_name@, value)
            } else {
                Map::<Seq<char>, String>::empty().insert(value_name@, value)
            }),
            forall|k: Seq<char>|
                k != array_id@ ==> final(self).values@.contains_key(k) == old(
                    self,
                ).values@.contains_key(k) && (old(self).values@.contains_key(k)
                    ==> final(self).values@[k] == old(self).values@[k]),
    {
        let mut table = match self.values.remove_take(array_id.as_str()) {
            Some(t) => t,
            None => StrMap::new(),
        };
        table.insert(value_name, value);
        self.values.insert(array_id, table);
    }

    /// Replaces the listed bindings in an array's table, as the command
    /// values of an `On`, `Off` or `Dim` request do.
    pub fn initialize_array_values(&mut self, array_id: &str, symbol_table: SymbolTable) -> (r:
        Result<(), DmxArrayError>)
        requires
            old(self).wf(),
            symbol_table.wf(),
        ensures
            final(self).wf(),
            r is Ok,
            final(self).arrays@ == old(self).arrays@,
            final(self).effects@ == old(self).effects@,
            final(self).global_values@ == old(self).global_values@,
            final(self).spec_array_values(array_id@) == old(self).spec_array_values(
                array_id@,
            ).union_prefer_right(symbols_view(&symbol_table)),
            forall|k: Seq<char>|
                k != array_id@ ==> final(self).spec_array_values(k) == old(
                    self,
                ).spec_array_values(k),
    {
        let ghost aid = array_id@;
        let ghost base = self.spec_array_values(aid);
        let ghost target = symbols_view(&symbol_table);
        let mut incoming = symbol_table;
        let mut entries = incoming.take_entries();
        let ghost mut done: Map<Seq<char>, Seq<char>> = Map::empty();
        proof {
            assert(base.union_prefer_right(done) =~= base);
            assert(done.union_prefer_right(
                crate::strmap::entries_map(entries@).map_values(|v: String| v@),
            ) =~= target);
        }
        while entries.len() > 0
            invariant
                self.wf(),
                aid == array_id@,
                self.arrays@ == old(self).arrays@,
                self.effects@ == old(self).effects@,
                self.global_values@ == old(self).global_values@,
                crate::strmap::keys_distinct(entries@),
                base == old(self).spec_array_values(aid),
                self.spec_array_values(aid) == base.union_prefer_right(done),
                done.union_prefer_right(
                    crate::strmap::entries_map(entries@).map_values(|v: String| v@),
                ) == target,
                forall|k: Seq<char>|
                    k != aid ==> self.spec_array_values(k) == old(self).spec_array_values(k),
            decreases entries@.len(),
        {
            let ghost pre_entries = entries@;
            let (name, value) = entries.remove(0);
            proof {
                crate::strmap::lemma_entries_map_front(pre_entries);
                assert(entries@ =~= pre_entries.subrange(1, pre_entries.len() as int));
                assert(crate::strmap::keys_distinct(entries@)) by {
                    assert(forall|p: int, q: int|
                        0 <= p < q < entries@.len() ==> (#[trigger] entries@[p]).0@ != (
                        #[trigger] entries@[q]).0@) by {
                        assert(forall|p: int|
                            0 <= p < entries@.len() ==> #[trigger] entries@[p] == pre_entries[p
                                + 1]);
                    }
                }
            }
            let ghost name_view = name@;
            let ghost value_view = value@;
            let ghost pre_vals = self.spec_array_values(aid);
            let ghost done_old = done;
            self.set_array_value(array_id.to_owned(), name, value);
            proof {
                let tail_map = crate::strmap::entries_map(entries@).map_values(|v: String| v@);
                let pre_map = crate::strmap::entries_map(pre_entries).map_values(|v: String| v@);
                assert(pre_map =~= tail_map.insert(name_view, value_view));
                assert(!tail_map.contains_key(name_view));
                done = done.insert(name_view, value_view);
                assert(self.values@.contains_key(aid));
                let post_vals = self.spec_array_values(aid);
                let want = base.union_prefer_right(done);
                assert forall|k: Seq<char>|
                    #[trigger] post_vals.dom().contains(k) == want.dom().contains(k) && (
                    post_vals.dom().contains(k) ==> post_vals[k] == want[k]) by {
                    if k == name_view {
                        assert(self.values@[aid]@.contains_key(k));
                        assert(self.values@[aid]@[k]@ == value_view);
                        assert(post_vals.contains_key(k) && post_vals[k] == value_view);
                        assert(done.contains_key(k) && done[k] == value_view);
                        assert(want.contains_key(k) && want[k] == value_view);
                    } else {
                        assert(post_vals.contains_key(k) == self.values@[aid]@.contains_key(k));
                        assert(pre_vals.contains_key(k) == post_vals.contains_key(k));
                        if post_vals.contains_key(k) {
                            assert(post_vals[k] == self.values@[aid]@[k]@);
                            assert(post_vals[k] == pre_vals[k]);
                        }
                        assert(want.contains_key(k) == base.union_prefer_right(
                            done_old,
                        ).contains_key(k));
                        if want.contains_key(k) {
                            assert(want[k] == base.union_prefer_right(done_old)[k]);
                        }
                        assert(pre_vals.contains_key(k) == base.union_prefer_right(
                            done_old,
                        ).contains_key(k));
                        if pre_vals.contains_key(k) {
                            assert(pre_vals[k] == base.union_prefer_right(done_old)[k]);
                        }
                    }
                }
                assert(post_vals.dom() =~= want.dom());
                assert(post_vals =~= want);
                assert(done.union_prefer_right(tail_map) =~= target);
            }
        }
        proof {
            assert(crate::strmap::entries_map(entries@).map_values(|v: String| v@)
                =~= Map::<Seq<char>, Seq<char>>::empty());
            assert(done =~= target);
        }
        Ok(())
    }

    /// Binds a global value.
    pub fn set_global_value(&mut self, value_name: String, value: String) -> (r: Result<
        (),
        DmxArrayError,
    >)
        requires
            old(self).wf(),
        ensures
            final(self).wf(),
            r is Ok,
            final(self).global_values@ == old(self).global_values@.insert(value_name@, value),
            final(self).arrays@ == old(self).arrays@,
            final(self).effects@ == old(self).effects@,
            final(self).values@ == old(self).values@,
    {
        self.global_values.insert(value_name, value);
        Ok(())
    }

    /// Removes a global value; an unknown name is a no-op success.
    pub fn remove_global_value(&mut self, value_name: &str) -> (r: Result<(), DmxArrayError>)
        requires
            old(self).wf(),
        ensures
            final(self).wf(),
            r is Ok,
            final(self).global_values@ == old(self).global_values@.remove(value_name@),
            final(self).arrays@ == old(self).arrays@,
            final(self).effects@ == old(self).effects@,
            final(self).values@ == old(self).values@,
    {
        self.global_values.remove(value_name);
        Ok(())
    }

    /// The array-value map used when expanding for an array: its own table
    /// when one exists, empty otherwise.
    pub open spec fn spec_array_values(&self, array_id: Seq<char>) -> Map<Seq<char>, Seq<char>> {
        if self.values@.contains_key(array_id) {
            symbols_view(&self.values@[array_id])
        } else {
            Map::empty()
        }
    }

    /// Expands the variable references in a string against an array's
    /// values and the global values.
    pub fn expand_values(&self, array_id: &str, unexpanded_value: &str) -> (r: Result<
        String,
        DmxArrayError,
    >)
        requires
            self.wf(),
        ensures
            ({
                let spec = spec_expand_values(
                    self.arrays@.contains_key(array_id@),
                    self.spec_array_values(array_id@),
                    symbols_view(&self.global_values),
                    unexpanded_value@,
                );
                match r {
                    Ok(out) => spec == ExpandOutcome::Done(out@),
                    Err(e) => match e {
                        DmxArrayError::ArrayNotFound(id) => spec == ExpandOutcome::NoArray && id@
                            == array_id@,
                        DmxArrayError::ArrayValueNotFound(a, v, n) => spec
                            == ExpandOutcome::Missing(n@) && a@ == array_id@ && v@
                            == unexpanded_value@,
                        DmxArrayError::ValueExpressionNotTerminated(a, v) => spec
                            == ExpandOutcome::Unterminated && a@ == array_id@ && v@
                            == unexpanded_value@,
                        _ => false,
                    },
                }
            }),
    {
        let has_array = self.arrays.contains_key(array_id);
        let empty: SymbolTable = StrMap::new();
        let av: &SymbolTable = match self.values.get(array_id) {
            Some(t) => t,
            None => &empty,
        };
        proof {
            if self.values@.contains_key(array_id@) {
                assert(symbols_view(av) =~= self.spec_array_values(array_id@));
            } else {
                assert(symbols_view(av) =~= self.spec_array_values(array_id@));
            }
        }
        match expand_values_chars(has_array, av, &self.global_values, unexpanded_value) {
            Ok(out) => Ok(out),
            Err(ExpandFailure::NoArray) => Err(DmxArrayError::ArrayNotFound(array_id.to_owned())),
            Err(ExpandFailure::Missing(n)) => Err(
                DmxArrayError::ArrayValueNotFound(
                    array_id.to_owned(),
                    unexpanded_value.to_owned(),
                    n,
                ),
            ),
            Err(ExpandFailure::Unterminated) => Err(
                DmxArrayError::ValueExpressionNotTerminated(
                    array_id.to_owned(),
                    unexpanded_value.to_owned(),
                ),
            ),
        }
    }
}


} // verus!
