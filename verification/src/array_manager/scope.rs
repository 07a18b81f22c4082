//! The compilation scope of one effect: which array, which effect id, and
//! how much dimming the command asked for.

use vstd::prelude::*;

use super::error::DmxArrayError;
use super::manager::ArrayManager;
use crate::defs::{DimmingAmount, DIMMING_AMOUNT_MAX};
use crate::dmx::UniverseChannelDefinitions;

verus! {

pub struct Scope {
    pub array_id: String,
    pub effect_id: Option<String>,
    /// Clamped to the maximum on construction, so dimming stays linear.
    pub dimming_amount: DimmingAmount,
}

impl Scope {
    pub open spec fn wf(&self) -> bool {
        self.dimming_amount <= DIMMING_AMOUNT_MAX
    }

    /// Opens a scope on a stored array; the dimming amount is clamped to
    /// its maximum.
    pub fn new(
        array_manager: &ArrayManager,
        array_id: String,
        effect_id: Option<&String>,
        dimming_amount: DimmingAmount,
    ) -> (r: Result<Scope, DmxArrayError>)
        requires
            array_manager.wf(),
        ensures
            match r {
                Ok(scope) => {
                    &&& array_manager.arrays@.contains_key(array_id@)
                    &&& scope.wf()
                    &&& scope.array_id@ == array_id@
                    &&& scope.dimming_amount == (if dimming_amount > DIMMING_AMOUNT_MAX {
                        DIMMING_AMOUNT_MAX
                    } else {
                        dimming_amount
                    })
                    &&& (match effect_id {
                        Some(e) => scope.effect_id matches Some(se) && se@ == e@,
                        None => scope.effect_id is None,
                    })
                },
                Err(DmxArrayError::ArrayNotFound(id)) => !array_manager.arrays@.contains_key(
                    array_id@,
                ) && id@ == array_id@,
                Err(_) => false,
            },
    {
        if !array_manager.arrays.contains_key(array_id.as_str()) {
            return Err(DmxArrayError::ArrayNotFound(array_id));
        }
        let clamped = if dimming_amount > DIMMING_AMOUNT_MAX {
            DIMMING_AMOUNT_MAX
        } else {
            dimming_amount
        };
        Ok(
            Scope {
                array_id,
                effect_id: match effect_id {
                    Some(e) => Some(e.clone()),
                    None => None,
                },
                dimming_amount: clamped,
            },
        )
    }

    /// The scope's rendering for error messages:
    /// `Array 'id' (description)`, then ` effect id` when one was named.
    pub fn description(&self, array_manager: &ArrayManager) -> (r: String)
        requires
            array_manager.wf(),
        ensures
            r@ == "Array '"@ + self.array_id@ + "' ("@ + (if array_manager.arrays@.contains_key(
                self.array_id@,
            ) {
                array_manager.arrays@[self.array_id@].description@
            } else {
                "--UNDEFINED--"@
            }) + ")"@ + (match self.effect_id {
                Some(effect_id) => " effect "@ + effect_id@,
                None => Seq::<char>::empty(),
            }),
    {
        let mut m = String::new();
        m.append("Array '");
        m.append(self.array_id.as_str());
        m.append("' (");
        match array_manager.arrays.get(self.array_id.as_str()) {
            Some(array) => m.append(array.description.as_str()),
            None => m.append("--UNDEFINED--"),
        }
        m.append(")");
        if let Some(effect_id) = &self.effect_id {
            m.append(" effect ");
            m.append(effect_id.as_str());
        }
        m
    }

    /// The light channels of a lights expression, resolved in this scope,
    /// exactly as the manager resolves them for this scope's array.
    pub fn get_light_channels(&self, array_manager: &ArrayManager, lights_list: &str) -> (r: Result<
        Vec<UniverseChannelDefinitions>,
        DmxArrayError,
    >)
        requires
            array_manager.wf(),
        ensures
            match r {
                Ok(groups) => array_manager.arrays@.contains_key(self.array_id@) && (
                super::lights::spec_expand_lights(
                    super::manager::lights_view(&array_manager.arrays@[self.array_id@]),
                    lights_list@,
                    array_manager.arrays@[self.array_id@].universe_id@,
                ) matches super::lights::LightsOutcome::Flat(flat) && groups@.map_values(
                    |u: UniverseChannelDefinitions| (u.universe_id@, u.channels@),
                ) == super::lights::spec_group_flat(flat)),
                Err(e) => match e {
                    DmxArrayError::ArrayNotFound(id) => !array_manager.arrays@.contains_key(
                        self.array_id@,
                    ) && id@ == self.array_id@,
                    _ => array_manager.arrays@.contains_key(self.array_id@)
                        && super::manager::spec_lights_failure(
                        &array_manager.arrays@[self.array_id@],
                        lights_list@,
                        self.array_id@,
                        &e,
                    ),
                },
            },
    {
        array_manager.get_array_light_channels(self.array_id.as_str(), lights_list)
    }

    /// Expands variable references in this scope, exactly as the manager
    /// expands them for this scope's array.
    pub fn expand_values(&self, array_manager: &ArrayManager, unexpanded_value: &str) -> (r: Result<
        String,
        DmxArrayError,
    >)
        requires
            array_manager.wf(),
        ensures
            ({
                let spec = super::values::spec_expand_values(
                    array_manager.arrays@.contains_key(self.array_id@),
                    array_manager.spec_array_values(self.array_id@),
                    super::values::symbols_view(&array_manager.global_values),
                    unexpanded_value@,
                );
                match r {
                    Ok(out) => spec == super::values::ExpandOutcome::Done(out@),
                    Err(e) => match e {
                        DmxArrayError::ArrayNotFound(id) => spec
                            == super::values::ExpandOutcome::NoArray && id@ == self.array_id@,
                        DmxArrayError::ArrayValueNotFound(a, v, n) => spec
                            == super::values::ExpandOutcome::Missing(n@) && a@ == self.array_id@
                            && v@ == unexpanded_value@,
                        DmxArrayError::ValueExpressionNotTerminated(a, v) => spec
                            == super::values::ExpandOutcome::Unterminated && a@ == self.array_id@
                            && v@ == unexpanded_value@,
                        _ => false,
                    },
                }
            }),
    {
        array_manager.expand_values(self.array_id.as_str(), unexpanded_value)
    }
}

} // verus!
