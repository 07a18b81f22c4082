//! The declarative data model: universes, arrays, effects, commands.

use vstd::prelude::*;

use crate::strmap::StrMap;

verus! {

/// Dimming amounts range over `0 ..= DIMMING_AMOUNT_MAX`; the maximum means
/// "no dimming".
pub type DimmingAmount = usize;

pub const DIMMING_AMOUNT_MAX: DimmingAmount = 1000;

/// A symbol table binding value names to strings.
pub type SymbolTable = StrMap<String>;

/// One DMX universe: an Art-Net address at a controller.
#[derive(Debug, Clone)]
pub struct UniverseDefinition {
    pub description: String,
    /// The controller's network address, as text.
    pub controller: String,
    pub net: u8,
    pub subnet: u8,
    pub universe: u8,
    pub channels: u16,
    /// Record channel writes, for testing.
    pub log: bool,
    /// Do not actually transmit packets, for testing.
    pub disable_send: bool,
}

/// A global value declaration.
#[derive(Debug, Clone)]
pub struct ValueDefinition {
    pub value: String,
}

/// A named collection of lights with its effects and default values.
#[derive(Debug)]
pub struct DmxArray {
    pub description: String,
    /// Default universe for unqualified channel references.
    pub universe_id: String,
    /// Light-group name to lights expression.
    pub lights: StrMap<String>,
    /// Effect id used by the `On` command; defaults to `"on"`.
    pub on: String,
    /// Effect id used by the `Off` command; defaults to `"off"`.
    pub off: String,
    /// Effect id used by the `Dim` command; defaults to `"dim"`.
    pub dim: String,
    /// Effects scoped to this array.
    pub effects: StrMap<EffectNodeDefinition>,
    /// Values scoped to this array.
    pub default_values: SymbolTable,
}

impl DmxArray {
    /// All the string-keyed tables inside the array are well formed.
    pub open spec fn wf(&self) -> bool {
        self.lights.wf() && self.effects.wf() && self.default_values.wf()
    }
}

/// Which families of channels a command addresses, and with what values.
#[derive(Debug, Clone, Copy)]
pub struct TargetValue {
    pub single: Option<u8>,
    pub rgb: Option<(u8, u8, u8)>,
    pub tri_white: Option<(u8, u8, u8)>,
}

impl Default for TargetValue {
    /// The empty target: no family receives a value.
    fn default() -> (r: TargetValue)
        ensures
            r.single is None,
            r.rgb is None,
            r.tri_white is None,
    {
        TargetValue { single: None, rgb: None, tri_white: None }
    }
}

/// A literal number, or a string holding variable references that expand to
/// one.
#[derive(Debug)]
pub enum NumberOrVariable {
    Number(usize),
    Variable(String),
}

/// The role a command asks an effect to play.
#[derive(Debug, Clone, Copy, PartialEq, Eq, Structural)]
pub enum EffectUsage {
    On,
    Off,
    Dim,
}

impl EffectUsage {
    /// Parses the name of a usage, as the command topics spell it.
    pub fn parse(s: &str) -> (r: Option<EffectUsage>)
        ensures
            r == Some(EffectUsage::On) <==> s@ == "On"@,
            r == Some(EffectUsage::Off) <==> s@ == "Off"@,
            r == Some(EffectUsage::Dim) <==> s@ == "Dim"@,
            r is None <==> (s@ != "On"@ && s@ != "Off"@ && s@ != "Dim"@),
    {
        proof {
            reveal_strlit("On");
            reveal_strlit("Off");
            reveal_strlit("Dim");
            assert("On"@.len() == 2);
            assert("Off"@.len() == 3);
            assert("Dim"@.len() == 3);
            assert("Off"@[0] == 'O');
            assert("Dim"@[0] == 'D');
            assert("On"@ != "Off"@);
            assert("On"@ != "Dim"@);
            assert("Off"@ != "Dim"@);
        }
        if crate::strutil::str_eq(s, "On") {
            Some(EffectUsage::On)
        } else if crate::strutil::str_eq(s, "Off") {
            Some(EffectUsage::Off)
        } else if crate::strutil::str_eq(s, "Dim") {
            Some(EffectUsage::Dim)
        } else {
            None
        }
    }
}

/// An effect-tree definition: what the declaration names, before compilation.
#[derive(Debug)]
pub enum EffectNodeDefinition {
    Sequence(SequenceEffectNodeDefinition),
    Parallel(ParallelEffectNodeDefinition),
    Delay(DelayEffectNodeDefinition),
    Fade(FadeEffectNodeDefinition),
}

#[derive(Debug)]
pub struct SequenceEffectNodeDefinition {
    pub nodes: Vec<EffectNodeDefinition>,
}

#[derive(Debug)]
pub struct ParallelEffectNodeDefinition {
    pub nodes: Vec<EffectNodeDefinition>,
}

#[derive(Debug)]
pub struct DelayEffectNodeDefinition {
    pub ticks: NumberOrVariable,
}

#[derive(Debug)]
pub struct FadeEffectNodeDefinition {
    pub lights: String,
    pub ticks: NumberOrVariable,
    pub target: String,
    pub no_dimming: bool,
}

/// Parameters of the `On`, `Off` and `Dim` commands.
#[derive(Debug)]
pub struct OnOffCommandParameters {
    pub array_id: String,
    pub effect_id: Option<String>,
    pub dimming_amount: Option<DimmingAmount>,
    pub values: Option<SymbolTable>,
}

/// Parameters of the `Stop` command.
#[derive(Debug)]
pub struct StopCommandParameters {
    pub array_id: String,
}

/// Parameters of the `Set` command.
#[derive(Debug)]
pub struct SetChannelsParameters {
    pub universe_id: String,
    pub channels: String,
    pub target: String,
    pub dimming_amount: Option<DimmingAmount>,
}

} // verus!
