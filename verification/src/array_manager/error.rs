//! Errors of the array manager.

use vstd::prelude::*;

use crate::strutil::{append_chars, render_u64, spec_render_uint};

verus! {

/// The role a DMX channel plays for a light.
#[derive(Debug, PartialEq, Eq, Clone, Copy, Structural)]
pub enum ChannelUsage {
    S,
    R,
    G,
    B,
    W1,
    W2,
    W3,
}

/// The wording of each channel role in error messages.
pub open spec fn spec_channel_usage_string(u: ChannelUsage) -> Seq<char> {
    match u {
        ChannelUsage::S => "single light channel"@,
        ChannelUsage::R => "light red component"@,
        ChannelUsage::G => "light green component"@,
        ChannelUsage::B => "light blue component"@,
        ChannelUsage::W1 => "light w1 component"@,
        ChannelUsage::W2 => "light w2 component"@,
        ChannelUsage::W3 => "light w3 component"@,
    }
}

/// Renders a channel role.
pub fn channel_usage_string(u: &ChannelUsage) -> (r: String)
    ensures
        r@ == spec_channel_usage_string(*u),
{
    let mut m = String::new();
    match u {
        ChannelUsage::S => m.append("single light channel"),
        ChannelUsage::R => m.append("light red component"),
        ChannelUsage::G => m.append("light green component"),
        ChannelUsage::B => m.append("light blue component"),
        ChannelUsage::W1 => m.append("light w1 component"),
        ChannelUsage::W2 => m.append("light w2 component"),
        ChannelUsage::W3 => m.append("light w3 component"),
    }
    m
}

#[derive(Debug)]
pub enum DmxArrayError {
    /// No array with this id.
    ArrayNotFound(String),
    /// A `@group` reference names a group the array does not define:
    /// array id, expansion stack rendering, group name.
    ArrayLightsNotFound(String, String, String),
    /// Light-group expansion exceeded the depth bound:
    /// array id, expansion stack rendering, expression, entry.
    ArrayLightsCircularReference(String, String, String, String),
    /// A lights entry that parses as none of the recognized forms:
    /// array id, expansion stack rendering, entry.
    ArrayLightsInvalidChannelDefinition(String, String, String),
    /// No effect with this id in the array or globally:
    /// array id with description, effect id.
    EffectNotFound(String, String),
    /// A variable reference with no binding and no default:
    /// array id, unexpanded value, value name.
    ArrayValueNotFound(String, String, String),
    /// A variable reference missing its closing backtick:
    /// array id, unexpanded value.
    ValueExpressionNotTerminated(String, String),
    /// One channel used in two roles: array id, universe id, channel,
    /// existing role, new role, group name.
    ArrayLightChannelUsageMismatch(String, String, u16, ChannelUsage, ChannelUsage, String),
    /// A channel used by a group but missing from the `all` group:
    /// array id, universe id, channel, role, group name.
    ArrayLightChannelNotInAllGroup(String, String, u16, ChannelUsage, String),
    /// A value did not expand or parse: scope rendering, what was parsed,
    /// the underlying message.
    ValueError(String, String, String),
}

/// The rendering of each error, character for character.
pub open spec fn spec_dmx_array_error_message(e: &DmxArrayError) -> Seq<char> {
    match e {
        DmxArrayError::ArrayNotFound(id) => "Array with id '"@ + id@ + "' not found"@,
        DmxArrayError::ArrayLightsNotFound(a, s, n) => "Array '"@ + a@ + "' Lights "@ + s@
            + " does not contain definition for "@ + n@,
        DmxArrayError::ArrayLightsCircularReference(a, s, l, en) => "Array '"@ + a@ + "' Light '"@
            + s@ + "' ("@ + l@ + ") contain circular reference to "@ + en@,
        DmxArrayError::ArrayLightsInvalidChannelDefinition(a, s, en) => "Array '"@ + a@
            + "' Light '"@ + s@ + "' ("@ + en@
            + ") is invalid channel definition (s:n, rgb:n or w:n)"@,
        DmxArrayError::EffectNotFound(a, eid) => "Effect '"@ + eid@ + "' not found in array '"@ + a@
            + "' or in global effects list"@,
        DmxArrayError::ArrayValueNotFound(a, v, n) => "Array '"@ + a@ + "' '"@ + v@
            + "' has no value for "@ + n@,
        DmxArrayError::ValueExpressionNotTerminated(a, v) => "Array '"@ + a@ + "' '"@ + v@
            + "' has unterminated `value` expression"@,
        DmxArrayError::ArrayLightChannelUsageMismatch(a, u, ch, have, want, g) => "Array '"@ + a@
            + "' in universe '"@ + u@ + "': channel "@ + spec_render_uint(*ch as int)
            + " was defined as "@ + spec_channel_usage_string(*have) + " and is redefined as "@
            + spec_channel_usage_string(*want) + " in group @"@ + g@,
        DmxArrayError::ArrayLightChannelNotInAllGroup(a, u, ch, usage, g) => "Array '"@ + a@
            + "' in universe '"@ + u@ + "': channel "@ + spec_render_uint(*ch as int)
            + " is defined as "@ + spec_channel_usage_string(*usage) + " in group @"@ + g@
            + " but is not included in @all group"@,
        DmxArrayError::ValueError(scope, what, msg) => scope@ + " "@ + what@ + ": "@ + msg@,
    }
}

impl DmxArrayError {
    /// Renders the error as its message text.
    pub fn message(&self) -> (r: String)
        ensures
            r@ == spec_dmx_array_error_message(self),
    {
        let mut m = String::new();
        match self {
            DmxArrayError::ArrayNotFound(id) => {
                m.append("Array with id '");
                m.append(id.as_str());
                m.append("' not found");
            },
            DmxArrayError::ArrayLightsNotFound(a, s, n) => {
                m.append("Array '");
                m.append(a.as_str());
                m.append("' Lights ");
                m.append(s.as_str());
                m.append(" does not contain definition for ");
                m.append(n.as_str());
            },
            DmxArrayError::ArrayLightsCircularReference(a, s, l, en) => {
                m.append("Array '");
                m.append(a.as_str());
                m.append("' Light '");
                m.append(s.as_str());
                m.append("' (");
                m.append(l.as_str());
                m.append(") contain circular reference to ");
                m.append(en.as_str());
            },
            DmxArrayError::ArrayLightsInvalidChannelDefinition(a, s, en) => {
                m.append("Array '");
                m.append(a.as_str());
                m.append("' Light '");
                m.append(s.as_str());
                m.append("' (");
                m.append(en.as_str());
                m.append(") is invalid channel definition (s:n, rgb:n or w:n)");
            },
            DmxArrayError::EffectNotFound(a, eid) => {
                m.append("Effect '");
                m.append(eid.as_str());
                m.append("' not found in array '");
                m.append(a.as_str());
                m.append("' or in global effects list");
            },
            DmxArrayError::ArrayValueNotFound(a, v, n) => {
                m.append("Array '");
                m.append(a.as_str());
                m.append("' '");
                m.append(v.as_str());
                m.append("' has no value for ");
                m.append(n.as_str());
            },
            DmxArrayError::ValueExpressionNotTerminated(a, v) => {
                m.append("Array '");
                m.append(a.as_str());
                m.append("' '");
                m.append(v.as_str());
                m.append("' has unterminated `value` expression");
            },
            DmxArrayError::ArrayLightChannelUsageMismatch(a, u, ch, have, want, g) => {
                m.append("Array '");
                m.append(a.as_str());
                m.append("' in universe '");
                m.append(u.as_str());
                m.append("': channel ");
                append_chars(&mut m, &render_u64(*ch as u64));
                m.append(" was defined as ");
                m.append(channel_usage_string(have).as_str());
                m.append(" and is redefined as ");
                m.append(channel_usage_string(want).as_str());
                m.append(" in group @");
                m.append(g.as_str());
            },
            DmxArrayError::ArrayLightChannelNotInAllGroup(a, u, ch, usage, g) => {
                m.append("Array '");
                m.append(a.as_str());
                m.append("' in universe '");
                m.append(u.as_str());
                m.append("': channel ");
                append_chars(&mut m, &render_u64(*ch as u64));
                m.append(" is defined as ");
                m.append(channel_usage_string(usage).as_str());
                m.append(" in group @");
                m.append(g.as_str());
                m.append(" but is not included in @all group");
            },
            DmxArrayError::ValueError(scope, what, msg) => {
                m.append(scope.as_str());
                m.append(" ");
                m.append(what.as_str());
                m.append(": ");
                m.append(msg.as_str());
            },
        }
        m
    }
}

} // verus!
