//! Errors of the Art-Net manager and of the DMX value parsers.

use vstd::prelude::*;

use crate::strutil::{append_chars, render_u64, spec_render_uint};

verus! {

#[derive(Debug)]
pub enum ArtnetError {
    /// Universe number out of range (must be less than 16).
    InvalidUniverseNumber(u8),
    /// No universe with this id is defined.
    InvalidUniverse(String),
    /// Subnet number out of range (must be less than 16).
    InvalidSubnet(u8),
    /// Net number out of range (must be less than 128).
    InvalidNet(u8),
    /// Channel count out of range (must be at most 512).
    TooManyChannels(u16),
    /// Channel address at least the universe's channel count:
    /// universe description, channel, channel count.
    InvalidChannel(String, u16, u16),
    /// A channel definition string that does not parse.
    InvalidChannelAddress(String),
    /// A dimmer value string that does not parse.
    InvalidDimmerValue(String),
    /// A target value string that names the same value family twice.
    AmbiguousTargetValue(String),
    /// A channel was to be set but the target value has no value for its
    /// family: channel rendering, target rendering.
    MissingTargetValue(String, String),
    /// The value written does not have the shape of the channel:
    /// universe description, channel rendering, value rendering.
    ChannelValueMismatch(String, String, String),
}

/// The rendering of each error, character for character.
pub open spec fn spec_artnet_error_message(e: &ArtnetError) -> Seq<char> {
    match e {
        ArtnetError::InvalidUniverseNumber(n) => "Invalid universe number: "@ + spec_render_uint(
            *n as int,
        ) + " (must be less than 16)"@,
        ArtnetError::InvalidUniverse(id) => "No universe with ID '"@ + id@ + "' is defined"@,
        ArtnetError::InvalidSubnet(n) => "Invalid subnet number: "@ + spec_render_uint(*n as int)
            + " (must be less than 16)"@,
        ArtnetError::InvalidNet(n) => "Invalid net number: "@ + spec_render_uint(*n as int)
            + " (must be less than 128)"@,
        ArtnetError::TooManyChannels(n) => "Too many channels: "@ + spec_render_uint(*n as int)
            + " (must be less than 512)"@,
        ArtnetError::InvalidChannel(d, ch, count) => "Invalid channel address for universe "@ + d@
            + ": "@ + spec_render_uint(*ch as int) + " (must be less than "@ + spec_render_uint(
            *count as int,
        ) + ")"@,
        ArtnetError::InvalidChannelAddress(s) => "Invalid channel address: '"@ + s@,
        ArtnetError::InvalidDimmerValue(s) => "Invalid dimmer value: '"@ + s@ + "'"@,
        ArtnetError::AmbiguousTargetValue(s) => "Ambiguous target value: '"@ + s@ + "'"@,
        ArtnetError::MissingTargetValue(ch, t) => "You try to set a value of channel "@ + ch@
            + " however target "@ + t@ + " has no value for this type of channel"@,
        ArtnetError::ChannelValueMismatch(d, ch, v) => "Cannot set channel "@ + ch@ + " of universe "@
            + d@ + " to "@ + v@ + " since the value does not match the channel type"@,
    }
}

impl ArtnetError {
    /// Renders the error as its message text.
    pub fn message(&self) -> (r: String)
        ensures
            r@ == spec_artnet_error_message(self),
    {
        let mut m = String::new();
        match self {
            ArtnetError::InvalidUniverseNumber(n) => {
                m.append("Invalid universe number: ");
                append_chars(&mut m, &render_u64(*n as u64));
                m.append(" (must be less than 16)");
            },
            ArtnetError::InvalidUniverse(id) => {
                m.append("No universe with ID '");
                m.append(id.as_str());
                m.append("' is defined");
            },
            ArtnetError::InvalidSubnet(n) => {
                m.append("Invalid subnet number: ");
                append_chars(&mut m, &render_u64(*n as u64));
                m.append(" (must be less than 16)");
            },
            ArtnetError::InvalidNet(n) => {
                m.append("Invalid net number: ");
                append_chars(&mut m, &render_u64(*n as u64));
                m.append(" (must be less than 128)");
            },
            ArtnetError::TooManyChannels(n) => {
                m.append("Too many channels: ");
                append_chars(&mut m, &render_u64(*n as u64));
                m.append(" (must be less than 512)");
            },
            ArtnetError::InvalidChannel(d, ch, count) => {
                m.append("Invalid channel address for universe ");
                m.append(d.as_str());
                m.append(": ");
                append_chars(&mut m, &render_u64(*ch as u64));
                m.append(" (must be less than ");
                append_chars(&mut m, &render_u64(*count as u64));
                m.append(")");
            },
            ArtnetError::InvalidChannelAddress(s) => {
                m.append("Invalid channel address: '");
                m.append(s.as_str());
            },
            ArtnetError::InvalidDimmerValue(s) => {
                m.append("Invalid dimmer value: '");
                m.append(s.as_str());
                m.append("'");
            },
            ArtnetError::AmbiguousTargetValue(s) => {
                m.append("Ambiguous target value: '");
                m.append(s.as_str());
                m.append("'");
            },
            ArtnetError::MissingTargetValue(ch, t) => {
                m.append("You try to set a value of channel ");
                m.append(ch.as_str());
                m.append(" however target ");
                m.append(t.as_str());
                m.append(" has no value for this type of channel");
            },
            ArtnetError::ChannelValueMismatch(d, ch, v) => {
                m.append("Cannot set channel ");
                m.append(ch.as_str());
                m.append(" of universe ");
                m.append(d.as_str());
                m.append(" to ");
                m.append(v.as_str());
                m.append(" since the value does not match the channel type");
            },
        }
        m
    }
}

} // verus!
