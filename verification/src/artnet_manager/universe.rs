//! One DMX universe: its Art-Net output frame and transmission state.

use vstd::prelude::*;

use super::ArtnetError;
use crate::defs::UniverseDefinition;
use crate::dmx::{
    channel_definition_string, dimmer_value_string, ChannelDefinition, ChannelValue, DimmerValue,
};

verus! {

/// Offset of the DMX data region in an Art-Net frame.
pub const DMX_DATA_OFFSET: usize = 18;

/// Offset of the sequence byte in an Art-Net frame.
pub const DMX_SEQ_OFFSET: usize = 12;

/// `channels` rounded up to an even count.
pub open spec fn spec_round_up_even(n: int) -> int {
    if n % 2 == 0 {
        n
    } else {
        n + 1
    }
}

/// The 18-byte Art-Net header for one universe: the protocol name, the
/// ArtDmx opcode (little endian), the protocol version (big endian), the
/// sequence and physical bytes, the address bytes and the data length (big
/// endian).
pub open spec fn spec_artnet_header(net: u8, subnet: u8, universe: u8, channel_count: int) -> Seq<
    u8,
> {
    seq![
        'A' as u8,
        'r' as u8,
        't' as u8,
        '-' as u8,
        'N' as u8,
        'e' as u8,
        't' as u8,
        0u8,
        0x00u8,
        0x50u8,
        0x00u8,
        0x14u8,
        0x00u8,
        0x00u8,
        (subnet * 16 + universe) as u8,
        net,
        (channel_count / 256) as u8,
        (channel_count % 256) as u8,
    ]
}

/// The Art-Net frame layout: byte 14 combines subnet and universe, byte 15
/// is the net, bytes 16 and 17 are the channel count in big-endian order,
/// and the whole frame is the 18-byte header plus one byte per channel,
/// rounded up to an even count.
pub proof fn lemma_artnet_packet_layout(net: u8, subnet: u8, universe: u8, channels: u16)
    requires
        net <= 127,
        subnet <= 15,
        universe <= 15,
        channels <= 512,
    ensures
        ({
            let count = spec_round_up_even(channels as int);
            let packet = spec_artnet_header(net, subnet, universe, count) + Seq::<u8>::new(
                count as nat,
                |i: int| 0u8,
            );
            &&& packet.len() == 18 + count
            &&& packet[14] == subnet * 16 + universe
            &&& packet[15] == net
            &&& packet[16] == count / 256
            &&& packet[17] == count % 256
        }),
{
}

#[derive(Debug)]
pub struct Universe {
    /// `universe_id (description)`, for error messages.
    pub description: String,
    /// The controller address this universe transmits to.
    pub controller: String,
    /// The complete Art-Net frame: 18-byte header, then one byte per channel.
    pub packet_bytes: Vec<u8>,
    /// Whether a channel was written since the last transmission.
    pub modified: bool,
    /// Record channel writes, for testing.
    pub log: bool,
    /// Do not actually transmit packets, for testing.
    pub disable_send: bool,
    /// Ticks since the last transmission while unmodified.
    pub non_modified_ticks: usize,
}

impl Universe {
    /// The frame is a header plus an even DMX data region of at most 512
    /// bytes.
    pub open spec fn wf(&self) -> bool {
        &&& self.packet_bytes@.len() >= DMX_DATA_OFFSET
        &&& self.packet_bytes@.len() <= DMX_DATA_OFFSET + 512
        &&& (self.packet_bytes@.len() - DMX_DATA_OFFSET) % 2 == 0
    }

    /// The number of channels the frame carries.
    pub open spec fn spec_channel_count(&self) -> int {
        self.packet_bytes@.len() - DMX_DATA_OFFSET
    }

    /// Builds a universe from its definition, laying out the Art-Net frame
    /// with all channels at zero.
    pub fn new(universe_id: &str, definition: UniverseDefinition) -> (r: Result<
        Universe,
        ArtnetError,
    >)
        ensures
            match r {
                Ok(u) => {
                    &&& definition.universe <= 15
                    &&& definition.subnet <= 15
                    &&& definition.net <= 127
                    &&& definition.channels <= 512
                    &&& u.wf()
                    &&& u.spec_channel_count() == spec_round_up_even(definition.channels as int)
                    &&& u.packet_bytes@ == spec_artnet_header(
                        definition.net,
                        definition.subnet,
                        definition.universe,
                        u.spec_channel_count(),
                    ) + Seq::<u8>::new(u.spec_channel_count() as nat, |i: int| 0u8)
                    &&& u.description@ == universe_id@ + " ("@ + definition.description@ + ")"@
                    &&& u.controller@ == definition.controller@
                    &&& u.modified == false
                    &&& u.non_modified_ticks == 0
                    &&& u.log == definition.log
                    &&& u.disable_send == definition.disable_send
                },
                Err(ArtnetError::InvalidUniverseNumber(n)) => definition.universe > 15 && n
                    == definition.universe,
                Err(ArtnetError::InvalidSubnet(n)) => definition.universe <= 15
                    && definition.subnet > 15 && n == definition.subnet,
                Err(ArtnetError::InvalidNet(n)) => definition.universe <= 15 && definition.subnet
                    <= 15 && definition.net > 127 && n == definition.net,
                Err(ArtnetError::TooManyChannels(n)) => definition.universe <= 15
                    && definition.subnet <= 15 && definition.net <= 127 && definition.channels
                    > 512 && n == definition.channels,
                Err(_) => false,
            },
    {
        if definition.universe > 15 {
            return Err(ArtnetError::InvalidUniverseNumber(definition.universe));
        }
        if definition.subnet > 15 {
            return Err(ArtnetError::InvalidSubnet(definition.subnet));
        }
        if definition.net > 127 {
            return Err(ArtnetError::InvalidNet(definition.net));
        }
        if definition.channels > 512 {
            return Err(ArtnetError::TooManyChannels(definition.channels));
        }
        let channel_count: usize = if definition.channels % 2 == 0 {
            definition.channels as usize
        } else {
            (definition.channels + 1) as usize
        };
        let mut packet_bytes: Vec<u8> = Vec::new();
        packet_bytes.push('A' as u8);
        packet_bytes.push('r' as u8);
        packet_bytes.push('t' as u8);
        packet_bytes.push('-' as u8);
        packet_bytes.push('N' as u8);
        packet_bytes.push('e' as u8);
        packet_bytes.push('t' as u8);
        packet_bytes.push(0u8);
        packet_bytes.push(0x00u8);
        packet_bytes.push(0x50u8);
        packet_bytes.push(0x00u8);
        packet_bytes.push(0x14u8);
        packet_bytes.push(0x00u8);
        packet_bytes.push(0x00u8);
        packet_bytes.push(definition.subnet * 16 + definition.universe);
        packet_bytes.push(definition.net);
        packet_bytes.push((channel_count / 256) as u8);
        packet_bytes.push((channel_count % 256) as u8);
        proof {
            assert(packet_bytes@ =~= spec_artnet_header(
                definition.net,
                definition.subnet,
                definition.universe,
                channel_count as int,
            ));
        }
        let ghost header = packet_bytes@;
        let mut i: usize = 0;
        while i < channel_count
            invariant
                i <= channel_count,
                packet_bytes@ == header + Seq::<u8>::new(i as nat, |k: int| 0u8),
            decreases channel_count - i,
        {
            packet_bytes.push(0u8);
            i = i + 1;
            proof {
                assert(packet_bytes@ =~= header + Seq::<u8>::new(i as nat, |k: int| 0u8));
            }
        }
        let mut description = String::new();
        description.append(universe_id);
        description.append(" (");
        description.append(definition.description.as_str());
        description.append(")");
        Ok(
            Universe {
                description,
                controller: definition.controller,
                packet_bytes,
                modified: false,
                log: definition.log,
                disable_send: definition.disable_send,
                non_modified_ticks: 0,
            },
        )
    }

    /// The number of channels in the frame.
    pub fn get_channel_count(&self) -> (r: u16)
        requires
            self.wf(),
        ensures
            r == self.spec_channel_count(),
    {
        (self.packet_bytes.len() - DMX_DATA_OFFSET) as u16
    }

    /// Rejects a channel index outside the frame.
    fn validate_channel(&self, channel: u16) -> (r: Result<(), ArtnetError>)
        requires
            self.wf(),
        ensures
            match r {
                Ok(()) => channel < self.spec_channel_count(),
                Err(ArtnetError::InvalidChannel(d, ch, count)) => {
                    &&& channel >= self.spec_channel_count()
                    &&& d@ == self.description@
                    &&& ch == channel
                    &&& count == self.spec_channel_count()
                },
                Err(_) => false,
            },
    {
        let count = self.get_channel_count();
        if channel >= count {
            Err(ArtnetError::InvalidChannel(self.description.clone(), channel, count))
        } else {
            Ok(())
        }
    }

    /// The first constituent channel of a definition that lies outside a
    /// frame of `count` channels; meaningful only when one does.
    pub open spec fn spec_first_invalid(count: int, cd: ChannelDefinition) -> u16 {
        match cd {
            ChannelDefinition::Single(c) => c,
            ChannelDefinition::Rgb(a, b, c) => if a >= count {
                a
            } else if b >= count {
                b
            } else {
                c
            },
            ChannelDefinition::TriWhite(a, b, c) => if a >= count {
                a
            } else if b >= count {
                b
            } else {
                c
            },
        }
    }

    /// Whether a value has the shape of its channel definition.
    pub open spec fn spec_shape_matches(cd: ChannelDefinition, v: DimmerValue) -> bool {
        match (cd, v) {
            (ChannelDefinition::Single(_), DimmerValue::Single(_)) => true,
            (ChannelDefinition::Rgb(_, _, _), DimmerValue::Rgb(_, _, _)) => true,
            (ChannelDefinition::TriWhite(_, _, _), DimmerValue::TriWhite(_, _, _)) => true,
            _ => false,
        }
    }

    /// Every channel index a definition names lies inside the frame.
    pub open spec fn spec_channels_valid(&self, cd: ChannelDefinition) -> bool {
        match cd {
            ChannelDefinition::Single(c) => c < self.spec_channel_count(),
            ChannelDefinition::Rgb(a, b, c) => a < self.spec_channel_count() && b
                < self.spec_channel_count() && c < self.spec_channel_count(),
            ChannelDefinition::TriWhite(a, b, c) => a < self.spec_channel_count() && b
                < self.spec_channel_count() && c < self.spec_channel_count(),
        }
    }

    /// The frame after writing a channel value into the DMX data region.
    pub open spec fn spec_written(bytes: Seq<u8>, v: ChannelValue) -> Seq<u8> {
        match (v.channel, v.value) {
            (ChannelDefinition::Single(c), DimmerValue::Single(x)) => bytes.update(
                DMX_DATA_OFFSET + c,
                x,
            ),
            (ChannelDefinition::Rgb(ca, cb, cc), DimmerValue::Rgb(a, b, c)) => bytes.update(
                DMX_DATA_OFFSET + ca,
                a,
            ).update(DMX_DATA_OFFSET + cb, b).update(DMX_DATA_OFFSET + cc, c),
            (ChannelDefinition::TriWhite(ca, cb, cc), DimmerValue::TriWhite(a, b, c)) => bytes
                .update(DMX_DATA_OFFSET + ca, a).update(DMX_DATA_OFFSET + cb, b).update(
                DMX_DATA_OFFSET + cc,
                c,
            ),
            _ => bytes,
        }
    }

    /// Writes a channel value into the frame and marks the universe
    /// modified. Fails on a channel outside the frame, and on a value whose
    /// shape does not match the channel's.
    pub fn set_channel(&mut self, v: &ChannelValue) -> (r: Result<(), ArtnetError>)
        requires
            old(self).wf(),
        ensures
            final(self).wf(),
            final(self).description == old(self).description,
            final(self).controller == old(self).controller,
            final(self).log == old(self).log,
            final(self).disable_send == old(self).disable_send,
            final(self).non_modified_ticks == old(self).non_modified_ticks,
            final(self).spec_channel_count() == old(self).spec_channel_count(),
            match r {
                Ok(()) => {
                    &&& old(self).spec_channels_valid(v.channel)
                    &&& Universe::spec_shape_matches(v.channel, v.value)
                    &&& final(self).packet_bytes@ == Universe::spec_written(
                        old(self).packet_bytes@,
                        *v,
                    )
                    &&& final(self).modified == true
                },
                Err(e) => {
                    &&& *final(self) == *old(self)
                    &&& !(old(self).spec_channels_valid(v.channel)
                        && Universe::spec_shape_matches(v.channel, v.value))
                    &&& match e {
                        ArtnetError::InvalidChannel(d, ch, count) => {
                            &&& !old(self).spec_channels_valid(v.channel)
                            &&& d@ == old(self).description@
                            &&& ch == Universe::spec_first_invalid(
                                old(self).spec_channel_count(),
                                v.channel,
                            )
                            &&& count == old(self).spec_channel_count()
                        },
                        ArtnetError::ChannelValueMismatch(d, ch, val) => {
                            &&& old(self).spec_channels_valid(v.channel)
                            &&& !Universe::spec_shape_matches(v.channel, v.value)
                            &&& d@ == old(self).description@
                            &&& ch@ == crate::dmx::spec_channel_definition_string(v.channel)
                            &&& val@ == crate::dmx::spec_dimmer_value_string(v.value)
                        },
                        _ => false,
                    }
                },
            },
    {
        match v.channel {
            ChannelDefinition::Single(channel) => {
                if let Err(e) = self.validate_channel(channel) {
                    return Err(e);
                }
                if let DimmerValue::Single(value) = v.value {
                    self.packet_bytes.set(DMX_DATA_OFFSET + channel as usize, value);
                    self.modified = true;
                    Ok(())
                } else {
                    Err(
                        ArtnetError::ChannelValueMismatch(
                            self.description.clone(),
                            channel_definition_string(&v.channel),
                            dimmer_value_string(&v.value),
                        ),
                    )
                }
            },
            ChannelDefinition::Rgb(r_channel, g_channel, b_channel) => {
                if let Err(e) = self.validate_channel(r_channel) {
                    return Err(e);
                }
                if let Err(e) = self.validate_channel(g_channel) {
                    return Err(e);
                }
                if let Err(e) = self.validate_channel(b_channel) {
                    return Err(e);
                }
                if let DimmerValue::Rgb(r, g, b) = v.value {
                    self.packet_bytes.set(DMX_DATA_OFFSET + r_channel as usize, r);
                    self.packet_bytes.set(DMX_DATA_OFFSET + g_channel as usize, g);
                    self.packet_bytes.set(DMX_DATA_OFFSET + b_channel as usize, b);
                    self.modified = true;
                    Ok(())
                } else {
                    Err(
                        ArtnetError::ChannelValueMismatch(
                            self.description.clone(),
                            channel_definition_string(&v.channel),
                            dimmer_value_string(&v.value),
                        ),
                    )
                }
            },
            ChannelDefinition::TriWhite(w1_channel, w2_channel, w3_channel) => {
                if let Err(e) = self.validate_channel(w1_channel) {
                    return Err(e);
                }
                if let Err(e) = self.validate_channel(w2_channel) {
                    return Err(e);
                }
                if let Err(e) = self.validate_channel(w3_channel) {
                    return Err(e);
                }
                if let DimmerValue::TriWhite(w1, w2, w3) = v.value {
                    self.packet_bytes.set(DMX_DATA_OFFSET + w1_channel as usize, w1);
                    self.packet_bytes.set(DMX_DATA_OFFSET + w2_channel as usize, w2);
                    self.packet_bytes.set(DMX_DATA_OFFSET + w3_channel as usize, w3);
                    self.modified = true;
                    Ok(())
                } else {
                    Err(
                        ArtnetError::ChannelValueMismatch(
                            self.description.clone(),
                            channel_definition_string(&v.channel),
                            dimmer_value_string(&v.value),
                        ),
                    )
                }
            },
        }
    }

    /// The value the frame holds for a channel definition.
    pub open spec fn spec_read(bytes: Seq<u8>, cd: ChannelDefinition) -> DimmerValue {
        match cd {
            ChannelDefinition::Single(c) => DimmerValue::Single(bytes[DMX_DATA_OFFSET + c]),
            ChannelDefinition::Rgb(a, b, c) => DimmerValue::Rgb(
                bytes[DMX_DATA_OFFSET + a],
                bytes[DMX_DATA_OFFSET + b],
                bytes[DMX_DATA_OFFSET + c],
            ),
            ChannelDefinition::TriWhite(a, b, c) => DimmerValue::TriWhite(
                bytes[DMX_DATA_OFFSET + a],
                bytes[DMX_DATA_OFFSET + b],
                bytes[DMX_DATA_OFFSET + c],
            ),
        }
    }

    /// Reads the value of a channel definition back from the frame.
    pub fn get_channel(&self, channel_definition: &ChannelDefinition) -> (r: Result<
        ChannelValue,
        ArtnetError,
    >)
        requires
            self.wf(),
        ensures
            match r {
                Ok(cv) => {
                    &&& self.spec_channels_valid(*channel_definition)
                    &&& cv.channel == *channel_definition
                    &&& cv.value == Universe::spec_read(self.packet_bytes@, *channel_definition)
                },
                Err(ArtnetError::InvalidChannel(d, ch, count)) => {
                    &&& !self.spec_channels_valid(*channel_definition)
                    &&& d@ == self.description@
                    &&& ch == Universe::spec_first_invalid(
                        self.spec_channel_count(),
                        *channel_definition,
                    )
                    &&& count == self.spec_channel_count()
                },
                Err(_) => false,
            },
    {
        match channel_definition {
            ChannelDefinition::Single(s) => {
                if let Err(e) = self.validate_channel(*s) {
                    return Err(e);
                }
                Ok(
                    ChannelValue {
                        channel: *channel_definition,
                        value: DimmerValue::Single(self.packet_bytes[DMX_DATA_OFFSET + *s as usize]),
                    },
                )
            },
            ChannelDefinition::Rgb(r, g, b) => {
                if let Err(e) = self.validate_channel(*r) {
                    return Err(e);
                }
                if let Err(e) = self.validate_channel(*g) {
                    return Err(e);
                }
                if let Err(e) = self.validate_channel(*b) {
                    return Err(e);
                }
                Ok(
                    ChannelValue {
                        channel: *channel_definition,
                        value: DimmerValue::Rgb(
                            self.packet_bytes[DMX_DATA_OFFSET + *r as usize],
                            self.packet_bytes[DMX_DATA_OFFSET + *g as usize],
                            self.packet_bytes[DMX_DATA_OFFSET + *b as usize],
                        ),
                    },
                )
            },
            ChannelDefinition::TriWhite(w1, w2, w3) => {
                if let Err(e) = self.validate_channel(*w1) {
                    return Err(e);
                }
                if let Err(e) = self.validate_channel(*w2) {
                    return Err(e);
                }
                if let Err(e) = self.validate_channel(*w3) {
                    return Err(e);
                }
                Ok(
                    ChannelValue {
                        channel: *channel_definition,
                        value: DimmerValue::TriWhite(
                            self.packet_bytes[DMX_DATA_OFFSET + *w1 as usize],
                            self.packet_bytes[DMX_DATA_OFFSET + *w2 as usize],
                            self.packet_bytes[DMX_DATA_OFFSET + *w3 as usize],
                        ),
                    },
                )
            },
        }
    }

    /// Takes the frame for transmission: returns the bytes to send, then
    /// advances the sequence byte (wrapping) and re-arms the modified
    /// bookkeeping.
    pub fn send(&mut self) -> (frame: Vec<u8>)
        requires
            old(self).wf(),
        ensures
            final(self).wf(),
            frame@ == old(self).packet_bytes@,
            final(self).packet_bytes@ == old(self).packet_bytes@.update(
                DMX_SEQ_OFFSET as int,
                ((old(self).packet_bytes@[DMX_SEQ_OFFSET as int] as int + 1) % 256) as u8,
            ),
            final(self).modified == false,
            final(self).non_modified_ticks == 0,
            final(self).description == old(self).description,
            final(self).controller == old(self).controller,
            final(self).log == old(self).log,
            final(self).disable_send == old(self).disable_send,
    {
        let frame = self.packet_bytes.clone();
        let seq_byte = self.packet_bytes[DMX_SEQ_OFFSET];
        let next: u8 = if seq_byte == 255 {
            0
        } else {
            seq_byte + 1
        };
        self.packet_bytes.set(DMX_SEQ_OFFSET, next);
        self.modified = false;
        self.non_modified_ticks = 0;
        frame
    }
}

} // verus!
