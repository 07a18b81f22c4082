//! The Art-Net manager: universes, controllers and active effects.

use vstd::prelude::*;

use super::runtime_nodes::{tick_node, EffectNodeRuntime};
use super::universe::Universe;
use super::ArtnetError;
use crate::defs::{SetChannelsParameters, TargetValue, UniverseDefinition};
use crate::dmx::{
    channel_definition_string, spec_parse_channel_definition, ChannelDefinition, ChannelParse,
    ChannelValue,
};
use crate::strmap::StrMap;
use crate::strutil::{chars_of, spec_split, split_chars, string_from_chars};

verus! {

/// An unmodified universe is still transmitted after this many ticks, to
/// keep Art-Net receivers alive.
pub const SEND_UNMODIFIED_UNIVERSE_EVERY: usize = 80;

pub struct ArtnetManager {
    pub universes: StrMap<Universe>,
    pub active_effects: StrMap<EffectNodeRuntime>,
    /// Channel writes recorded for universes with `log` set, for testing.
    pub set_channel_log: Vec<ChannelValue>,
}

impl ArtnetManager {
    /// Every universe in the map is well formed, and so are the maps.
    pub open spec fn wf(&self) -> bool {
        &&& self.universes.wf()
        &&& self.active_effects.wf()
        &&& forall|k: Seq<char>|
            self.universes@.contains_key(k) ==> (#[trigger] self.universes@[k]).wf()
        &&& forall|k: Seq<char>|
            self.active_effects@.contains_key(k) ==> (#[trigger] self.active_effects@[k]).wf()
    }

    pub fn new() -> (r: ArtnetManager)
        ensures
            r.wf(),
            r.universes@ == Map::<Seq<char>, Universe>::empty(),
            r.active_effects@ == Map::<Seq<char>, EffectNodeRuntime>::empty(),
            r.set_channel_log@ == Seq::<ChannelValue>::empty(),
    {
        ArtnetManager {
            universes: StrMap::new(),
            active_effects: StrMap::new(),
            set_channel_log: Vec::new(),
        }
    }

    /// Creates a universe from its definition and installs it under the id,
    /// replacing any universe already there.
    pub fn add_universe(&mut self, universe_id: &str, definition: UniverseDefinition) -> (r: Result<
        (),
        ArtnetError,
    >)
        requires
            old(self).wf(),
        ensures
            final(self).wf(),
            final(self).active_effects@ == old(self).active_effects@,
            final(self).set_channel_log@ == old(self).set_channel_log@,
            match r {
                Ok(()) => {
                    &&& definition.universe <= 15
                    &&& definition.subnet <= 15
                    &&& definition.net <= 127
                    &&& definition.channels <= 512
                    &&& final(self).universes@.contains_key(universe_id@)
                    &&& final(self).universes@ == old(self).universes@.insert(
                        universe_id@,
                        final(self).universes@[universe_id@],
                    )
                    &&& {
                        let u = final(self).universes@[universe_id@];
                        &&& u.spec_channel_count() == super::universe::spec_round_up_even(
                            definition.channels as int,
                        )
                        &&& u.packet_bytes@ == super::universe::spec_artnet_header(
                            definition.net,
                            definition.subnet,
                            definition.universe,
                            u.spec_channel_count(),
                        ) + Seq::<u8>::new(u.spec_channel_count() as nat, |i: int| 0u8)
                        &&& u.controller@ == definition.controller@
                        &&& u.modified == false
                    }
                },
                Err(e) => {
                    &&& final(self).universes@ == old(self).universes@
                    &&& match e {
                        ArtnetError::InvalidUniverseNumber(n) => definition.universe > 15,
                        ArtnetError::InvalidSubnet(n) => definition.subnet > 15,
                        ArtnetError::InvalidNet(n) => definition.net > 127,
                        ArtnetError::TooManyChannels(n) => definition.channels > 512,
                        _ => false,
                    }
                },
            },
    {
        match Universe::new(universe_id, definition) {
            Ok(universe) => {
                self.universes.insert(universe_id.to_owned(), universe);
                Ok(())
            },
            Err(e) => Err(e),
        }
    }

    /// Removes a universe; an unknown id is an error.
    pub fn remove_universe(&mut self, universe_id: &str) -> (r: Result<(), ArtnetError>)
        requires
            old(self).wf(),
        ensures
            final(self).wf(),
            final(self).active_effects@ == old(self).active_effects@,
            final(self).set_channel_log@ == old(self).set_channel_log@,
            match r {
                Ok(()) => {
                    &&& old(self).universes@.contains_key(universe_id@)
                    &&& final(self).universes@ == old(self).universes@.remove(universe_id@)
                },
                Err(ArtnetError::InvalidUniverse(id)) => {
                    &&& !old(self).universes@.contains_key(universe_id@)
                    &&& final(self).universes@ == old(self).universes@
                    &&& id@ == universe_id@
                },
                Err(_) => false,
            },
    {
        if self.universes.contains_key(universe_id) {
            self.universes.remove(universe_id);
            Ok(())
        } else {
            Err(ArtnetError::InvalidUniverse(universe_id.to_owned()))
        }
    }

    /// The distinct controller addresses the universes transmit to,
    /// without duplicates and without omissions: the reference counts of
    /// the controller sockets follow this list.
    pub fn controllers(&self) -> (r: Vec<String>)
        requires
            self.wf(),
        ensures
            forall|i: int, j: int| 0 <= i < j < r@.len() ==> r@[i]@ != r@[j]@,
            forall|i: int|
                0 <= i < r@.len() ==> is_controller_of(
                    (#[trigger] r@[i])@,
                    self.universes.spec_entries(),
                ),
            forall|p: int|
                0 <= p < self.universes.spec_entries().len() ==> appears(
                    (#[trigger] self.universes.spec_entries()[p]).1.controller@,
                    r@,
                ),
    {
        let mut all: Vec<String> = Vec::new();
        let mut k: usize = 0;
        let n = self.universes.len();
        while k < n
            invariant
                k <= n,
                n == self.universes.spec_entries().len(),
                self.wf(),
                all@.len() == k,
                forall|p: int|
                    0 <= p < k ==> (#[trigger] all@[p])@ == self.universes.spec_entries()[
                        p
                    ].1.controller@,
            decreases n - k,
        {
            all.push(self.universes.val_at(k).controller.clone());
            k = k + 1;
        }
        let r = dedup_strings(&all);
        proof {
            let entries = self.universes.spec_entries();
            assert forall|i: int| 0 <= i < r@.len() implies is_controller_of(
                (#[trigger] r@[i])@,
                entries,
            ) by {
                assert(appears((r@[i])@, all@));
                let p = choose|p: int| 0 <= p < all@.len() && (#[trigger] all@[p])@ == (r@[i])@;
                assert(entries[p].1.controller@ == (r@[i])@);
            }
            assert forall|p: int| 0 <= p < entries.len() implies appears(
                (#[trigger] entries[p]).1.controller@,
                r@,
            ) by {
                assert((all@[p])@ == entries[p].1.controller@);
                assert(appears((all@[p])@, r@));
            }
        }
        r
    }

    /// Installs an effect runtime under an id, replacing a running effect
    /// with the same id.
    pub fn start_effect(&mut self, effect_id: &str, effect: EffectNodeRuntime) -> (r: Result<
        (),
        ArtnetError,
    >)
        requires
            old(self).wf(),
            effect.wf(),
        ensures
            final(self).wf(),
            final(self).universes@ == old(self).universes@,
            final(self).set_channel_log@ == old(self).set_channel_log@,
            r is Ok,
            final(self).active_effects@ == old(self).active_effects@.insert(effect_id@, effect),
    {
        self.active_effects.insert(effect_id.to_owned(), effect);
        Ok(())
    }

    /// Removes the effect under an id; an unknown id is a no-op success.
    pub fn stop_effect(&mut self, effect_id: &str) -> (r: Result<(), ArtnetError>)
        requires
            old(self).wf(),
        ensures
            final(self).wf(),
            final(self).universes@ == old(self).universes@,
            final(self).set_channel_log@ == old(self).set_channel_log@,
            r is Ok,
            final(self).active_effects@ == old(self).active_effects@.remove(effect_id@),
    {
        self.active_effects.remove(effect_id);
        Ok(())
    }

    /// Writes a channel value into a universe's frame.
    pub fn set_channel(&mut self, universe_id: &str, v: &ChannelValue) -> (r: Result<
        (),
        ArtnetError,
    >)
        requires
            old(self).wf(),
        ensures
            final(self).wf(),
            final(self).active_effects@ == old(self).active_effects@,
            final(self).universes@.dom() == old(self).universes@.dom(),
            match r {
                Ok(()) => {
                    &&& old(self).universes@.contains_key(universe_id@)
                    &&& {
                        let u = old(self).universes@[universe_id@];
                        let u2 = final(self).universes@[universe_id@];
                        &&& u.spec_channels_valid(v.channel)
                        &&& Universe::spec_shape_matches(v.channel, v.value)
                        &&& u2.packet_bytes@ == Universe::spec_written(u.packet_bytes@, *v)
                        &&& u2.modified == true
                        &&& u2.controller == u.controller
                        &&& u2.log == u.log
                        &&& u2.disable_send == u.disable_send
                        &&& u2.description == u.description
                        &&& u2.non_modified_ticks == u.non_modified_ticks
                        &&& final(self).universes@ == old(self).universes@.insert(universe_id@, u2)
                        &&& final(self).set_channel_log@ == if u.log {
                            old(self).set_channel_log@.push(*v)
                        } else {
                            old(self).set_channel_log@
                        }
                    }
                },
                Err(e) => {
                    &&& final(self).universes@ == old(self).universes@
                    &&& final(self).set_channel_log@ == old(self).set_channel_log@
                    &&& match e {
                        ArtnetError::InvalidUniverse(id) => !old(self).universes@.contains_key(
                            universe_id@,
                        ) && id@ == universe_id@,
                        ArtnetError::InvalidChannel(_, ch, _) => old(self).universes@.contains_key(
                            universe_id@,
                        ) && !old(self).universes@[universe_id@].spec_channels_valid(v.channel)
                            && ch == Universe::spec_first_invalid(
                            old(self).universes@[universe_id@].spec_channel_count(),
                            v.channel,
                        ),
                        ArtnetError::ChannelValueMismatch(_, _, _) => old(
                            self,
                        ).universes@.contains_key(universe_id@) && old(
                            self,
                        ).universes@[universe_id@].spec_channels_valid(v.channel)
                            && !Universe::spec_shape_matches(v.channel, v.value),
                        _ => false,
                    }
                },
            },
    {
        match self.universes.remove_take(universe_id) {
            Some(mut u) => {
                let ghost old_u = u;
                let log = u.log;
                let result = u.set_channel(v);
                match result {
                    Ok(()) => {
                        if log {
                            self.set_channel_log.push(*v);
                        }
                        self.universes.insert(universe_id.to_owned(), u);
                        proof {
                            assert(final(self).universes@ =~= old(self).universes@.insert(
                                universe_id@,
                                u,
                            ));
                            assert(final(self).universes@.dom() =~= old(self).universes@.dom());
                        }
                        Ok(())
                    },
                    Err(e) => {
                        self.universes.insert(universe_id.to_owned(), u);
                        proof {
                            assert(final(self).universes@ =~= old(self).universes@);
                            assert(final(self).universes@.dom() =~= old(self).universes@.dom());
                        }
                        Err(e)
                    },
                }
            },
            None => Err(ArtnetError::InvalidUniverse(universe_id.to_owned())),
        }
    }

    /// Reads a channel value back from a universe's frame.
    pub fn get_channel(&self, universe_id: &str, channel_definition: &ChannelDefinition) -> (r:
        Result<ChannelValue, ArtnetError>)
        requires
            self.wf(),
        ensures
            match r {
                Ok(cv) => {
                    &&& self.universes@.contains_key(universe_id@)
                    &&& self.universes@[universe_id@].spec_channels_valid(*channel_definition)
                    &&& cv.channel == *channel_definition
                    &&& cv.value == Universe::spec_read(
                        self.universes@[universe_id@].packet_bytes@,
                        *channel_definition,
                    )
                },
                Err(e) => match e {
                    ArtnetError::InvalidUniverse(id) => !self.universes@.contains_key(universe_id@)
                        && id@ == universe_id@,
                    ArtnetError::InvalidChannel(_, ch, _) => self.universes@.contains_key(
                        universe_id@,
                    ) && !self.universes@[universe_id@].spec_channels_valid(*channel_definition)
                        && ch == Universe::spec_first_invalid(
                        self.universes@[universe_id@].spec_channel_count(),
                        *channel_definition,
                    ),
                    _ => false,
                },
            },
    {
        match self.universes.get(universe_id) {
            Some(u) => u.get_channel(channel_definition),
            None => Err(ArtnetError::InvalidUniverse(universe_id.to_owned())),
        }
    }

    /// Writes the target value to every listed channel of a universe.
    ///
    /// The channel list is comma-separated channel definitions; the target
    /// is parsed and, when a dimming amount is given, scaled by it; every
    /// listed channel must find a value of its family in the target.
    /// Writes are applied in list order; a failure keeps the writes already
    /// made, as a best-effort runtime operation.
    pub fn set_channels(&mut self, parameters: &SetChannelsParameters) -> (r: Result<
        (),
        ArtnetError,
    >)
        requires
            old(self).wf(),
        ensures
            final(self).wf(),
            final(self).active_effects@ == old(self).active_effects@,
            final(self).universes@.dom() == old(self).universes@.dom(),
            ({
                let channels = spec_parse_channel_list(parameters.channels@);
                let target = crate::dmx::spec_parse_target_value(parameters.target@);
                match r {
                    Ok(()) => {
                        &&& target is Ok
                        &&& channels is Ok
                        &&& {
                            let tv = spec_dimmed_target(target->Ok_0, parameters.dimming_amount);
                            let cds = channels->Ok_0;
                            &&& old(self).universes@.contains_key(parameters.universe_id@)
                            &&& forall|i: int|
                                0 <= i < cds.len() ==> old(self).universes@[parameters.universe_id@
                                ].spec_channels_valid(#[trigger] cds[i]) && tv.spec_get(cds[i])
                                    is Some
                            &&& final(self).universes@[parameters.universe_id@].packet_bytes@
                                == spec_apply_targets(
                                old(self).universes@[parameters.universe_id@].packet_bytes@,
                                cds,
                                tv,
                            )
                            &&& final(self).universes@[parameters.universe_id@].modified == true
                        }
                    },
                    Err(e) => {
                        &&& !({
                            &&& target is Ok
                            &&& channels is Ok
                            &&& old(self).universes@.contains_key(parameters.universe_id@)
                            &&& {
                                let tv = spec_dimmed_target(
                                    target->Ok_0,
                                    parameters.dimming_amount,
                                );
                                let cds = channels->Ok_0;
                                forall|i: int|
                                    0 <= i < cds.len() ==> old(
                                        self,
                                    ).universes@[parameters.universe_id@].spec_channels_valid(
                                        #[trigger] cds[i],
                                    ) && tv.spec_get(cds[i]) is Some
                            }
                        })
                        &&& (e matches ArtnetError::MissingTargetValue(ch, tg) ==> (target is Ok
                            && channels is Ok && tg@ == parameters.target@ && exists|i: int|
                            0 <= i < channels->Ok_0.len() && spec_dimmed_target(
                                target->Ok_0,
                                parameters.dimming_amount,
                            ).spec_get(#[trigger] channels->Ok_0[i]) is None && ch@
                                == crate::dmx::spec_channel_definition_string(
                                channels->Ok_0[i],
                            )))
                        // Writes already made stay: some prefix of the list
                        // was applied before the failure.
                        &&& (channels is Ok && target is Ok && old(self).universes@.contains_key(
                            parameters.universe_id@,
                        ) ==> exists|j: int|
                            #![trigger channels->Ok_0.subrange(0, j)]
                            0 <= j <= channels->Ok_0.len()
                                && final(self).universes@[parameters.universe_id@].packet_bytes@
                                == spec_apply_targets(
                                old(self).universes@[parameters.universe_id@].packet_bytes@,
                                channels->Ok_0.subrange(0, j),
                                spec_dimmed_target(target->Ok_0, parameters.dimming_amount),
                            ))
                    },
                }
            }),
    {
        let target = match TargetValue::parse(parameters.target.as_str()) {
            Ok(t) => t,
            Err(e) => {
                return Err(e);
            },
        };
        let ghost parsed_target = target;
        proof {
            assert(crate::dmx::spec_parse_target_value(parameters.target@) == Ok::<
                TargetValue,
                crate::dmx::TargetFold,
            >(parsed_target));
        }
        let v = chars_of(parameters.channels.as_str());
        let pieces = split_chars(&v, ',');
        let ghost all_pieces = pieces.deep_view();
        let mut channels: Vec<ChannelDefinition> = Vec::new();
        let mut i: usize = 0;
        proof {
            assert(all_pieces =~= spec_split(parameters.channels@, ','));
        }
        while i < pieces.len()
            invariant
                i <= pieces@.len(),
                all_pieces == pieces.deep_view(),
                all_pieces == spec_split(parameters.channels@, ','),
                channels@.len() == i,
                self.wf(),
                self.universes@ == old(self).universes@,
                self.active_effects@ == old(self).active_effects@,
                self.set_channel_log@ == old(self).set_channel_log@,
                forall|j: int|
                    0 <= j < i ==> crate::dmx::spec_parse_channel_definition(#[trigger] all_pieces[j])
                        == ChannelParse::Value(channels@[j]),
            decreases pieces@.len() - i,
        {
            let piece = string_from_chars(&pieces[i]);
            proof {
                assert(all_pieces[i as int] == pieces@[i as int]@);
                assert(piece@ == all_pieces[i as int]);
            }
            match ChannelDefinition::parse(piece.as_str()) {
                Ok(cd) => {
                    channels.push(cd);
                    i = i + 1;
                },
                Err(e) => {
                    proof {
                        lemma_parse_channel_list_fail(parameters.channels@, i as int);
                    }
                    return Err(e);
                },
            }
        }
        proof {
            lemma_parse_channel_list_ok(parameters.channels@, channels@);
        }
        let target = match parameters.dimming_amount {
            Some(amount) => {
                let capped = if amount > crate::defs::DIMMING_AMOUNT_MAX {
                    crate::defs::DIMMING_AMOUNT_MAX
                } else {
                    amount
                };
                target.get_dimmed_value(capped)
            },
            None => target,
        };
        proof {
            assert(target == spec_dimmed_target(parsed_target, parameters.dimming_amount));
        }
        let ghost cds = channels@;
        let ghost uid = parameters.universe_id@;
        let ghost start_universes = self.universes@;
        let mut i: usize = 0;
        while i < channels.len()
            invariant
                i <= channels@.len(),
                channels@ == cds,
                cds.len() >= 1,
                uid == parameters.universe_id@,
                crate::dmx::spec_parse_target_value(parameters.target@) == Ok::<
                    TargetValue,
                    crate::dmx::TargetFold,
                >(parsed_target),
                target == spec_dimmed_target(parsed_target, parameters.dimming_amount),
                spec_parse_channel_list(parameters.channels@) == Ok::<Seq<ChannelDefinition>, ()>(
                    cds,
                ),
                self.wf(),
                self.universes@.dom() == old(self).universes@.dom(),
                self.active_effects@ == old(self).active_effects@,
                start_universes == old(self).universes@,
                i > 0 ==> start_universes.contains_key(uid),
                i > 0 ==> self.universes@ == start_universes.insert(
                    uid,
                    self.universes@[uid],
                ) && self.universes@[uid].packet_bytes@ == spec_apply_targets(
                    start_universes[uid].packet_bytes@,
                    cds.subrange(0, i as int),
                    target,
                ) && self.universes@[uid].spec_channel_count()
                    == start_universes[uid].spec_channel_count() && self.universes@[uid].modified
                    == true,
                i == 0 ==> self.universes@ == start_universes,
                forall|j: int|
                    0 <= j < i ==> start_universes.contains_key(uid)
                        && start_universes[uid].spec_channels_valid(#[trigger] cds[j])
                        && target.spec_get(cds[j]) is Some,
            decreases channels@.len() - i,
        {
            let channel_definition = &channels[i];
            let channel_value = target.get(channel_definition);
            match channel_value {
                Some(value) => {
                    let cv = ChannelValue { channel: *channel_definition, value };
                    let result = self.set_channel(parameters.universe_id.as_str(), &cv);
                    if let Err(e) = result {
                        proof {
                            if start_universes.contains_key(uid) && (forall|j: int|
                                0 <= j < cds.len() ==> start_universes[uid].spec_channels_valid(
                                    #[trigger] cds[j],
                                ) && target.spec_get(cds[j]) is Some) {
                                assert(start_universes[uid].spec_channels_valid(cds[i as int]));
                                assert(target.spec_get(cds[i as int]) is Some);
                                assert(cv.channel == cds[i as int]);
                                assert(cv.value == target.spec_get(cds[i as int])->Some_0);
                                assert(Universe::spec_shape_matches(cv.channel, cv.value));
                                assert(self.universes@.contains_key(uid));
                                if i == 0 {
                                    assert(self.universes@[uid] == start_universes[uid]);
                                } else {
                                    assert(self.universes@[uid].spec_channel_count()
                                        == start_universes[uid].spec_channel_count());
                                }
                                assert(self.universes@[uid].spec_channels_valid(cv.channel));
                                assert(!(e is InvalidUniverse));
                                assert(!(e is InvalidChannel));
                                assert(!(e is ChannelValueMismatch));
                                assert(false);
                            }
                            if start_universes.contains_key(uid) {
                                if i == 0 {
                                    assert(cds.subrange(0, 0)
                                        =~= Seq::<ChannelDefinition>::empty());
                                    assert(self.universes@[uid].packet_bytes@
                                        == spec_apply_targets(
                                        start_universes[uid].packet_bytes@,
                                        cds.subrange(0, 0),
                                        target,
                                    ));
                                } else {
                                    assert(self.universes@[uid].packet_bytes@
                                        == spec_apply_targets(
                                        start_universes[uid].packet_bytes@,
                                        cds.subrange(0, i as int),
                                        target,
                                    ));
                                }
                            }
                        }
                        return Err(e);
                    }
                    proof {
                        assert(result is Ok);
                        assert(start_universes.contains_key(uid));
                        assert(self.universes@ =~= start_universes.insert(
                            uid,
                            self.universes@[uid],
                        ));
                        assert(cv == ChannelValue {
                            channel: cds[i as int],
                            value: target.spec_get(cds[i as int])->Some_0,
                        });
                        assert(cds.subrange(0, i + 1).drop_last() =~= cds.subrange(0, i as int));
                        assert(cds.subrange(0, i + 1).last() == cds[i as int]);
                        if i == 0 {
                            assert(cds.subrange(0, 0).len() == 0);
                            assert(spec_apply_targets(
                                start_universes[uid].packet_bytes@,
                                cds.subrange(0, 0),
                                target,
                            ) == start_universes[uid].packet_bytes@);
                        }
                    }
                    i = i + 1;
                },
                None => {
                    proof {
                        assert(target.spec_get(cds[i as int]) is None);
                        if start_universes.contains_key(uid) {
                            if i == 0 {
                                assert(cds.subrange(0, 0) =~= Seq::<ChannelDefinition>::empty());
                                assert(self.universes@[uid].packet_bytes@ == spec_apply_targets(
                                    start_universes[uid].packet_bytes@,
                                    cds.subrange(0, 0),
                                    target,
                                ));
                            } else {
                                assert(self.universes@[uid].packet_bytes@ == spec_apply_targets(
                                    start_universes[uid].packet_bytes@,
                                    cds.subrange(0, i as int),
                                    target,
                                ));
                            }
                        }
                    }
                    return Err(
                        ArtnetError::MissingTargetValue(
                            channel_definition_string(channel_definition),
                            parameters.target.clone(),
                        ),
                    );
                },
            }
        }
        proof {
            assert(cds.subrange(0, cds.len() as int) =~= cds);
            if cds.len() == 0 {
                assert(spec_apply_targets(
                    start_universes[uid].packet_bytes@,
                    cds,
                    target,
                ) == start_universes[uid].packet_bytes@);
            }
        }
        proof {
            // The channel list always holds at least one piece, so at least
            // one write happened.
            assert(all_pieces.len() >= 1);
            assert(cds.len() >= 1);
        }
        Ok(())
    }

    /// Advances every active effect by one tick; effects that report
    /// themselves done are removed. After the tick no remaining effect is
    /// done, and no new effects appear.
    pub fn tick(&mut self) -> (r: Result<(), ArtnetError>)
        requires
            old(self).wf(),
        ensures
            final(self).wf(),
            final(self).universes@.dom() == old(self).universes@.dom(),
            forall|k: Seq<char>|
                final(self).active_effects@.contains_key(k) ==> old(
                    self,
                ).active_effects@.contains_key(k),
            r is Ok ==> forall|k: Seq<char>|
                final(self).active_effects@.contains_key(k) ==> !(
                #[trigger] final(self).active_effects@[k]).is_done_spec(),
            forall|k: Seq<char>|
                old(self).active_effects@.contains_key(k) && (
                #[trigger] old(self).active_effects@[k]).is_done_spec()
                    ==> !final(self).active_effects@.contains_key(k),
            r is Ok ==> forall|k: Seq<char>|
                old(self).active_effects@.contains_key(k) && spec_survives_tick(
                    #[trigger] old(self).active_effects@[k],
                ) ==> final(self).active_effects@.contains_key(k) && spec_one_tick_progress(
                    old(self).active_effects@[k],
                    final(self).active_effects@[k],
                ),
    {
        let mut entries = self.active_effects.take_entries();
        let mut kept: Vec<(String, EffectNodeRuntime)> = Vec::new();
        let ghost old_entries = entries@;
        let mut i: usize = 0;
        let n_entries = entries.len();
        proof {
            assert(old_entries.len() == n_entries as int);
            assert(entries@ =~= old_entries.subrange(0, old_entries.len() as int));
            assert forall|p: int| 0 <= p < old_entries.len() implies (
            #[trigger] old_entries[p]).1.wf() by {
                crate::strmap::lemma_entries_map_get_pub(old_entries, p);
            }
        }
        while entries.len() > 0
            invariant
                old_entries.len() <= usize::MAX,
                i + entries@.len() == old_entries.len(),
                entries@ == old_entries.subrange(i as int, old_entries.len() as int),
                self.wf(),
                self.universes@.dom() == old(self).universes@.dom(),
                self.active_effects@ == Map::<Seq<char>, EffectNodeRuntime>::empty(),
                crate::strmap::entries_map(old_entries) == old(self).active_effects@,
                crate::strmap::keys_distinct(old_entries),
                crate::strmap::keys_distinct(kept@),
                forall|p: int|
                    0 <= p < old_entries.len() ==> (#[trigger] old_entries[p]).1.wf(),
                forall|p: int|
                    0 <= p < kept@.len() ==> exists|q: int|
                        0 <= q < i && (#[trigger] kept@[p]).0@ == old_entries[q].0@ && !old_entries[
                            q
                        ].1.is_done_spec(),
                forall|p: int|
                    0 <= p < kept@.len() ==> (#[trigger] kept@[p]).1.wf() && !kept@[p
                    ].1.is_done_spec(),
                forall|q: int|
                    0 <= q < i && spec_survives_tick((#[trigger] old_entries[q]).1)
                        ==> spec_retained_advanced(kept@, old_entries[q].0@, old_entries[q].1),
            decreases entries@.len(),
        {
            let (id, node) = entries.remove(0);
            proof {
                assert(old_entries[i as int] == (id, node));
                assert(entries@ =~= old_entries.subrange(i + 1, old_entries.len() as int));
            }
            let (node, result) = tick_node(node, self);
            match result {
                Err(e) => {
                    // A failed tick drops the remaining active effects;
                    // the error is reported upward.
                    let ghost kept_view = kept@;
                    proof {
                        assert forall|p: int| 0 <= p < kept_view.len() implies exists|q: int|
                            0 <= q < old_entries.len() && (#[trigger] kept_view[p]).0@
                                == old_entries[q].0@ && !old_entries[q].1.is_done_spec() by {
                            let q = choose|q: int|
                                0 <= q < i && kept_view[p].0@ == old_entries[q].0@ && !old_entries[
                                    q
                                ].1.is_done_spec();
                            assert(0 <= q < old_entries.len() && kept_view[p].0@ == old_entries[
                                q
                            ].0@ && !old_entries[q].1.is_done_spec());
                        }
                        lemma_reinstated_effects(kept_view, old_entries);
                    }
                    self.active_effects = StrMap::from_entries(kept);
                    return Err(e);
                },
                Ok(()) => {
                    let ghost kept_before = kept@;
                    let ghost advanced = node;
                    if !node.is_done() {
                        proof {
                            assert(!old_entries[i as int].1.is_done_spec());
                            assert forall|p: int| 0 <= p < kept@.len() implies (
                            #[trigger] kept@[p]).0@ != id@ by {
                                let q = choose|q: int|
                                    0 <= q < i && kept@[p].0@ == old_entries[q].0@;
                                assert(old_entries[q].0@ != old_entries[i as int].0@);
                            }
                        }
                        kept.push((id, node));
                    }
                    i = i + 1;
                    proof {
                        assert forall|p: int| 0 <= p < kept@.len() implies exists|q: int|
                            0 <= q < i && (#[trigger] kept@[p]).0@ == old_entries[q].0@
                                && !old_entries[q].1.is_done_spec() by {
                            if p < kept_before.len() {
                                let q = choose|q: int|
                                    0 <= q < i - 1 && (#[trigger] kept_before[p]).0@
                                        == old_entries[q].0@ && !old_entries[q].1.is_done_spec();
                                assert(kept@[p] == kept_before[p]);
                                assert(0 <= q < i && kept@[p].0@ == old_entries[q].0@
                                    && !old_entries[q].1.is_done_spec());
                            } else {
                                assert(kept@[p].0@ == old_entries[i - 1].0@);
                                assert(!old_entries[i - 1].1.is_done_spec());
                            }
                        }
                        assert forall|q: int|
                            0 <= q < i && spec_survives_tick((#[trigger] old_entries[q]).1)
                                implies spec_retained_advanced(
                            kept@,
                            old_entries[q].0@,
                            old_entries[q].1,
                        ) by {
                            if q < i - 1 {
                                let p = choose|p: int|
                                    0 <= p < kept_before.len() && (#[trigger] kept_before[p]).0@
                                        == old_entries[q].0@ && spec_one_tick_progress(
                                        old_entries[q].1,
                                        kept_before[p].1,
                                    );
                                assert(kept@[p].0@ == old_entries[q].0@);
                                assert(spec_one_tick_progress(old_entries[q].1, kept@[p].1));
                            } else {
                                // This entry was just processed: its node
                                // advanced by one tick and is not done.
                                assert(spec_one_tick_progress(old_entries[q].1, advanced));
                                assert(!advanced.is_done_spec());
                                assert(kept@[kept@.len() - 1].0@ == old_entries[q].0@);
                                assert(spec_one_tick_progress(
                                    old_entries[q].1,
                                    kept@[kept@.len() - 1].1,
                                ));
                            }
                        }
                    }
                },
            }
        }
        let ghost kept_view = kept@;
        proof {
            assert forall|p: int| 0 <= p < kept_view.len() implies exists|q: int|
                0 <= q < old_entries.len() && (#[trigger] kept_view[p]).0@ == old_entries[q].0@
                    && !old_entries[q].1.is_done_spec() by {
                let q = choose|q: int|
                    0 <= q < i && kept_view[p].0@ == old_entries[q].0@ && !old_entries[
                        q
                    ].1.is_done_spec();
                assert(0 <= q < old_entries.len() && kept_view[p].0@ == old_entries[q].0@
                    && !old_entries[q].1.is_done_spec());
            }
            lemma_reinstated_effects(kept_view, old_entries);
        }
        self.active_effects = StrMap::from_entries(kept);
        proof {
            crate::strmap::lemma_entries_map_dom(old_entries);
            assert forall|kk: Seq<char>|
                old(self).active_effects@.contains_key(kk) && spec_survives_tick(
                    #[trigger] old(self).active_effects@[kk],
                ) implies final(self).active_effects@.contains_key(kk) && spec_one_tick_progress(
                old(self).active_effects@[kk],
                final(self).active_effects@[kk],
            ) by {
                let q = choose|q: int|
                    0 <= q < old_entries.len() && (#[trigger] old_entries[q]).0@ == kk;
                crate::strmap::lemma_entries_map_get_pub(old_entries, q);
                assert(old_entries[q].1 == old(self).active_effects@[kk]);
                assert(spec_retained_advanced(kept_view, kk, old_entries[q].1));
                let p = choose|p: int|
                    0 <= p < kept_view.len() && (#[trigger] kept_view[p]).0@ == kk
                        && spec_one_tick_progress(old_entries[q].1, kept_view[p].1);
                crate::strmap::lemma_entries_map_get_pub(kept_view, p);
                assert(final(self).active_effects@[kk] == kept_view[p].1);
            }
        }
        Ok(())
    }

    /// Walks the universes after a tick: a modified universe is transmitted;
    /// an unmodified one only counts ticks until the keep-alive threshold
    /// re-arms it. Returns the frames to transmit, each with its
    /// controller's address, in universe order; universes with transmission
    /// disabled advance their state but yield no frame.
    pub fn send_modified_universes(&mut self) -> (frames: Vec<(String, Vec<u8>)>)
        requires
            old(self).wf(),
        ensures
            final(self).wf(),
            final(self).active_effects@ == old(self).active_effects@,
            final(self).universes@.dom() == old(self).universes@.dom(),
            forall|k: Seq<char>|
                final(self).universes@.contains_key(k) ==> {
                    let u = old(self).universes@[k];
                    let u2 = (#[trigger] final(self).universes@)[k];
                    if spec_due(u) {
                        u2.modified == false && u2.non_modified_ticks == 0 && u2.packet_bytes@
                            == u.packet_bytes@.update(
                            super::universe::DMX_SEQ_OFFSET as int,
                            ((u.packet_bytes@[super::universe::DMX_SEQ_OFFSET as int] as int + 1)
                                % 256) as u8,
                        )
                    } else {
                        u2.modified == false && u2.non_modified_ticks == u.non_modified_ticks + 1
                            && u2.packet_bytes@ == u.packet_bytes@
                    }
                },
            frames@.map_values(|fr: (String, Vec<u8>)| (fr.0@, fr.1@)) == spec_frames(
                old(self).universes.spec_entries(),
            ),
    {
        let mut entries = self.universes.take_entries();
        let mut frames: Vec<(String, Vec<u8>)> = Vec::new();
        let mut kept: Vec<(String, Universe)> = Vec::new();
        let mut i: usize = 0;
        let ghost old_entries = entries@;
        let n_entries = entries.len();
        proof {
            assert(old_entries.len() == n_entries as int);
            assert(entries@ =~= old_entries.subrange(0, old_entries.len() as int));
            assert forall|p: int| 0 <= p < old_entries.len() implies (
            #[trigger] old_entries[p]).1.wf() by {
                crate::strmap::lemma_entries_map_get_pub(old_entries, p);
            }
        }
        while entries.len() > 0
            invariant
                old_entries.len() <= usize::MAX,
                i + entries@.len() == old_entries.len(),
                entries@ == old_entries.subrange(i as int, old_entries.len() as int),
                crate::strmap::entries_map(old_entries) == old(self).universes@,
                self.active_effects@ == old(self).active_effects@,
                self.set_channel_log@ == old(self).set_channel_log@,
                self.active_effects.wf(),
                crate::strmap::keys_distinct(old_entries),
                kept@.len() == i,
                forall|p: int| 0 <= p < i ==> (#[trigger] kept@[p]).0 == old_entries[p].0,
                forall|p: int|
                    0 <= p < i ==> {
                        let u = old_entries[p].1;
                        let u2 = (#[trigger] kept@[p]).1;
                        &&& u2.wf()
                        &&& if spec_due(u) {
                            u2.modified == false && u2.non_modified_ticks == 0 && u2.packet_bytes@
                                == u.packet_bytes@.update(
                                super::universe::DMX_SEQ_OFFSET as int,
                                ((u.packet_bytes@[super::universe::DMX_SEQ_OFFSET as int] as int
                                    + 1) % 256) as u8,
                            )
                        } else {
                            u2.modified == false && u2.non_modified_ticks == u.non_modified_ticks
                                + 1 && u2.packet_bytes@ == u.packet_bytes@
                        }
                    },
                frames@.map_values(|fr: (String, Vec<u8>)| (fr.0@, fr.1@)) == spec_frames(
                    old_entries.subrange(0, i as int),
                ),
                forall|p: int| 0 <= p < old_entries.len() ==> (#[trigger] old_entries[p]).1.wf(),
            decreases entries@.len(),
        {
            let (id, mut u) = entries.remove(0);
            let ghost u0 = u;
            let ghost frames_before = frames@;
            proof {
                assert(old_entries[i as int] == (id, u));
                assert(entries@ =~= old_entries.subrange(i + 1, old_entries.len() as int));
            }
            if !u.modified {
                if u.non_modified_ticks >= SEND_UNMODIFIED_UNIVERSE_EVERY - 1 {
                    u.non_modified_ticks = SEND_UNMODIFIED_UNIVERSE_EVERY;
                    u.modified = true;
                } else {
                    u.non_modified_ticks = u.non_modified_ticks + 1;
                }
            }
            if u.modified {
                let frame = u.send();
                if !u.disable_send {
                    frames.push((u.controller.clone(), frame));
                }
            }
            kept.push((id, u));
            i = i + 1;
            proof {
                let pre = old_entries.subrange(0, i as int);
                assert(pre.drop_last() =~= old_entries.subrange(0, i - 1));
                assert(pre.last() == old_entries[i - 1]);
                assert(frames@.map_values(|fr: (String, Vec<u8>)| (fr.0@, fr.1@)) =~= spec_frames(
                    pre,
                ));
            }
        }
        proof {
            assert(forall|p: int, q: int|
                0 <= p < q < kept@.len() ==> (#[trigger] kept@[p]).0@ != (#[trigger] kept@[q]).0@);
        }
        self.universes = StrMap::from_entries(kept);
        proof {
            lemma_entries_pointwise(old_entries, self.universes.spec_entries());
            crate::strmap::lemma_entries_map_dom(old_entries);
            assert(final(self).universes@.dom() =~= old(self).universes@.dom());
            assert forall|k: Seq<char>| final(self).universes@.contains_key(k) implies {
                let u = old(self).universes@[k];
                let u2 = final(self).universes@[k];
                if spec_due(u) {
                    u2.modified == false && u2.non_modified_ticks == 0 && u2.packet_bytes@
                        == u.packet_bytes@.update(
                        super::universe::DMX_SEQ_OFFSET as int,
                        ((u.packet_bytes@[super::universe::DMX_SEQ_OFFSET as int] as int + 1)
                            % 256) as u8,
                    )
                } else {
                    u2.modified == false && u2.non_modified_ticks == u.non_modified_ticks + 1
                        && u2.packet_bytes@ == u.packet_bytes@
                }
            } by {
                let p = choose|p: int|
                    0 <= p < old_entries.len() && (#[trigger] old_entries[p]).0@ == k;
                crate::strmap::lemma_entries_map_get_pub(old_entries, p);
            }
            assert(old_entries.subrange(0, old_entries.len() as int) =~= old_entries);
        }
        frames
    }
}

/// Parses every piece of a comma-separated channel list.
pub open spec fn spec_parse_channel_pieces(pieces: Seq<Seq<char>>) -> Result<
    Seq<ChannelDefinition>,
    (),
>
    decreases pieces.len(),
{
    if pieces.len() == 0 {
        Ok(seq![])
    } else {
        match crate::dmx::spec_parse_channel_definition(pieces[0]) {
            ChannelParse::Value(cd) => match spec_parse_channel_pieces(
                pieces.subrange(1, pieces.len() as int),
            ) {
                Ok(rest) => Ok(seq![cd] + rest),
                Err(()) => Err(()),
            },
            _ => Err(()),
        }
    }
}

/// The channel definitions a comma-separated list denotes.
pub open spec fn spec_parse_channel_list(s: Seq<char>) -> Result<Seq<ChannelDefinition>, ()> {
    spec_parse_channel_pieces(spec_split(s, ','))
}

/// The dimmed target of a `Set` command: absent means full scale; an amount
/// beyond the maximum acts as the maximum.
pub open spec fn spec_dimmed_target(tv: TargetValue, amount: Option<usize>) -> TargetValue {
    match amount {
        Some(a) => tv.spec_dimmed(
            if a > crate::defs::DIMMING_AMOUNT_MAX {
                crate::defs::DIMMING_AMOUNT_MAX as int
            } else {
                a as int
            },
        ),
        None => tv,
    }
}

/// The frame after writing the target's value for each listed channel, in
/// order.
pub open spec fn spec_apply_targets(
    bytes: Seq<u8>,
    cds: Seq<ChannelDefinition>,
    tv: TargetValue,
) -> Seq<u8>
    decreases cds.len(),
{
    if cds.len() == 0 {
        bytes
    } else {
        Universe::spec_written(
            spec_apply_targets(bytes, cds.drop_last(), tv),
            ChannelValue { channel: cds.last(), value: tv.spec_get(cds.last())->Some_0 },
        )
    }
}

proof fn lemma_parse_channel_list_fail(s: Seq<char>, i: int)
    requires
        0 <= i < spec_split(s, ',').len(),
        !(crate::dmx::spec_parse_channel_definition(spec_split(s, ',')[i]) is Value),
    ensures
        spec_parse_channel_list(s) is Err,
{
    lemma_parse_channel_pieces_fail(spec_split(s, ','), i);
}

proof fn lemma_parse_channel_pieces_fail(pieces: Seq<Seq<char>>, i: int)
    requires
        0 <= i < pieces.len(),
        !(crate::dmx::spec_parse_channel_definition(pieces[i]) is Value),
    ensures
        spec_parse_channel_pieces(pieces) is Err,
    decreases pieces.len(),
{
    if i > 0 {
        let tail = pieces.subrange(1, pieces.len() as int);
        assert(tail[i - 1] == pieces[i]);
        lemma_parse_channel_pieces_fail(tail, i - 1);
    }
}

proof fn lemma_parse_channel_list_ok(s: Seq<char>, cds: Seq<ChannelDefinition>)
    requires
        cds.len() == spec_split(s, ',').len(),
        forall|j: int|
            0 <= j < cds.len() ==> crate::dmx::spec_parse_channel_definition(
                #[trigger] spec_split(s, ',')[j],
            ) == ChannelParse::Value(cds[j]),
    ensures
        spec_parse_channel_list(s) == Ok::<Seq<ChannelDefinition>, ()>(cds),
{
    lemma_parse_channel_pieces_ok(spec_split(s, ','), cds);
}

proof fn lemma_parse_channel_pieces_ok(pieces: Seq<Seq<char>>, cds: Seq<ChannelDefinition>)
    requires
        cds.len() == pieces.len(),
        forall|j: int|
            0 <= j < cds.len() ==> crate::dmx::spec_parse_channel_definition(#[trigger] pieces[j])
                == ChannelParse::Value(cds[j]),
    ensures
        spec_parse_channel_pieces(pieces) == Ok::<Seq<ChannelDefinition>, ()>(cds),
    decreases pieces.len(),
{
    if pieces.len() > 0 {
        let tail = pieces.subrange(1, pieces.len() as int);
        let cds_tail = cds.subrange(1, cds.len() as int);
        assert(crate::dmx::spec_parse_channel_definition(pieces[0]) == ChannelParse::Value(
            cds[0],
        ));
        assert(forall|j: int| 0 <= j < cds_tail.len() ==> #[trigger] tail[j] == pieces[j + 1]);
        assert(forall|j: int|
            0 <= j < cds_tail.len() ==> crate::dmx::spec_parse_channel_definition(
                #[trigger] tail[j],
            ) == ChannelParse::Value(cds_tail[j]));
        lemma_parse_channel_pieces_ok(tail, cds_tail);
        assert(spec_parse_channel_pieces(pieces) == Ok::<Seq<ChannelDefinition>, ()>(
            seq![cds[0]] + cds_tail,
        ));
        assert(seq![cds[0]] + cds_tail =~= cds);
        assert(seq![cds[0]] + cds_tail == cds);
    } else {
        assert(cds =~= Seq::<ChannelDefinition>::empty());
        assert(cds == Seq::<ChannelDefinition>::empty());
    }
}

/// Entries whose keys all come from an older entry sequence, and whose
/// values are well-formed unfinished effects, denote a map with those
/// properties.
proof fn lemma_reinstated_effects(
    kept: Seq<(String, EffectNodeRuntime)>,
    old_entries: Seq<(String, EffectNodeRuntime)>,
)
    requires
        crate::strmap::keys_distinct(kept),
        crate::strmap::keys_distinct(old_entries),
        forall|p: int|
            0 <= p < kept.len() ==> exists|q: int|
                0 <= q < old_entries.len() && (#[trigger] kept[p]).0@ == old_entries[q].0@
                    && !old_entries[q].1.is_done_spec(),
        forall|p: int|
            0 <= p < kept.len() ==> (#[trigger] kept[p]).1.wf() && !kept[p].1.is_done_spec(),
    ensures
        forall|k: Seq<char>|
            #[trigger] crate::strmap::entries_map(kept).contains_key(k)
                ==> crate::strmap::entries_map(old_entries).contains_key(k),
        forall|k: Seq<char>|
            #[trigger] crate::strmap::entries_map(kept).contains_key(k) ==> (
            crate::strmap::entries_map(kept)[k].wf() && !crate::strmap::entries_map(
                kept,
            )[k].is_done_spec()),
        forall|k: Seq<char>|
            crate::strmap::entries_map(old_entries).contains_key(k) && (
            #[trigger] crate::strmap::entries_map(old_entries)[k]).is_done_spec()
                ==> !crate::strmap::entries_map(kept).contains_key(k),
{
    crate::strmap::lemma_entries_map_dom(kept);
    crate::strmap::lemma_entries_map_dom(old_entries);
    assert forall|k: Seq<char>| #[trigger]
        crate::strmap::entries_map(kept).contains_key(
            k,
        ) implies crate::strmap::entries_map(old_entries).contains_key(k) by {
        let p = choose|p: int| 0 <= p < kept.len() && (#[trigger] kept[p]).0@ == k;
        let q = choose|q: int|
            0 <= q < old_entries.len() && (#[trigger] kept[p]).0@ == old_entries[q].0@
                && !old_entries[q].1.is_done_spec();
        assert(old_entries[q].0@ == k);
    }
    assert forall|k: Seq<char>| #[trigger]
        crate::strmap::entries_map(kept).contains_key(k) implies (crate::strmap::entries_map(
        kept,
    )[k].wf() && !crate::strmap::entries_map(kept)[k].is_done_spec()) by {
        let p = choose|p: int| 0 <= p < kept.len() && (#[trigger] kept[p]).0@ == k;
        crate::strmap::lemma_entries_map_get_pub(kept, p);
    }
    assert forall|k: Seq<char>|
        crate::strmap::entries_map(old_entries).contains_key(k) && (
        #[trigger] crate::strmap::entries_map(old_entries)[k]).is_done_spec()
            implies !crate::strmap::entries_map(kept).contains_key(k) by {
        if crate::strmap::entries_map(kept).contains_key(k) {
            let p = choose|p: int| 0 <= p < kept.len() && (#[trigger] kept[p]).0@ == k;
            let q = choose|q: int|
                0 <= q < old_entries.len() && (#[trigger] kept[p]).0@ == old_entries[q].0@
                    && !old_entries[q].1.is_done_spec();
            crate::strmap::lemma_entries_map_get_pub(old_entries, q);
            assert(crate::strmap::entries_map(old_entries)[k] == old_entries[q].1);
        }
    }
}

/// Two entry sequences with equal keys position by position denote maps with
/// the same keys, and the value under each key comes from the same position.
proof fn lemma_entries_pointwise<V>(a: Seq<(String, V)>, b: Seq<(String, V)>)
    requires
        a.len() == b.len(),
        crate::strmap::keys_distinct(a),
        forall|p: int| 0 <= p < a.len() ==> (#[trigger] b[p]).0 == a[p].0,
    ensures
        crate::strmap::entries_map(b).dom() == crate::strmap::entries_map(a).dom(),
        forall|p: int|
            0 <= p < a.len() ==> crate::strmap::entries_map(b).contains_key(
                (#[trigger] a[p]).0@,
            ) && crate::strmap::entries_map(b)[a[p].0@] == b[p].1,
    decreases a.len(),
{
    crate::strmap::lemma_entries_map_dom(a);
    crate::strmap::lemma_entries_map_dom(b);
    assert(crate::strmap::keys_distinct(b)) by {
        assert(forall|p: int, q: int|
            0 <= p < q < b.len() ==> (#[trigger] b[p]).0@ != (#[trigger] b[q]).0@) by {
            assert(forall|p: int| 0 <= p < b.len() ==> (#[trigger] b[p]).0 == a[p].0);
        }
    }
    assert forall|k: Seq<char>| #[trigger]
        crate::strmap::entries_map(b).contains_key(k) implies crate::strmap::entries_map(
        a,
    ).contains_key(k) by {
        let p = choose|p: int| 0 <= p < b.len() && (#[trigger] b[p]).0@ == k;
        assert(a[p].0@ == k);
    }
    assert forall|k: Seq<char>| #[trigger]
        crate::strmap::entries_map(a).contains_key(k) implies crate::strmap::entries_map(
        b,
    ).contains_key(k) by {
        let p = choose|p: int| 0 <= p < a.len() && (#[trigger] a[p]).0@ == k;
        assert(b[p].0@ == k);
    }
    assert(crate::strmap::entries_map(b).dom() =~= crate::strmap::entries_map(a).dom());
    assert forall|p: int| 0 <= p < a.len() implies crate::strmap::entries_map(b).contains_key(
        (#[trigger] a[p]).0@,
    ) && crate::strmap::entries_map(b)[a[p].0@] == b[p].1 by {
        crate::strmap::lemma_entries_map_get_pub(b, p);
    }
}

/// Removes later duplicates from a list of strings, keeping first
/// occurrences in order.
#[verifier::rlimit(60)]
/// Whether some element of `v` has the view `x`.
pub open spec fn appears(x: Seq<char>, v: Seq<String>) -> bool {
    exists|p: int| 0 <= p < v.len() && (#[trigger] v[p])@ == x
}

/// Whether a universe is due for transmission on this walk: modified, or
/// idle long enough that the keep-alive threshold re-arms it.
pub open spec fn spec_due(u: Universe) -> bool {
    u.modified || u.non_modified_ticks + 1 >= SEND_UNMODIFIED_UNIVERSE_EVERY
}

/// The frames one walk of the universes emits: for each universe in entry
/// order that is due and not send-disabled, its controller address and its
/// frame as it stood before the sequence byte advanced.
pub open spec fn spec_frames(entries: Seq<(String, Universe)>) -> Seq<(Seq<char>, Seq<u8>)>
    decreases entries.len(),
{
    if entries.len() == 0 {
        Seq::empty()
    } else {
        let prev = spec_frames(entries.drop_last());
        let u = entries.last().1;
        if spec_due(u) && !u.disable_send {
            prev.push((u.controller@, u.packet_bytes@))
        } else {
            prev
        }
    }
}

/// One tick's progress of a node, as far as its own counters show it: a
/// delay advances by one, a running fade advances by one; other shapes are
/// not constrained here (their progress is stated at [`tick_node`]).
pub open spec fn spec_one_tick_progress(n1: EffectNodeRuntime, n2: EffectNodeRuntime) -> bool {
    match n1 {
        EffectNodeRuntime::Delay(d) => n2 == EffectNodeRuntime::Delay(
            super::runtime_nodes::DelayEffectNode {
                ticks: d.ticks,
                current_tick: (d.current_tick + 1) as usize,
            },
        ),
        EffectNodeRuntime::Fade(f) => (n2 matches EffectNodeRuntime::Fade(f2) && f2.current_tick
            == f.current_tick + 1 && f2.ticks == f.ticks),
        _ => true,
    }
}

/// Whether a node must still be active after one more tick: a delay or a
/// running fade with more than one tick left.
pub open spec fn spec_survives_tick(n: EffectNodeRuntime) -> bool {
    match n {
        EffectNodeRuntime::Delay(d) => d.current_tick + 1 < d.ticks,
        EffectNodeRuntime::Fade(f) => f.state is Some && f.current_tick + 1 < f.ticks,
        _ => false,
    }
}

/// Whether `kept` holds, under `key`, a node that is `node` advanced by one
/// tick.
pub open spec fn spec_retained_advanced(
    kept: Seq<(String, EffectNodeRuntime)>,
    key: Seq<char>,
    node: EffectNodeRuntime,
) -> bool {
    exists|p: int|
        0 <= p < kept.len() && (#[trigger] kept[p]).0@ == key && spec_one_tick_progress(
            node,
            kept[p].1,
        )
}

/// Whether some universe entry transmits to the controller address `x`.
pub open spec fn is_controller_of(x: Seq<char>, entries: Seq<(String, Universe)>) -> bool {
    exists|p: int| 0 <= p < entries.len() && (#[trigger] entries[p]).1.controller@ == x
}

fn dedup_strings(v: &Vec<String>) -> (r: Vec<String>)
    ensures
        forall|i: int, j: int| 0 <= i < j < r@.len() ==> (#[trigger] r@[i])@ != (#[trigger] r@[j])@,
        forall|i: int| 0 <= i < r@.len() ==> appears((#[trigger] r@[i])@, v@),
        forall|p: int| 0 <= p < v@.len() ==> appears((#[trigger] v@[p])@, r@),
{
    let mut r: Vec<String> = Vec::new();
    let mut k: usize = 0;
    while k < v.len()
        invariant
            k <= v@.len(),
            forall|i: int, j: int|
                0 <= i < j < r@.len() ==> (#[trigger] r@[i])@ != (#[trigger] r@[j])@,
            forall|i: int| 0 <= i < r@.len() ==> appears((#[trigger] r@[i])@, v@),
            forall|p: int| 0 <= p < k ==> appears((#[trigger] v@[p])@, r@),
        decreases v@.len() - k,
    {
        let mut found = false;
        let mut i: usize = 0;
        while i < r.len() && !found
            invariant
                i <= r@.len(),
                k < v@.len(),
                found ==> exists|j: int| 0 <= j < r@.len() && (#[trigger] r@[j])@ == v@[k as int]@,
                !found ==> forall|j: int| 0 <= j < i ==> (#[trigger] r@[j])@ != v@[k as int]@,
            decreases r@.len() - i + (if !found { 1int } else { 0int }),
        {
            if crate::strutil::str_eq(r[i].as_str(), v[k].as_str()) {
                found = true;
                proof {
                    assert((r@[i as int])@ == v@[k as int]@);
                }
            } else {
                i = i + 1;
            }
        }
        proof {
            if !found {
                assert(i == r@.len());
            }
        }
        let ghost old_r = r@;
        if !found {
            r.push(v[k].clone());
        }
        proof {
            if !found {
                assert(r@.len() == old_r.len() + 1);
                assert((r@[r@.len() - 1])@ == v@[k as int]@);
                assert forall|a: int, b: int| 0 <= a < b < r@.len() implies (
                #[trigger] r@[a])@ != (#[trigger] r@[b])@ by {
                    if b < r@.len() - 1 {
                        assert(r@[a] == old_r[a]);
                        assert(r@[b] == old_r[b]);
                    } else {
                        assert(r@[a] == old_r[a]);
                        assert((r@[b])@ == v@[k as int]@);
                        assert((old_r[a])@ != v@[k as int]@);
                    }
                }
                assert forall|i: int| 0 <= i < r@.len() implies appears(
                    (#[trigger] r@[i])@,
                    v@,
                ) by {
                    if i < r@.len() - 1 {
                        assert(r@[i] == old_r[i]);
                        assert(appears((old_r[i])@, v@));
                    } else {
                        assert((v@[k as int])@ == (r@[i])@);
                        assert(appears((r@[i])@, v@));
                    }
                }
                assert forall|p: int| 0 <= p < k + 1 implies appears(
                    (#[trigger] v@[p])@,
                    r@,
                ) by {
                    if p < k {
                        let j = choose|j: int| 0 <= j < old_r.len() && (#[trigger] old_r[j])@
                            == (v@[p])@;
                        assert((r@[j])@ == (v@[p])@);
                    } else {
                        assert((r@[r@.len() - 1])@ == (v@[p])@);
                    }
                }
            } else {
                assert forall|p: int| 0 <= p < k + 1 implies appears(
                    (#[trigger] v@[p])@,
                    r@,
                ) by {
                    if p == k {
                        let j = choose|j: int|
                            0 <= j < r@.len() && (#[trigger] r@[j])@ == v@[k as int]@;
                        assert((r@[j])@ == (v@[p])@);
                    }
                }
            }
        }
        k = k + 1;
    }
    r
}

} // verus!