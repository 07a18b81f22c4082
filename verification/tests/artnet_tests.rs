//! The Art-Net manager: universe frames, channel writes and reads,
//! controller bookkeeping, channel commands and transmission policy.

use mqtt_dmx::artnet_manager::universe::DMX_DATA_OFFSET;
use mqtt_dmx::artnet_manager::{ArtnetError, ArtnetManager, Universe};
use mqtt_dmx::defs::{SetChannelsParameters, UniverseDefinition};
use mqtt_dmx::dmx::{ChannelDefinition, ChannelValue, DimmerValue};

fn get_universe_definition() -> UniverseDefinition {
    UniverseDefinition {
        description: "Test Universe".to_string(),
        controller: "10.0.1.228".to_string(),
        net: 0,
        subnet: 0,
        universe: 0,
        channels: 306,
        log: false,
        disable_send: true,
    }
}

fn get_universe(universe_id: &str) -> Universe {
    Universe::new(universe_id, get_universe_definition()).unwrap()
}

#[test]
fn test_universe_new() {
    let universe = get_universe("test");

    assert_eq!(universe.packet_bytes.len(), 306 + DMX_DATA_OFFSET);
}

#[test]
fn test_set_channel() {
    let mut universe = get_universe("test");

    let channel_value = ChannelValue {
        channel: ChannelDefinition::Single(0),
        value: DimmerValue::Single(255),
    };

    universe.set_channel(&channel_value).unwrap();
    assert_eq!(universe.packet_bytes[DMX_DATA_OFFSET], 255);

    let channel_value = ChannelValue {
        channel: ChannelDefinition::Single(305),
        value: DimmerValue::Single(255),
    };

    assert!(universe.set_channel(&channel_value).is_ok());
    assert_eq!(universe.packet_bytes[DMX_DATA_OFFSET + 305], 255);

    let channel_value = ChannelValue {
        channel: ChannelDefinition::Rgb(0, 1, 2),
        value: DimmerValue::Rgb(10, 20, 30),
    };

    assert!(universe.set_channel(&channel_value).is_ok());
    assert_eq!(universe.packet_bytes[DMX_DATA_OFFSET], 10);
    assert_eq!(universe.packet_bytes[DMX_DATA_OFFSET + 1], 20);
    assert_eq!(universe.packet_bytes[DMX_DATA_OFFSET + 2], 30);
}

#[test]
fn test_get_channel() {
    let mut universe = get_universe("test");

    let channel_value = ChannelValue {
        channel: ChannelDefinition::Single(0),
        value: DimmerValue::Single(255),
    };

    universe.set_channel(&channel_value).unwrap();
    let channel_value = universe
        .get_channel(&ChannelDefinition::Single(0))
        .unwrap();
    assert_eq!(channel_value.value, DimmerValue::Single(255));
    assert_eq!(channel_value.channel, ChannelDefinition::Single(0));

    let channel_value = ChannelValue {
        channel: ChannelDefinition::TriWhite(10, 11, 12),
        value: DimmerValue::TriWhite(19, 23, 30),
    };
    universe.set_channel(&channel_value).unwrap();
    let channel_value = universe
        .get_channel(&ChannelDefinition::TriWhite(10, 11, 12))
        .unwrap();
    assert_eq!(channel_value.value, DimmerValue::TriWhite(19, 23, 30));
    assert_eq!(channel_value.channel, ChannelDefinition::TriWhite(10, 11, 12));
}

#[test]
fn test_set_error_handling() {
    let mut universe = get_universe("test");

    let channel_value = ChannelValue {
        channel: ChannelDefinition::Single(305),
        value: DimmerValue::Single(255),
    };
    assert!(universe.set_channel(&channel_value).is_ok());

    let channel_value = ChannelValue {
        channel: ChannelDefinition::Rgb(305, 306, 307),
        value: DimmerValue::Rgb(10, 11, 12),
    };
    let result = universe.set_channel(&channel_value);

    match result {
        Err(ArtnetError::InvalidChannel(d, 306, 306)) if d == "test (Test Universe)" => {}
        _ => panic!("Expected InvalidChannel error, got {:?}", result),
    }
}

#[test]
fn test_get_error_handling() {
    let universe = get_universe("test");

    assert!(universe
        .get_channel(&ChannelDefinition::Single(305))
        .is_ok());
    let result = universe.get_channel(&ChannelDefinition::Rgb(305, 306, 307));

    match result {
        Err(ArtnetError::InvalidChannel(d, 306, 306)) if d == "test (Test Universe)" => {}
        _ => panic!("Expected InvalidChannel error, got {:?}", result),
    }
}

#[test]
fn test_add_universe() {
    let mut manager = ArtnetManager::new();

    let universe_definition = get_universe_definition();
    assert!(manager.add_universe("test", universe_definition).is_ok());
    assert!(manager.controllers().len() == 1);
    assert!(manager.controllers().len() == 1);
}

#[test]
fn test_remove_universe() {
    let mut manager = ArtnetManager::new();

    let universe_definition = get_universe_definition();
    assert!(manager.add_universe("test1", universe_definition).is_ok());
    assert!(manager.controllers().len() == 1);
    assert!(manager.universes.len() == 1);

    let universe_definition = get_universe_definition();
    assert!(manager.add_universe("test2", universe_definition).is_ok());
    assert!(manager.controllers().len() == 1);
    assert!(manager.universes.len() == 2);

    // Remove a universe and ensure that the controller is still in use
    assert!(manager.remove_universe("test1").is_ok());
    assert!(manager.universes.len() == 1);
    assert!(manager.controllers().len() == 1);

    // Remove the second universe and ensure that the controller is gone
    assert!(manager.remove_universe("test2").is_ok());
    assert!(manager.universes.len() == 0);
    assert!(manager.controllers().len() == 0);
}

#[test]
fn test_universe_set() {
    let mut manager = ArtnetManager::new();

    let universe_definition = get_universe_definition();
    assert!(manager.add_universe("test", universe_definition).is_ok());

    let channel_value = ChannelValue {
        channel: ChannelDefinition::Single(5),
        value: DimmerValue::Single(255),
    };

    assert!(manager.set_channel("test", &channel_value).is_ok());
    let v = manager
        .get_channel("test", &ChannelDefinition::Single(5))
        .unwrap();
    assert_eq!(v.value, DimmerValue::Single(255));

    let channel_value = ChannelValue {
        channel: ChannelDefinition::Rgb(10, 11, 12),
        value: DimmerValue::Rgb(3, 5, 8),
    };

    assert!(manager.set_channel("test", &channel_value).is_ok());
    let v = manager
        .get_channel("test", &ChannelDefinition::Rgb(10, 11, 12))
        .unwrap();
    assert_eq!(v.value, DimmerValue::Rgb(3, 5, 8));
}

#[test]
fn test_universe_rejects() {
    let mut definition = get_universe_definition();
    definition.universe = 16;
    match Universe::new("test", definition) {
        Err(ArtnetError::InvalidUniverseNumber(16)) => {}
        other => panic!("Expected InvalidUniverseNumber, got {:?}", other),
    }

    let mut definition = get_universe_definition();
    definition.subnet = 16;
    assert!(matches!(
        Universe::new("test", definition),
        Err(ArtnetError::InvalidSubnet(16))
    ));

    let mut definition = get_universe_definition();
    definition.net = 128;
    assert!(matches!(
        Universe::new("test", definition),
        Err(ArtnetError::InvalidNet(128))
    ));

    let mut definition = get_universe_definition();
    definition.channels = 513;
    assert!(matches!(
        Universe::new("test", definition),
        Err(ArtnetError::TooManyChannels(513))
    ));
}

#[test]
fn test_artnet_packet_layout() {
    // An odd channel count is rounded up to even; the address and length
    // bytes follow the Art-Net layout.
    let definition = UniverseDefinition {
        description: "U".to_string(),
        controller: "10.0.0.9".to_string(),
        net: 3,
        subnet: 2,
        universe: 7,
        channels: 301,
        log: false,
        disable_send: true,
    };
    let universe = Universe::new("u", definition).unwrap();
    let packet = &universe.packet_bytes;
    assert_eq!(packet.len(), 18 + 302);
    assert_eq!(&packet[0..8], b"Art-Net\0");
    assert_eq!(packet[8], 0x00);
    assert_eq!(packet[9], 0x50);
    assert_eq!(packet[10], 0x00);
    assert_eq!(packet[11], 0x14);
    assert_eq!(packet[12], 0x00);
    assert_eq!(packet[13], 0x00);
    assert_eq!(packet[14], (2 << 4) | 7);
    assert_eq!(packet[15], 3);
    assert_eq!(packet[16], (302u16 >> 8) as u8);
    assert_eq!(packet[17], (302u16 & 0xff) as u8);
    for i in 0..302 {
        assert_eq!(packet[18 + i], 0);
    }
}

#[test]
fn test_set_channels_command() {
    let mut manager = ArtnetManager::new();
    assert!(manager.add_universe("u", get_universe_definition()).is_ok());

    let parameters = SetChannelsParameters {
        universe_id: "u".to_string(),
        channels: "rgb:0,s:5".to_string(),
        target: "s(128);rgb(10,20,30)".to_string(),
        dimming_amount: Some(500),
    };
    manager.set_channels(&parameters).unwrap();

    let v = manager
        .get_channel("u", &ChannelDefinition::Rgb(0, 1, 2))
        .unwrap();
    assert_eq!(v.value, DimmerValue::Rgb(5, 10, 15));
    let v = manager
        .get_channel("u", &ChannelDefinition::Single(5))
        .unwrap();
    assert_eq!(v.value, DimmerValue::Single(64));
}

#[test]
fn test_set_channels_missing_family() {
    let mut manager = ArtnetManager::new();
    assert!(manager.add_universe("u", get_universe_definition()).is_ok());

    let parameters = SetChannelsParameters {
        universe_id: "u".to_string(),
        channels: "rgb:0".to_string(),
        target: "s(128)".to_string(),
        dimming_amount: None,
    };
    match manager.set_channels(&parameters) {
        Err(ArtnetError::MissingTargetValue(ch, t)) => {
            assert_eq!(ch, "rgb:0/1/2");
            assert_eq!(t, "s(128)");
        }
        other => panic!("Expected MissingTargetValue, got {:?}", other),
    }
}

#[test]
fn test_send_policy() {
    let mut manager = ArtnetManager::new();
    let mut definition = get_universe_definition();
    definition.disable_send = false;
    assert!(manager.add_universe("u", definition).is_ok());

    // Nothing modified yet: no frame until the keep-alive threshold.
    for _ in 0..79 {
        let frames = manager.send_modified_universes();
        assert_eq!(frames.len(), 0);
    }
    let frames = manager.send_modified_universes();
    assert_eq!(frames.len(), 1);
    assert_eq!(frames[0].0, "10.0.1.228");
    // The transmitted frame carries the sequence byte before its increment.
    assert_eq!(frames[0].1[12], 0);

    // A write marks the universe modified: the next walk transmits.
    let channel_value = ChannelValue {
        channel: ChannelDefinition::Single(0),
        value: DimmerValue::Single(7),
    };
    assert!(manager.set_channel("u", &channel_value).is_ok());
    let frames = manager.send_modified_universes();
    assert_eq!(frames.len(), 1);
    assert_eq!(frames[0].1[12], 1);
    assert_eq!(frames[0].1[18], 7);
}
