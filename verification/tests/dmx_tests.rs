//! The DMX value grammar: channel definitions, dimmer values, target values.

use mqtt_dmx::artnet_manager::ArtnetError;
use mqtt_dmx::defs::TargetValue;
use mqtt_dmx::dmx::{ChannelDefinition, DimmerValue};

#[test]
fn test_dimmer_value() {
    let v = DimmerValue::parse("s(10)").unwrap();
    assert_eq!(v, DimmerValue::Single(10));

    let v = DimmerValue::parse("rgb(10, 20, 30)").unwrap();
    assert_eq!(v, DimmerValue::Rgb(10, 20, 30));

    let v = DimmerValue::parse("w(5,6, 7)").unwrap();
    assert_eq!(v, DimmerValue::TriWhite(5, 6, 7));
}

#[test]
fn test_channel_definition() {
    let v = ChannelDefinition::parse("rgb:1").unwrap();
    assert_eq!(v, ChannelDefinition::Rgb(1, 2, 3));

    let v = ChannelDefinition::parse("rgb:1/3/5").unwrap();
    assert_eq!(v, ChannelDefinition::Rgb(1, 3, 5));

    let v = ChannelDefinition::parse("s:2").unwrap();
    assert_eq!(v, ChannelDefinition::Single(2));

    let v = ChannelDefinition::parse("2").unwrap();
    assert_eq!(v, ChannelDefinition::Single(2));

    let v = ChannelDefinition::parse("w:3").unwrap();
    assert_eq!(v, ChannelDefinition::TriWhite(3, 4, 5));

    let v = ChannelDefinition::parse("w:3/10/400").unwrap();
    assert_eq!(v, ChannelDefinition::TriWhite(3, 10, 400));
}

#[test]
fn test_target_value() {
    let v = TargetValue::parse("s(10);rgb(10,20,30);w(5,6,7)").unwrap();

    assert_eq!(
        v.get(&ChannelDefinition::Single(1)),
        Some(DimmerValue::Single(10))
    );
    assert_eq!(
        v.get(&ChannelDefinition::Rgb(1, 2, 3)),
        Some(DimmerValue::Rgb(10, 20, 30))
    );
    assert_eq!(
        v.get(&ChannelDefinition::TriWhite(1, 2, 3)),
        Some(DimmerValue::TriWhite(5, 6, 7))
    );

    let v = TargetValue::parse("s(10)").unwrap();
    assert_eq!(
        v.get(&ChannelDefinition::Single(10)),
        Some(DimmerValue::Single(10))
    );
    assert_eq!(v.get(&ChannelDefinition::Rgb(5, 4, 2)), None);
    assert_eq!(v.get(&ChannelDefinition::TriWhite(1, 2, 3)), None);

    let v = TargetValue::parse("rgb(10,20,30)").unwrap();
    assert_eq!(v.get(&ChannelDefinition::Single(1)), None);
    assert_eq!(
        v.get(&ChannelDefinition::Rgb(1, 3, 4)),
        Some(DimmerValue::Rgb(10, 20, 30))
    );
    assert_eq!(v.get(&ChannelDefinition::TriWhite(2, 3, 4)), None);

    let v = TargetValue::parse("w(5,6,7)").unwrap();
    assert_eq!(v.get(&ChannelDefinition::Single(1)), None);
    assert_eq!(v.get(&ChannelDefinition::Rgb(5, 4, 2)), None);
    assert_eq!(
        v.get(&ChannelDefinition::TriWhite(1, 2, 3)),
        Some(DimmerValue::TriWhite(5, 6, 7))
    );

    let v = TargetValue::parse("s(10);s(20)");

    if let Err(ArtnetError::AmbiguousTargetValue(_)) = v {
    } else {
        panic!("Expected AmbiguousTargetValue error");
    }
}

#[test]
fn test_channel_definition_rejects() {
    // Duplicate components of a triple are rejected with their own message.
    let v = ChannelDefinition::parse("rgb:1/1/2");
    match v {
        Err(ArtnetError::InvalidChannelAddress(m)) => {
            assert_eq!(
                m,
                "rgb or w individual channel addresses must be different: 1, 1, 2"
            );
        }
        other => panic!("Expected InvalidChannelAddress, got {:?}", other),
    }
    assert!(ChannelDefinition::parse("x:5").is_err());
    assert!(ChannelDefinition::parse("rgb:1/2").is_err());
    assert!(ChannelDefinition::parse("s:").is_err());
    assert!(ChannelDefinition::parse("").is_err());
}

#[test]
fn test_ambiguous_target_message() {
    // A duplicated family reports the whole input string.
    match TargetValue::parse("s(10);s(20)") {
        Err(ArtnetError::AmbiguousTargetValue(m)) => assert_eq!(m, "s(10);s(20)"),
        other => panic!("Expected AmbiguousTargetValue, got {:?}", other),
    }
    match TargetValue::parse("rgb(1,2,3);rgb(4,5,6)") {
        Err(ArtnetError::AmbiguousTargetValue(m)) => assert_eq!(m, "rgb(1,2,3);rgb(4,5,6)"),
        other => panic!("Expected AmbiguousTargetValue, got {:?}", other),
    }
}

#[test]
fn test_dimming_is_linear() {
    // Scaling a target channel-wise: v * amount / 1000; 1000 is identity.
    let v = TargetValue::parse("s(128);rgb(10,20,30)").unwrap();
    let dimmed = v.get_dimmed_value(500);
    assert_eq!(dimmed.single, Some(64));
    assert_eq!(dimmed.rgb, Some((5, 10, 15)));
    assert_eq!(dimmed.tri_white, None);

    let identity = v.get_dimmed_value(1000);
    assert_eq!(identity.single, Some(128));
    assert_eq!(identity.rgb, Some((10, 20, 30)));

    let dark = v.get_dimmed_value(0);
    assert_eq!(dark.single, Some(0));
    assert_eq!(dark.rgb, Some((0, 0, 0)));
}
