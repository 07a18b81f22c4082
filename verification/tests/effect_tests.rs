//! The effect runtime: fades driven tick by tick against the Art-Net
//! manager, delays, sequences and parallels.

use mqtt_dmx::array_manager::ArrayManager;
use mqtt_dmx::artnet_manager::runtime_nodes::{
    tick_node, DelayEffectNode, EffectNodeRuntime, ParallelEffectNode, SequenceEffectNode,
};
use mqtt_dmx::artnet_manager::ArtnetManager;
use mqtt_dmx::defs::{
    DmxArray, EffectNodeDefinition, EffectUsage, FadeEffectNodeDefinition, NumberOrVariable,
    UniverseDefinition, DIMMING_AMOUNT_MAX,
};
use mqtt_dmx::dmx::{ChannelDefinition, ChannelValue, DimmerValue};
use mqtt_dmx::strmap::StrMap;

fn get_universe_definition() -> UniverseDefinition {
    UniverseDefinition {
        description: "Test Universe".to_string(),
        controller: "10.0.1.228".to_string(),
        net: 0,
        subnet: 0,
        universe: 0,
        channels: 306,
        log: true,
        disable_send: false,
    }
}

fn fade_effect(lights: &str, ticks: u32, target: &str) -> EffectNodeDefinition {
    EffectNodeDefinition::Fade(FadeEffectNodeDefinition {
        lights: lights.to_string(),
        ticks: NumberOrVariable::Number(ticks as usize),
        target: target.to_string(),
        no_dimming: false,
    })
}

fn make_array(all: &str, on_ticks: u32, off_ticks: u32) -> DmxArray {
    let mut lights = StrMap::new();
    lights.insert("all".to_string(), all.to_string());
    let mut effects = StrMap::new();
    effects.insert(
        "on".to_string(),
        fade_effect("@all", on_ticks, "s(255); rgb(255,255,255); w(255,255,255)"),
    );
    effects.insert(
        "off".to_string(),
        fade_effect("@all", off_ticks, "s(0); rgb(0,0,0); w(0,0,0)"),
    );
    DmxArray {
        description: "Test array".to_string(),
        universe_id: "0".to_string(),
        lights,
        on: "on".to_string(),
        off: "off".to_string(),
        dim: "dim".to_string(),
        effects,
        default_values: StrMap::new(),
    }
}

fn run_node(mut node: EffectNodeRuntime, artnet_manager: &mut ArtnetManager) {
    let mut loop_limit = 100;

    artnet_manager.set_channel_log.clear();
    while !node.is_done() {
        let (advanced, result) = tick_node(node, artnet_manager);
        result.unwrap();
        node = advanced;

        loop_limit -= 1;
        if loop_limit <= 0 {
            panic!("Loop limit exceeded");
        }
    }
}

#[test]
fn test_fade_node1() {
    let mut array_manager = ArrayManager::new();
    let array = make_array("s:0", 4, 8);

    let mut artnet_manager = ArtnetManager::new();
    artnet_manager
        .add_universe("0", get_universe_definition())
        .unwrap();

    array_manager.add_array("test".to_string(), array).unwrap();
    let node = array_manager
        .get_usage_effect_runtime(&EffectUsage::On, "test", None, DIMMING_AMOUNT_MAX)
        .unwrap();

    run_node(node, &mut artnet_manager);

    assert_eq!(artnet_manager.set_channel_log.len(), 4);
    assert_eq!(
        artnet_manager.set_channel_log,
        [
            ChannelValue {
                channel: ChannelDefinition::Single(0),
                value: DimmerValue::Single(64)
            },
            ChannelValue {
                channel: ChannelDefinition::Single(0),
                value: DimmerValue::Single(128)
            },
            ChannelValue {
                channel: ChannelDefinition::Single(0),
                value: DimmerValue::Single(191)
            },
            ChannelValue {
                channel: ChannelDefinition::Single(0),
                value: DimmerValue::Single(255)
            },
        ]
    );

    let node = array_manager
        .get_usage_effect_runtime(&EffectUsage::Off, "test", None, DIMMING_AMOUNT_MAX)
        .unwrap();

    run_node(node, &mut artnet_manager);

    assert_eq!(artnet_manager.set_channel_log.len(), 8);
    assert_eq!(
        artnet_manager.set_channel_log,
        [
            ChannelValue {
                channel: ChannelDefinition::Single(0),
                value: DimmerValue::Single(223)
            },
            ChannelValue {
                channel: ChannelDefinition::Single(0),
                value: DimmerValue::Single(191)
            },
            ChannelValue {
                channel: ChannelDefinition::Single(0),
                value: DimmerValue::Single(159)
            },
            ChannelValue {
                channel: ChannelDefinition::Single(0),
                value: DimmerValue::Single(127)
            },
            ChannelValue {
                channel: ChannelDefinition::Single(0),
                value: DimmerValue::Single(96)
            },
            ChannelValue {
                channel: ChannelDefinition::Single(0),
                value: DimmerValue::Single(64)
            },
            ChannelValue {
                channel: ChannelDefinition::Single(0),
                value: DimmerValue::Single(32)
            },
            ChannelValue {
                channel: ChannelDefinition::Single(0),
                value: DimmerValue::Single(0)
            },
        ]
    );
}

#[test]
fn test_fade_node2() {
    let mut array_manager = ArrayManager::new();
    let array = make_array("rgb:0", 4, 8);

    let mut artnet_manager = ArtnetManager::new();
    artnet_manager
        .add_universe("0", get_universe_definition())
        .unwrap();

    array_manager.add_array("test".to_string(), array).unwrap();

    let node = array_manager
        .get_usage_effect_runtime(&EffectUsage::On, "test", None, 800)
        .unwrap();
    run_node(node, &mut artnet_manager);

    let node = array_manager
        .get_usage_effect_runtime(&EffectUsage::On, "test", None, DIMMING_AMOUNT_MAX)
        .unwrap();
    run_node(node, &mut artnet_manager);

    let node = array_manager
        .get_usage_effect_runtime(&EffectUsage::On, "test", None, 100)
        .unwrap();
    run_node(node, &mut artnet_manager);

    let node = array_manager
        .get_usage_effect_runtime(&EffectUsage::On, "test", None, 0)
        .unwrap();
    run_node(node, &mut artnet_manager);
}

#[test]
fn test_fade_without_movement_completes_at_once() {
    // A fade whose start already equals its dimmed target writes nothing.
    let mut array_manager = ArrayManager::new();
    let array = make_array("rgb:0", 4, 8);

    let mut artnet_manager = ArtnetManager::new();
    artnet_manager
        .add_universe("0", get_universe_definition())
        .unwrap();

    array_manager.add_array("test".to_string(), array).unwrap();

    // The channels start at zero, which is exactly the `off` target.
    let node = array_manager
        .get_usage_effect_runtime(&EffectUsage::Off, "test", None, DIMMING_AMOUNT_MAX)
        .unwrap();
    artnet_manager.set_channel_log.clear();
    let (node, result) = tick_node(node, &mut artnet_manager);
    result.unwrap();
    assert!(node.is_done());
    assert_eq!(artnet_manager.set_channel_log.len(), 0);
}

#[test]
fn test_delay_and_sequence() {
    let mut artnet_manager = ArtnetManager::new();

    // A delay of two ticks followed by one of one tick: done after three.
    let node = EffectNodeRuntime::Sequence(SequenceEffectNode {
        nodes: vec![
            EffectNodeRuntime::Delay(DelayEffectNode {
                ticks: 2,
                current_tick: 0,
            }),
            EffectNodeRuntime::Delay(DelayEffectNode {
                ticks: 1,
                current_tick: 0,
            }),
        ],
        current_node: 0,
    });
    let mut node = node;
    let mut ticks = 0;
    while !node.is_done() {
        let (advanced, result) = tick_node(node, &mut artnet_manager);
        result.unwrap();
        node = advanced;
        ticks += 1;
        assert!(ticks <= 10);
    }
    assert_eq!(ticks, 3);

    // A parallel of the same delays: done after two, and ticking the done
    // node again changes nothing.
    let node = EffectNodeRuntime::Parallel(ParallelEffectNode {
        nodes: vec![
            EffectNodeRuntime::Delay(DelayEffectNode {
                ticks: 2,
                current_tick: 0,
            }),
            EffectNodeRuntime::Delay(DelayEffectNode {
                ticks: 1,
                current_tick: 0,
            }),
        ],
    });
    let mut node = node;
    let mut ticks = 0;
    while !node.is_done() {
        let (advanced, result) = tick_node(node, &mut artnet_manager);
        result.unwrap();
        node = advanced;
        ticks += 1;
        assert!(ticks <= 10);
    }
    assert_eq!(ticks, 2);
    let (node, result) = tick_node(node, &mut artnet_manager);
    result.unwrap();
    assert!(node.is_done());
}
