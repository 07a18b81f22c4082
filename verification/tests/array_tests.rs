//! The array manager: validation, light-group expansion, variable
//! expansion and effect resolution.

use mqtt_dmx::array_manager::{ArrayManager, Scope};
use mqtt_dmx::defs::EffectUsage;
use mqtt_dmx::defs::{
    DmxArray, EffectNodeDefinition, FadeEffectNodeDefinition, NumberOrVariable, SymbolTable,
    DIMMING_AMOUNT_MAX,
};
use mqtt_dmx::defs::{DelayEffectNodeDefinition, SequenceEffectNodeDefinition};
use mqtt_dmx::dmx::ChannelDefinition;
use mqtt_dmx::strmap::StrMap;

fn string_map(pairs: &[(&str, &str)]) -> StrMap<String> {
    let mut m = StrMap::new();
    for (k, v) in pairs {
        m.insert((*k).to_string(), (*v).to_string());
    }
    m
}

fn fade_effect(lights: &str, ticks: u32, target: &str) -> EffectNodeDefinition {
    EffectNodeDefinition::Fade(FadeEffectNodeDefinition {
        lights: lights.to_string(),
        ticks: NumberOrVariable::Number(ticks as usize),
        target: target.to_string(),
        no_dimming: false,
    })
}

fn make_array(lights: &[(&str, &str)], effects: Vec<(&str, EffectNodeDefinition)>) -> DmxArray {
    let mut effect_map = StrMap::new();
    for (k, v) in effects {
        effect_map.insert(k.to_string(), v);
    }
    DmxArray {
        description: "Test array".to_string(),
        universe_id: "0".to_string(),
        lights: string_map(lights),
        on: "on".to_string(),
        off: "off".to_string(),
        dim: "dim".to_string(),
        effects: effect_map,
        default_values: StrMap::new(),
    }
}

fn on_off_effects() -> Vec<(&'static str, EffectNodeDefinition)> {
    vec![
        ("on", fade_effect("@all", 10, "s(255); rgb(255,255,255); w(255)")),
        ("off", fade_effect("@all", 10, "s(0); rgb(0,0,0); w(0)")),
    ]
}

#[test]
fn test_verify_array() {
    let mut array_manager = ArrayManager::new();

    let array = make_array(&[("all", "rgb:0")], on_off_effects());
    array_manager.add_array("test".to_string(), array).unwrap();

    let mut effects = on_off_effects();
    effects.push(("custom", fade_effect("@all", 10, "s(128); rgb(0,0,0); w(0)")));
    let array = make_array(&[("all", "rgb:10")], effects);
    array_manager.add_array("test2".to_string(), array).unwrap();

    let array = make_array(&[("all", "@center,@spot,@frame")], on_off_effects());
    if let Err(e) = array_manager.add_array("test3".to_string(), array) {
        let t = e.message();
        assert_eq!(
            t,
            "Array 'test3' Lights @all -> @center,@spot,@frame does not contain definition for center"
        );
    } else {
        panic!("Expected error");
    }

    let array = make_array(
        &[
            ("center", "rgb:10"),
            ("spot", "s:20"),
            ("frame", "w:30"),
            ("all", "@center,@spot,@frame"),
        ],
        on_off_effects(),
    );
    array_manager.add_array("test2".to_string(), array).unwrap();

    let array = make_array(
        &[
            ("center", "rgb:10"),
            ("spot", "s:20"),
            ("frame", "w:30"),
            ("outside", "rgb:40"),
            ("all", "@center,@spot,@frame"),
        ],
        on_off_effects(),
    );
    if let Err(e) = array_manager.add_array("test2".to_string(), array) {
        let t = e.message();
        assert_eq!(t, "Array 'test2' in universe '0': channel 40 is defined as light red component in group @outside but is not included in @all group");
    }

    let array = make_array(&[("all", "rgb:0,rgb:1")], on_off_effects());
    if let Err(e) = array_manager.add_array("test2".to_string(), array) {
        let t = e.message();
        assert_eq!(t, "Array 'test2' in universe '0': channel 1 was defined as light green component and is redefined as light red component in group @@all");
    }

    let array = make_array(&[("all", "rgb:0,x:5")], on_off_effects());
    if let Err(e) = array_manager.add_array("test2".to_string(), array) {
        let t = e.message();
        assert_eq!(t, "Array 'test2' Light '@all -> rgb:0,x:5' (x:5) is invalid channel definition (s:n, rgb:n or w:n)");
    }

    let array = make_array(
        &[
            ("all", "rgb:0,@loop"),
            ("loop", "rgb:3,@circle"),
            ("circle", "@loop"),
        ],
        on_off_effects(),
    );
    if let Err(e) = array_manager.add_array("test2".to_string(), array) {
        let t = e.message();
        assert_eq!(t, "Array 'test2' Light '@all -> rgb:0,@loop -> rgb:3,@circle -> @loop -> rgb:3,@circle -> @loop' (@loop) contain circular reference to @circle");
    }
}

#[test]
fn test_get_array_light_channels() {
    let mut array_manager = ArrayManager::new();
    let array = make_array(
        &[
            ("center", "rgb:1,rgb:4"),
            ("frame", "s:7"),
            ("spot", "$2,w:100"),
            ("all", "@center,@spot,@frame"),
        ],
        on_off_effects(),
    );
    array_manager.add_array("test".to_string(), array).unwrap();
    let scope = Scope::new(&array_manager, "test".to_string(), None, DIMMING_AMOUNT_MAX).unwrap();

    let result = scope.get_light_channels(&array_manager, "@all").unwrap();
    let u0 = if result[0].universe_id == "0" { 0 } else { 1 };
    let u1 = if result[0].universe_id == "2" { 0 } else { 1 };

    assert_eq!(result.len(), 2);
    assert_eq!(result[u0].universe_id, "0");
    assert_eq!(result[u0].channels.len(), 3);
    assert_eq!(result[u0].channels[0], ChannelDefinition::Rgb(1, 2, 3));
    assert_eq!(result[u0].channels[1], ChannelDefinition::Rgb(4, 5, 6));
    assert_eq!(result[u0].channels[2], ChannelDefinition::Single(7));
    assert_eq!(result[u1].universe_id, "2");
    assert_eq!(result[u1].channels.len(), 1);
    assert_eq!(
        result[u1].channels[0],
        ChannelDefinition::TriWhite(100, 101, 102)
    );
}

#[test]
fn test_expand_values() {
    let mut array_manager = ArrayManager::new();
    let mut effects = on_off_effects();
    effects.push((
        "slow_off",
        EffectNodeDefinition::Fade(FadeEffectNodeDefinition {
            lights: "@all".to_string(),
            ticks: NumberOrVariable::Variable("`ticks`".to_string()),
            target: "s(0); rgb(0,0,0); w(0)".to_string(),
            no_dimming: false,
        }),
    ));
    let array = make_array(
        &[
            ("center", "rgb:1,rgb:4"),
            ("frame", "s:7"),
            ("spot", "$2,w:100"),
            ("all", "@center,@spot,@frame"),
        ],
        effects,
    );
    let array_id = "test";
    array_manager.add_array(array_id.to_string(), array).unwrap();

    let values: SymbolTable = {
        let mut t: SymbolTable = StrMap::new();
        t.insert("test".to_string(), "test-local-value".to_string());
        t.insert("test2".to_string(), "test2-local-value".to_string());
        t.insert("ticks".to_string(), "20".to_string());
        t
    };

    array_manager
        .initialize_array_values(array_id, values)
        .unwrap();

    let scope = Scope::new(&array_manager, array_id.to_string(), None, DIMMING_AMOUNT_MAX).unwrap();
    let result = scope
        .expand_values(&array_manager, "hello `test` world")
        .unwrap();
    assert_eq!(result, "hello test-local-value world");

    let result = array_manager
        .expand_values(array_id, "hello `void=default` world")
        .unwrap();
    assert_eq!(result, "hello default world");

    let scope = Scope::new(&array_manager, array_id.to_string(), None, DIMMING_AMOUNT_MAX).unwrap();
    let result = scope
        .expand_values(&array_manager, "hello `test2` world")
        .unwrap();
    assert_eq!(result, "hello test2-local-value world");

    let result = scope
        .expand_values(&array_manager, "hello `test` world")
        .unwrap();
    assert_eq!(result, "hello test-local-value world");

    let result = scope.expand_values(&array_manager, "hello `NONE` world");
    assert!(result.is_err());

    if let Err(e) = result {
        let t = e.message();
        assert_eq!(t, "Array 'test' 'hello `NONE` world' has no value for NONE");
    }

    let result = scope.expand_values(&array_manager, "hello `NONE world");
    assert!(result.is_err());

    if let Err(e) = result {
        let t = e.message();
        assert_eq!(
            t,
            "Array 'test' 'hello `NONE world' has unterminated `value` expression"
        );
    }
}

#[test]
fn test_effect_management() {
    let mut array_manager = ArrayManager::new();

    let array = make_array(&[("all", "rgb:0")], vec![]);
    array_manager.add_array("test".to_string(), array).unwrap();

    let on_effect = array_manager
        .get_usage_effect_definition(&EffectUsage::On, "test", None)
        .unwrap();
    let t = format!("{:?}", on_effect);
    assert_eq!(
        t,
        r#"Fade(FadeEffectNodeDefinition { lights: "@all", ticks: Variable("`on_ticks=10`"), target: "`target=s(255);rgb(255,255,255);w(255,255,255)`", no_dimming: false })"#
    );

    let _ = array_manager
        .get_usage_effect_runtime(&EffectUsage::On, "test", None, DIMMING_AMOUNT_MAX)
        .unwrap();

    let simple_on = EffectNodeDefinition::Sequence(mqtt_dmx::defs::SequenceEffectNodeDefinition {
        nodes: vec![
            fade_effect("@all", 10, "s(20); rgb(20,20,20); w(100, 20, 30)"),
            EffectNodeDefinition::Delay(mqtt_dmx::defs::DelayEffectNodeDefinition {
                ticks: NumberOrVariable::Number(10),
            }),
            fade_effect("@all", 10, "s(255); rgb(255,255,255); w(255, 255, 255)"),
        ],
    });
    let mut effects = StrMap::new();
    effects.insert("simple_on".to_string(), simple_on);
    let mut array = make_array(&[("all", "rgb:0")], vec![]);
    array.effects = effects;
    array_manager.add_array("test".to_string(), array).unwrap();

    let simple_on_id = "simple_on".to_string();
    let _ = array_manager
        .get_usage_effect_runtime(
            &EffectUsage::On,
            "test",
            Some(&simple_on_id),
            DIMMING_AMOUNT_MAX,
        )
        .unwrap();

    let _ = array_manager
        .get_usage_effect_runtime(&EffectUsage::On, "test", Some(&simple_on_id), 500)
        .unwrap();
}

#[test]
fn test_variable_tick_count_errors() {
    let mut array_manager = ArrayManager::new();
    let array = make_array(&[("all", "rgb:0")], vec![]);
    array_manager.add_array("test".to_string(), array).unwrap();

    let delay_of = |ticks: &str| {
        EffectNodeDefinition::Sequence(SequenceEffectNodeDefinition {
            nodes: vec![EffectNodeDefinition::Delay(DelayEffectNodeDefinition {
                ticks: NumberOrVariable::Variable(ticks.to_string()),
            })],
        })
    };

    array_manager
        .add_effect("bad".to_string(), delay_of("`t=abc`"))
        .unwrap();
    let bad = "bad".to_string();
    let e = match array_manager.get_usage_effect_runtime(
        &EffectUsage::On,
        "test",
        Some(&bad),
        DIMMING_AMOUNT_MAX,
    ) {
        Err(e) => e,
        Ok(_) => panic!("expected an error"),
    };
    assert_eq!(
        e.message(),
        "Array 'test' (Test array) effect bad delay ticks parameter: invalid digit found in string"
    );

    array_manager
        .add_effect("huge".to_string(), delay_of("`t=99999999999999999999999`"))
        .unwrap();
    let huge = "huge".to_string();
    let e = match array_manager.get_usage_effect_runtime(
        &EffectUsage::On,
        "test",
        Some(&huge),
        DIMMING_AMOUNT_MAX,
    ) {
        Err(e) => e,
        Ok(_) => panic!("expected an error"),
    };
    assert_eq!(
        e.message(),
        "Array 'test' (Test array) effect huge delay ticks parameter: number too large to fit in target type"
    );

    array_manager
        .add_effect("empty".to_string(), delay_of("`t=`"))
        .unwrap();
    let empty = "empty".to_string();
    let e = match array_manager.get_usage_effect_runtime(
        &EffectUsage::On,
        "test",
        Some(&empty),
        DIMMING_AMOUNT_MAX,
    ) {
        Err(e) => e,
        Ok(_) => panic!("expected an error"),
    };
    assert_eq!(
        e.message(),
        "Array 'test' (Test array) effect empty delay ticks parameter: cannot parse integer from empty string"
    );
}

#[test]
fn test_command_values_rebind() {
    // Values installed for a command replace earlier bindings and feed the
    // next expansion.
    let mut array_manager = ArrayManager::new();
    let array = make_array(&[("all", "rgb:0")], on_off_effects());
    array_manager.add_array("test".to_string(), array).unwrap();

    let mut first: SymbolTable = StrMap::new();
    first.insert("speed".to_string(), "4".to_string());
    array_manager.initialize_array_values("test", first).unwrap();
    assert_eq!(
        array_manager.expand_values("test", "`speed`").unwrap(),
        "4"
    );

    let mut second: SymbolTable = StrMap::new();
    second.insert("speed".to_string(), "8".to_string());
    second.insert("target".to_string(), "s(0)".to_string());
    array_manager
        .initialize_array_values("test", second)
        .unwrap();
    assert_eq!(
        array_manager.expand_values("test", "`speed`-`target`").unwrap(),
        "8-s(0)"
    );
}

#[test]
fn test_remove_array_and_missing_array() {
    let mut array_manager = ArrayManager::new();
    let array = make_array(&[("all", "rgb:0")], on_off_effects());
    array_manager.add_array("test".to_string(), array).unwrap();
    array_manager.remove_array("test").unwrap();

    let e = array_manager
        .get_array_light_channels("test", "@all")
        .unwrap_err();
    assert_eq!(e.message(), "Array with id 'test' not found");
}

#[test]
fn test_effect_not_found() {
    let mut array_manager = ArrayManager::new();
    let array = make_array(&[("all", "rgb:0")], vec![]);
    array_manager.add_array("test".to_string(), array).unwrap();
    let missing = "missing".to_string();
    let e = array_manager
        .get_usage_effect_definition(&EffectUsage::On, "test", Some(&missing))
        .unwrap_err();
    assert_eq!(
        e.message(),
        "Effect 'missing' not found in array 'test (Test array)' or in global effects list"
    );
}
