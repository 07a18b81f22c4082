//! Topic routing, usage parsing and the version banner.

use mqtt_dmx::defs::EffectUsage;
use mqtt_dmx::get_version;
use mqtt_dmx::ingress::{plan_command, route_topic, CommandAction, TopicError, TopicRoute};

#[test]
fn test_route_topic() {
    assert!(matches!(
        route_topic("DMX/Universe/u1"),
        Ok(TopicRoute::Universe(id)) if id == "u1"
    ));
    assert!(matches!(
        route_topic("DMX/Array/a"),
        Ok(TopicRoute::Array(id)) if id == "a"
    ));
    assert!(matches!(
        route_topic("DMX/Effect/glow"),
        Ok(TopicRoute::Effect(id)) if id == "glow"
    ));
    assert!(matches!(
        route_topic("DMX/Value/target"),
        Ok(TopicRoute::Value(id)) if id == "target"
    ));
    assert!(matches!(
        route_topic("DMX/Command/On"),
        Ok(TopicRoute::Command(name)) if name == "On"
    ));
    assert!(matches!(
        route_topic("DMX/Error"),
        Ok(TopicRoute::ServiceOwned)
    ));
    assert!(matches!(
        route_topic("DMX/LastError"),
        Ok(TopicRoute::ServiceOwned)
    ));
    assert!(matches!(
        route_topic("DMX/Active"),
        Ok(TopicRoute::ServiceOwned)
    ));
    assert!(matches!(
        route_topic("DMX/Version"),
        Ok(TopicRoute::ServiceOwned)
    ));
    assert!(matches!(route_topic("DMX"), Err(TopicError::MissingSubtopic)));
    assert!(matches!(
        route_topic("DMX/Bogus/x"),
        Err(TopicError::InvalidSubtopic(s)) if s == "Bogus"
    ));
    assert!(matches!(
        route_topic("DMX/Universe"),
        Err(TopicError::MissingId(s)) if s == "Universe"
    ));
    assert!(matches!(
        route_topic("DMX/Command/On/extra"),
        Err(TopicError::MissingId(s)) if s == "Command"
    ));
}

#[test]
fn test_effect_usage_parse() {
    assert!(matches!(EffectUsage::parse("On"), Some(EffectUsage::On)));
    assert!(matches!(EffectUsage::parse("Off"), Some(EffectUsage::Off)));
    assert!(matches!(EffectUsage::parse("Dim"), Some(EffectUsage::Dim)));
    assert!(EffectUsage::parse("on").is_none());
    assert!(EffectUsage::parse("Stop").is_none());
}

#[test]
fn test_plan_command() {
    assert_eq!(
        plan_command("On"),
        Some(CommandAction::StartEffect(EffectUsage::On))
    );
    assert_eq!(
        plan_command("Off"),
        Some(CommandAction::StartEffect(EffectUsage::Off))
    );
    assert_eq!(
        plan_command("Dim"),
        Some(CommandAction::StartEffect(EffectUsage::Dim))
    );
    assert_eq!(plan_command("Stop"), Some(CommandAction::StopEffect));
    assert_eq!(plan_command("Set"), Some(CommandAction::SetChannels));
    assert_eq!(plan_command("Blink"), None);
}

#[test]
fn test_get_version() {
    assert_eq!(get_version(), "mqtt_dmx 0.1.0");
}
