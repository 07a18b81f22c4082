//! Broker ingress decisions: which request a topic and payload denote.
//!
//! The transport reads messages from the broker and performs the requests;
//! this module makes the routing decisions, so the dispatch table is
//! verified while the I/O stays outside.

use vstd::prelude::*;

use crate::defs::EffectUsage;
use crate::strutil::{chars_of, spec_split, split_chars, str_eq, string_from_chars};

verus! {

/// The action a `DMX/Command/<name>` message asks for.
#[derive(Debug, PartialEq, Eq, Structural)]
pub enum CommandAction {
    /// Compile and start the usage's effect; the transport first installs
    /// any values the command carries, and keys the running effect by the
    /// array id, so a later command on the same array replaces it.
    StartEffect(EffectUsage),
    /// Stop the effect keyed by the array id.
    StopEffect,
    /// Write a target value to the listed channels.
    SetChannels,
}

/// Decides what a command name asks for: `On`, `Off` and `Dim` start their
/// usage's effect, `Stop` stops, `Set` writes channels, and any other name
/// is rejected.
pub fn plan_command(name: &str) -> (r: Option<CommandAction>)
    ensures
        r == Some(CommandAction::StartEffect(EffectUsage::On)) <==> name@ == "On"@,
        r == Some(CommandAction::StartEffect(EffectUsage::Off)) <==> name@ == "Off"@,
        r == Some(CommandAction::StartEffect(EffectUsage::Dim)) <==> name@ == "Dim"@,
        r == Some(CommandAction::StopEffect) <==> name@ == "Stop"@,
        r == Some(CommandAction::SetChannels) <==> name@ == "Set"@,
        r is None <==> (name@ != "On"@ && name@ != "Off"@ && name@ != "Dim"@ && name@ != "Stop"@
            && name@ != "Set"@),
{
    proof {
        reveal_strlit("On");
        reveal_strlit("Off");
        reveal_strlit("Dim");
        reveal_strlit("Stop");
        reveal_strlit("Set");
        assert("On"@.len() == 2);
        assert("Off"@.len() == 3);
        assert("Dim"@.len() == 3);
        assert("Stop"@.len() == 4);
        assert("Set"@.len() == 3);
        assert("Off"@[0] == 'O');
        assert("Dim"@[0] == 'D');
        assert("Set"@[0] == 'S');
    }
    match EffectUsage::parse(name) {
        Some(usage) => Some(CommandAction::StartEffect(usage)),
        None => {
            if str_eq(name, "Stop") {
                Some(CommandAction::StopEffect)
            } else if str_eq(name, "Set") {
                Some(CommandAction::SetChannels)
            } else {
                None
            }
        },
    }
}

/// The request a topic routes to; the payload decides between add and
/// remove, and the command name picks the action.
#[derive(Debug)]
pub enum TopicRoute {
    /// `DMX/Universe/<id>`: add or remove the universe.
    Universe(String),
    /// `DMX/Array/<id>`: add or remove the array.
    Array(String),
    /// `DMX/Effect/<id>`: add or remove the global effect.
    Effect(String),
    /// `DMX/Value/<name>`: set or remove the global value.
    Value(String),
    /// `DMX/Command/<name>`: run a command.
    Command(String),
    /// A topic this service itself publishes; ignored on ingress.
    ServiceOwned,
}

/// How routing a topic can fail.
#[derive(Debug)]
pub enum TopicError {
    /// The topic has no subtopic at all.
    MissingSubtopic,
    /// The category is none of the known ones.
    InvalidSubtopic(String),
    /// A known category without its id segment.
    MissingId(String),
}

/// The pieces of a topic path.
pub open spec fn spec_topic_parts(topic: Seq<char>) -> Seq<Seq<char>> {
    spec_split(topic, '/')
}

/// Routes a topic of the form `DMX/<category>/<id>`.
///
/// Categories `Universe`, `Array`, `Effect`, `Value` and `Command` route to
/// their requests when exactly three segments are present; the topics the
/// service itself publishes are ignored; anything else is invalid.
pub fn route_topic(topic: &str) -> (r: Result<TopicRoute, TopicError>)
    ensures
        ({
            let parts = spec_topic_parts(topic@);
            match r {
                Ok(TopicRoute::Universe(id)) => parts.len() == 3 && parts[1] == "Universe"@ && id@
                    == parts[2],
                Ok(TopicRoute::Array(id)) => parts.len() == 3 && parts[1] == "Array"@ && id@
                    == parts[2],
                Ok(TopicRoute::Effect(id)) => parts.len() == 3 && parts[1] == "Effect"@ && id@
                    == parts[2],
                Ok(TopicRoute::Value(id)) => parts.len() == 3 && parts[1] == "Value"@ && id@
                    == parts[2],
                Ok(TopicRoute::Command(name)) => parts.len() == 3 && parts[1] == "Command"@
                    && name@ == parts[2],
                Ok(TopicRoute::ServiceOwned) => parts.len() >= 2 && (parts[1] == "Error"@ || parts[1]
                    == "LastError"@ || parts[1] == "Active"@ || parts[1] == "Version"@),
                Err(TopicError::MissingSubtopic) => parts.len() < 2,
                Err(TopicError::InvalidSubtopic(s)) => parts.len() >= 2 && s@ == parts[1],
                Err(TopicError::MissingId(s)) => parts.len() != 3 && parts.len() >= 2 && s@
                    == parts[1],
            }
        }),
{
    let v = chars_of(topic);
    let pieces = split_chars(&v, '/');
    if pieces.len() < 2 {
        return Err(TopicError::MissingSubtopic);
    }
    let category = string_from_chars(&pieces[1]);
    proof {
        assert(pieces.deep_view()[1] == pieces@[1]@);
    }
    let three = pieces.len() == 3;
    proof {
        if three {
            assert(pieces.deep_view()[2] == pieces@[2]@);
        }
    }
    if str_eq(category.as_str(), "Universe") {
        if !three {
            return Err(TopicError::MissingId(category));
        }
        Ok(TopicRoute::Universe(string_from_chars(&pieces[2])))
    } else if str_eq(category.as_str(), "Array") {
        if !three {
            return Err(TopicError::MissingId(category));
        }
        Ok(TopicRoute::Array(string_from_chars(&pieces[2])))
    } else if str_eq(category.as_str(), "Effect") {
        if !three {
            return Err(TopicError::MissingId(category));
        }
        Ok(TopicRoute::Effect(string_from_chars(&pieces[2])))
    } else if str_eq(category.as_str(), "Value") {
        if !three {
            return Err(TopicError::MissingId(category));
        }
        Ok(TopicRoute::Value(string_from_chars(&pieces[2])))
    } else if str_eq(category.as_str(), "Command") {
        if !three {
            return Err(TopicError::MissingId(category));
        }
        Ok(TopicRoute::Command(string_from_chars(&pieces[2])))
    } else if str_eq(category.as_str(), "Error") || str_eq(category.as_str(), "LastError")
        || str_eq(category.as_str(), "Active") || str_eq(category.as_str(), "Version") {
        Ok(TopicRoute::ServiceOwned)
    } else {
        Err(TopicError::InvalidSubtopic(category))
    }
}

} // verus!
