//! Messages the managers emit towards the broker publisher.

use vstd::prelude::*;

verus! {

/// What the egress publisher is asked to publish.
#[derive(Debug)]
pub enum ToMqttPublisherMessage {
    /// An error report, already rendered.
    Error(String),
}

} // verus!
