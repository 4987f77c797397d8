use vstd::prelude::*;

use crate::demo_command::{command_of, DemoCommand};
use crate::errors::HyperstoneError;

verus! {

/// `OuterMessage` represents a discrete message discovered by the parser.
#[derive(Debug)]
pub struct OuterMessage {
    /// Game tick of the message; the all-ones sentinel is already folded to 0.
    pub tick: u32,
    /// Semantic command id, with the compression bit cleared.
    pub message_type: u32,
    /// The payload, decompressed where the command flagged it.
    pub data: Vec<u8>,
}

/// What an outer message holds, as plain values.
pub struct OuterMessageView {
    pub tick: u32,
    pub message_type: u32,
    pub data: Seq<u8>,
}

impl View for OuterMessage {
    type V = OuterMessageView;

    open spec fn view(&self) -> OuterMessageView {
        OuterMessageView { tick: self.tick, message_type: self.message_type, data: self.data@ }
    }
}

impl OuterMessage {
    /// Creates a new `OuterMessage`.
    pub fn new(tick: u32, message_type: u32, data: Vec<u8>) -> (r: OuterMessage)
        ensures
            r@ == (OuterMessageView { tick, message_type, data: data@ }),
    {
        OuterMessage { tick, message_type, data }
    }

    /// Tries to convert the internal message type into a known command of the registry.
    pub fn get_demo_cmd(&self) -> (r: Result<DemoCommand, HyperstoneError>)
        ensures
            match command_of(self.message_type) {
                Some(c) => r == Ok::<DemoCommand, HyperstoneError>(c),
                None => r == Err::<DemoCommand, HyperstoneError>(HyperstoneError::UnknownDemoCommand),
            },
    {
        match DemoCommand::from_id(self.message_type) {
            Some(demo_cmd) => Ok(demo_cmd),
            None => Err(HyperstoneError::UnknownDemoCommand),
        }
    }

    /// Returns the data associated with this message.
    pub fn get_data(&self) -> (r: &[u8])
        ensures
            r@ == self.data@,
    {
        self.data.as_slice()
    }
}

} // verus!
