use vstd::prelude::*;

use crate::demo_command::{command_of, message_type_of, notifier_for_demo_cmd, DemoCommand, DemoMessageType};
use crate::errors::HyperstoneError;
use crate::outer_message::{OuterMessage, OuterMessageView};

verus! {

/// One notification for the sink: a known command with its tick and payload,
/// tagged with the schema its payload is decoded with.
#[derive(Debug)]
pub struct DemoEvent {
    pub tick: u32,
    /// The command that produced the event; a signon packet stays apart from a
    /// regular packet here even though both share a schema.
    pub command: DemoCommand,
    pub message: DemoMessageType,
    pub data: Vec<u8>,
}

/// What a notification holds, as plain values.
pub struct DemoEventView {
    pub tick: u32,
    pub command: DemoCommand,
    pub message: DemoMessageType,
    pub data: Seq<u8>,
}

impl View for DemoEvent {
    type V = DemoEventView;

    open spec fn view(&self) -> DemoEventView {
        DemoEventView { tick: self.tick, command: self.command, message: self.message, data: self.data@ }
    }
}

/// The notifications in a sequence of events, as plain values.
pub open spec fn events_view(s: Seq<DemoEvent>) -> Seq<DemoEventView> {
    s.map_values(|e: DemoEvent| e@)
}

/// Routing of one outer message: the registry must know its command.
pub open spec fn dispatch_spec(m: OuterMessageView) -> Result<DemoEventView, HyperstoneError> {
    match command_of(m.message_type) {
        Some(c) => Ok(DemoEventView { tick: m.tick, command: c, message: message_type_of(c), data: m.data }),
        None => Err(HyperstoneError::UnknownDemoCommand),
    }
}

/// Routes an outer message to the schema of its command.
pub fn dispatch(message: OuterMessage) -> (r: Result<DemoEvent, HyperstoneError>)
    ensures
        match (r, dispatch_spec(message@)) {
            (Ok(e), Ok(v)) => e@ == v,
            (Err(e), Err(f)) => e == f,
            _ => false,
        },
{
    let command = message.get_demo_cmd()?;
    let schema = notifier_for_demo_cmd(command);
    Ok(DemoEvent { tick: message.tick, command, message: schema, data: message.data })
}

} // verus!
