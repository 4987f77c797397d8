use vstd::prelude::*;

verus! {

/// The bit of an outer message's command id that flags a compressed payload.
pub const IS_COMPRESSED_MASK: u32 = 64;

/// The demo commands that the parser knows how to route.
#[derive(Debug, Clone, Copy, PartialEq, Eq, Structural)]
pub enum DemoCommand {
    Stop,
    FileHeader,
    FileInfo,
    SyncTick,
    SendTables,
    ClassInfo,
    StringTables,
    Packet,
    SignonPacket,
    ConsoleCmd,
    CustomData,
    CustomDataCallbacks,
    UserCmd,
    FullPacket,
    SaveGame,
    SpawnGroups,
}

/// The message schema that the payload of a command is decoded with.
/// `Packet` serves both regular and signon packets.
#[derive(Debug, Clone, Copy, PartialEq, Eq, Structural)]
pub enum DemoMessageType {
    Stop,
    FileHeader,
    FileInfo,
    SyncTick,
    SendTables,
    ClassInfo,
    StringTables,
    Packet,
    ConsoleCmd,
    CustomData,
    CustomDataCallbacks,
    UserCmd,
    FullPacket,
    SaveGame,
    SpawnGroups,
}

/// The registry: the command that a semantic (unflagged) command id names, if any.
pub open spec fn command_of(id: u32) -> Option<DemoCommand> {
    if id == 0 { Some(DemoCommand::Stop) }
    else if id == 1 { Some(DemoCommand::FileHeader) }
    else if id == 2 { Some(DemoCommand::FileInfo) }
    else if id == 3 { Some(DemoCommand::SyncTick) }
    else if id == 4 { Some(DemoCommand::SendTables) }
    else if id == 5 { Some(DemoCommand::ClassInfo) }
    else if id == 6 { Some(DemoCommand::StringTables) }
    else if id == 7 { Some(DemoCommand::Packet) }
    else if id == 8 { Some(DemoCommand::SignonPacket) }
    else if id == 9 { Some(DemoCommand::ConsoleCmd) }
    else if id == 10 { Some(DemoCommand::CustomData) }
    else if id == 11 { Some(DemoCommand::CustomDataCallbacks) }
    else if id == 12 { Some(DemoCommand::UserCmd) }
    else if id == 13 { Some(DemoCommand::FullPacket) }
    else if id == 14 { Some(DemoCommand::SaveGame) }
    else if id == 15 { Some(DemoCommand::SpawnGroups) }
    else { None }
}

/// The schema that each command's payload is decoded with.
pub open spec fn message_type_of(cmd: DemoCommand) -> DemoMessageType {
    match cmd {
        DemoCommand::Stop => DemoMessageType::Stop,
        DemoCommand::FileHeader => DemoMessageType::FileHeader,
        DemoCommand::FileInfo => DemoMessageType::FileInfo,
        DemoCommand::SyncTick => DemoMessageType::SyncTick,
        DemoCommand::SendTables => DemoMessageType::SendTables,
        DemoCommand::ClassInfo => DemoMessageType::ClassInfo,
        DemoCommand::StringTables => DemoMessageType::StringTables,
        DemoCommand::Packet => DemoMessageType::Packet,
        DemoCommand::SignonPacket => DemoMessageType::Packet,
        DemoCommand::ConsoleCmd => DemoMessageType::ConsoleCmd,
        DemoCommand::CustomData => DemoMessageType::CustomData,
        DemoCommand::CustomDataCallbacks => DemoMessageType::CustomDataCallbacks,
        DemoCommand::UserCmd => DemoMessageType::UserCmd,
        DemoCommand::FullPacket => DemoMessageType::FullPacket,
        DemoCommand::SaveGame => DemoMessageType::SaveGame,
        DemoCommand::SpawnGroups => DemoMessageType::SpawnGroups,
    }
}

impl DemoCommand {
    /// The semantic command id of this command.
    pub open spec fn id_spec(self) -> u32 {
        match self {
            DemoCommand::Stop => 0,
            DemoCommand::FileHeader => 1,
            DemoCommand::FileInfo => 2,
            DemoCommand::SyncTick => 3,
            DemoCommand::SendTables => 4,
            DemoCommand::ClassInfo => 5,
            DemoCommand::StringTables => 6,
            DemoCommand::Packet => 7,
            DemoCommand::SignonPacket => 8,
            DemoCommand::ConsoleCmd => 9,
            DemoCommand::CustomData => 10,
            DemoCommand::CustomDataCallbacks => 11,
            DemoCommand::UserCmd => 12,
            DemoCommand::FullPacket => 13,
            DemoCommand::SaveGame => 14,
            DemoCommand::SpawnGroups => 15,
        }
    }

    /// Looks a semantic command id up in the registry.
    pub fn from_id(id: u32) -> (r: Option<DemoCommand>)
        ensures
            r == command_of(id),
    {
        match id {
            0 => Some(DemoCommand::Stop),
            1 => Some(DemoCommand::FileHeader),
            2 => Some(DemoCommand::FileInfo),
            3 => Some(DemoCommand::SyncTick),
            4 => Some(DemoCommand::SendTables),
            5 => Some(DemoCommand::ClassInfo),
            6 => Some(DemoCommand::StringTables),
            7 => Some(DemoCommand::Packet),
            8 => Some(DemoCommand::SignonPacket),
            9 => Some(DemoCommand::ConsoleCmd),
            10 => Some(DemoCommand::CustomData),
            11 => Some(DemoCommand::CustomDataCallbacks),
            12 => Some(DemoCommand::UserCmd),
            13 => Some(DemoCommand::FullPacket),
            14 => Some(DemoCommand::SaveGame),
            15 => Some(DemoCommand::SpawnGroups),
            _ => None,
        }
    }

    /// The semantic command id of this command.
    pub fn id(&self) -> (r: u32)
        ensures
            r == self.id_spec(),
            command_of(r) == Some(*self),
    {
        match self {
            DemoCommand::Stop => 0,
            DemoCommand::FileHeader => 1,
            DemoCommand::FileInfo => 2,
            DemoCommand::SyncTick => 3,
            DemoCommand::SendTables => 4,
            DemoCommand::ClassInfo => 5,
            DemoCommand::StringTables => 6,
            DemoCommand::Packet => 7,
            DemoCommand::SignonPacket => 8,
            DemoCommand::ConsoleCmd => 9,
            DemoCommand::CustomData => 10,
            DemoCommand::CustomDataCallbacks => 11,
            DemoCommand::UserCmd => 12,
            DemoCommand::FullPacket => 13,
            DemoCommand::SaveGame => 14,
            DemoCommand::SpawnGroups => 15,
        }
    }
}

/// Returns the message schema that the payload of `demo_cmd` is decoded with.
pub fn notifier_for_demo_cmd(demo_cmd: DemoCommand) -> (r: DemoMessageType)
    ensures
        r == message_type_of(demo_cmd),
{
    match demo_cmd {
        DemoCommand::Stop => DemoMessageType::Stop,
        DemoCommand::FileHeader => DemoMessageType::FileHeader,
        DemoCommand::FileInfo => DemoMessageType::FileInfo,
        DemoCommand::SyncTick => DemoMessageType::SyncTick,
        DemoCommand::SendTables => DemoMessageType::SendTables,
        DemoCommand::ClassInfo => DemoMessageType::ClassInfo,
        DemoCommand::StringTables => DemoMessageType::StringTables,
        DemoCommand::Packet => DemoMessageType::Packet,
        DemoCommand::SignonPacket => DemoMessageType::Packet,
        DemoCommand::ConsoleCmd => DemoMessageType::ConsoleCmd,
        DemoCommand::CustomData => DemoMessageType::CustomData,
        DemoCommand::CustomDataCallbacks => DemoMessageType::CustomDataCallbacks,
        DemoCommand::UserCmd => DemoMessageType::UserCmd,
        DemoCommand::FullPacket => DemoMessageType::FullPacket,
        DemoCommand::SaveGame => DemoMessageType::SaveGame,
        DemoCommand::SpawnGroups => DemoMessageType::SpawnGroups,
    }
}

} // verus!
