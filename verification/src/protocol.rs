//! The command and location messages the surrounding system exchanges with
//! its receivers over serial and wireless links.
//!
//! The transports themselves are out of scope; this module holds the plain
//! message types and their exact byte encodings, so a caller can frame and
//! parse the payloads with verified code.

use vstd::prelude::*;

verus! {

/// Commands sent to a mini over the wireless command channel, one byte
/// each, numbered in declaration order.
#[derive(Clone, Copy, Debug, PartialEq, Eq, Structural)]
pub enum MiniCommands {
    StartTransmission,
    CalibrateLow,
    CalibrateHigh,
    BitSent,
    EndTransmission,
}

/// Commands a mini sends back toward the screen.
#[derive(Clone, Copy, Debug, PartialEq, Eq, Structural)]
pub enum ScreenCommands {
    TriggerTransmission,
}

/// The acknowledgement a mini returns for each command: accepted, or
/// failed on the device.
#[derive(Clone, Copy, Debug, PartialEq, Eq, Structural)]
pub enum CommandAck {
    Accepted,
    Failed,
}

/// Commands of the serial calibration link, one byte each, numbered in
/// declaration order.
#[derive(Clone, Copy, Debug, PartialEq, Eq, Structural)]
pub enum Commands {
    Ping,
    GetLightValue,
    SetLightConversionTime,
    CalibrateDark,
    CalibrateLight,
    CalibrateMiddle,
    GetFrameDelay,
}

/// A located position report: coordinates and the error radius, as the
/// wire format carries them.
#[derive(Clone, Copy, Debug, PartialEq, Eq, Structural)]
pub struct Location {
    pub x: u32,
    pub y: u32,
    pub z: u32,
    pub error: u32,
}

/// A message forwarded from a mini to the screen loop: either a command or
/// a position report.
#[derive(Clone, Copy, Debug, PartialEq, Eq, Structural)]
pub enum MiniMessage {
    Command(ScreenCommands),
    Position(Location),
}

/// The wire byte of each mini command.
pub open spec fn mini_command_byte(c: MiniCommands) -> u8 {
    match c {
        MiniCommands::StartTransmission => 0,
        MiniCommands::CalibrateLow => 1,
        MiniCommands::CalibrateHigh => 2,
        MiniCommands::BitSent => 3,
        MiniCommands::EndTransmission => 4,
    }
}

/// The wire byte of each serial command.
pub open spec fn command_byte(c: Commands) -> u8 {
    match c {
        Commands::Ping => 0,
        Commands::GetLightValue => 1,
        Commands::SetLightConversionTime => 2,
        Commands::CalibrateDark => 3,
        Commands::CalibrateLight => 4,
        Commands::CalibrateMiddle => 5,
        Commands::GetFrameDelay => 6,
    }
}

/// The wire byte of each acknowledgement.
pub open spec fn ack_byte(a: CommandAck) -> u8 {
    match a {
        CommandAck::Accepted => 0,
        CommandAck::Failed => 1,
    }
}

impl MiniCommands {
    /// Encodes the command as its wire byte.
    pub fn to_byte(&self) -> (r: u8)
        ensures
            r == mini_command_byte(*self),
    {
        match self {
            MiniCommands::StartTransmission => 0,
            MiniCommands::CalibrateLow => 1,
            MiniCommands::CalibrateHigh => 2,
            MiniCommands::BitSent => 3,
            MiniCommands::EndTransmission => 4,
        }
    }

    /// Decodes a wire byte: every byte up to the last command decodes, and
    /// to the command that encodes back to it; anything else is rejected.
    pub fn from_byte(b: u8) -> (r: Option<MiniCommands>)
        ensures
            r is Some <==> b <= 4,
            r matches Some(c) ==> mini_command_byte(c) == b,
    {
        match b {
            0 => Some(MiniCommands::StartTransmission),
            1 => Some(MiniCommands::CalibrateLow),
            2 => Some(MiniCommands::CalibrateHigh),
            3 => Some(MiniCommands::BitSent),
            4 => Some(MiniCommands::EndTransmission),
            _ => None,
        }
    }
}

impl ScreenCommands {
    /// Encodes the command as its wire byte.
    pub fn to_byte(&self) -> (r: u8)
        ensures
            r == 0,
    {
        0
    }

    /// Decodes a wire byte.
    pub fn from_byte(b: u8) -> (r: Option<ScreenCommands>)
        ensures
            r is Some <==> b == 0,
            r matches Some(c) ==> c == ScreenCommands::TriggerTransmission,
    {
        match b {
            0 => Some(ScreenCommands::TriggerTransmission),
            _ => None,
        }
    }
}

impl CommandAck {
    /// Encodes the acknowledgement as its wire byte.
    pub fn to_byte(&self) -> (r: u8)
        ensures
            r == ack_byte(*self),
    {
        match self {
            CommandAck::Accepted => 0,
            CommandAck::Failed => 1,
        }
    }

    /// Decodes a wire byte.
    pub fn from_byte(b: u8) -> (r: Option<CommandAck>)
        ensures
            r is Some <==> b <= 1,
            r matches Some(a) ==> ack_byte(a) == b,
    {
        match b {
            0 => Some(CommandAck::Accepted),
            1 => Some(CommandAck::Failed),
            _ => None,
        }
    }
}

impl Commands {
    /// Encodes the command as its wire byte.
    pub fn to_byte(&self) -> (r: u8)
        ensures
            r == command_byte(*self),
    {
        match self {
            Commands::Ping => 0,
            Commands::GetLightValue => 1,
            Commands::SetLightConversionTime => 2,
            Commands::CalibrateDark => 3,
            Commands::CalibrateLight => 4,
            Commands::CalibrateMiddle => 5,
            Commands::GetFrameDelay => 6,
        }
    }

    /// Decodes a wire byte.
    pub fn from_byte(b: u8) -> (r: Option<Commands>)
        ensures
            r is Some <==> b <= 6,
            r matches Some(c) ==> command_byte(c) == b,
    {
        match b {
            0 => Some(Commands::Ping),
            1 => Some(Commands::GetLightValue),
            2 => Some(Commands::SetLightConversionTime),
            3 => Some(Commands::CalibrateDark),
            4 => Some(Commands::CalibrateLight),
            5 => Some(Commands::CalibrateMiddle),
            6 => Some(Commands::GetFrameDelay),
            _ => None,
        }
    }
}

/// The little-endian reassembly of four consecutive bytes.
pub open spec fn le_u32(b0: u8, b1: u8, b2: u8, b3: u8) -> int {
    b0 + 256 * b1 + 65536 * b2 + 16777216 * b3
}

impl Location {
    /// Serializes the report as sixteen bytes, each field little-endian in
    /// field order.
    pub fn to_bytes(&self) -> (r: Vec<u8>)
        ensures
            r@.len() == 16,
            le_u32(r@[0], r@[1], r@[2], r@[3]) == self.x,
            le_u32(r@[4], r@[5], r@[6], r@[7]) == self.y,
            le_u32(r@[8], r@[9], r@[10], r@[11]) == self.z,
            le_u32(r@[12], r@[13], r@[14], r@[15]) == self.error,
    {
        let mut out: Vec<u8> = Vec::new();
        push_le_u32(&mut out, self.x);
        push_le_u32(&mut out, self.y);
        push_le_u32(&mut out, self.z);
        push_le_u32(&mut out, self.error);
        out
    }

    /// Parses sixteen bytes back into a report: succeeds exactly on
    /// sixteen-byte inputs, and returns the fields the bytes spell.
    pub fn from_bytes(bytes: &Vec<u8>) -> (r: Option<Location>)
        ensures
            r is Some <==> bytes@.len() == 16,
            r matches Some(l) ==> {
                &&& l.x == le_u32(bytes@[0], bytes@[1], bytes@[2], bytes@[3])
                &&& l.y == le_u32(bytes@[4], bytes@[5], bytes@[6], bytes@[7])
                &&& l.z == le_u32(bytes@[8], bytes@[9], bytes@[10], bytes@[11])
                &&& l.error == le_u32(bytes@[12], bytes@[13], bytes@[14], bytes@[15])
            },
    {
        if bytes.len() != 16 {
            return None;
        }
        let x = read_le_u32(bytes, 0);
        let y = read_le_u32(bytes, 4);
        let z = read_le_u32(bytes, 8);
        let error = read_le_u32(bytes, 12);
        Some(Location { x, y, z, error })
    }
}

/// Appends one field as four little-endian bytes.
fn push_le_u32(out: &mut Vec<u8>, v: u32)
    ensures
        final(out)@.len() == old(out)@.len() + 4,
        final(out)@.subrange(0, old(out)@.len() as int) == old(out)@,
        le_u32(
            final(out)@[old(out)@.len() as int],
            final(out)@[old(out)@.len() as int + 1],
            final(out)@[old(out)@.len() as int + 2],
            final(out)@[old(out)@.len() as int + 3],
        ) == v,
{
    let b0: u8 = (v % 256) as u8;
    let b1: u8 = ((v / 256) % 256) as u8;
    let b2: u8 = ((v / 65536) % 256) as u8;
    let b3: u8 = (v / 16777216) as u8;
    proof {
        assert(v % 256 + 256 * ((v / 256) % 256) + 65536 * ((v / 65536) % 256) + 16777216 * (v
            / 16777216) == v) by (bit_vector);
        assert(v / 16777216 < 256) by (bit_vector);
    }
    out.push(b0);
    out.push(b1);
    out.push(b2);
    out.push(b3);
    proof {
        assert(out@.subrange(0, old(out)@.len() as int) =~= old(out)@);
    }
}

/// Reads one field from four little-endian bytes.
fn read_le_u32(bytes: &Vec<u8>, at: usize) -> (r: u32)
    requires
        at + 4 <= bytes@.len(),
    ensures
        r == le_u32(bytes@[at as int], bytes@[at + 1], bytes@[at + 2], bytes@[at + 3]),
{
    let n = bytes.len();
    let b0 = bytes[at] as u32;
    let b1 = bytes[at + 1] as u32;
    let b2 = bytes[at + 2] as u32;
    let b3 = bytes[at + 3] as u32;
    b0 + 256 * b1 + 65536 * b2 + 16777216 * b3
}

/// Serializing a report and parsing the bytes back returns the report
/// unchanged.
pub proof fn lemma_location_bytes_round_trip(l: Location, m: Location, bytes: Seq<u8>)
    requires
        bytes.len() == 16,
        le_u32(bytes[0], bytes[1], bytes[2], bytes[3]) == l.x,
        le_u32(bytes[4], bytes[5], bytes[6], bytes[7]) == l.y,
        le_u32(bytes[8], bytes[9], bytes[10], bytes[11]) == l.z,
        le_u32(bytes[12], bytes[13], bytes[14], bytes[15]) == l.error,
        m.x == le_u32(bytes[0], bytes[1], bytes[2], bytes[3]),
        m.y == le_u32(bytes[4], bytes[5], bytes[6], bytes[7]),
        m.z == le_u32(bytes[8], bytes[9], bytes[10], bytes[11]),
        m.error == le_u32(bytes[12], bytes[13], bytes[14], bytes[15]),
    ensures
        m == l,
{
}

} // verus!
