//! Tests of the message types' byte encodings.

use mini_tracker::protocol::{CommandAck, Commands, Location, MiniCommands, ScreenCommands};

#[test]
fn mini_commands_round_trip() {
    let all = [
        MiniCommands::StartTransmission,
        MiniCommands::CalibrateLow,
        MiniCommands::CalibrateHigh,
        MiniCommands::BitSent,
        MiniCommands::EndTransmission,
    ];
    for (i, c) in all.iter().enumerate() {
        assert_eq!(c.to_byte(), i as u8);
        assert_eq!(MiniCommands::from_byte(i as u8), Some(*c));
    }
    assert_eq!(MiniCommands::from_byte(5), None);
    assert_eq!(MiniCommands::from_byte(255), None);
}

#[test]
fn serial_commands_round_trip() {
    let all = [
        Commands::Ping,
        Commands::GetLightValue,
        Commands::SetLightConversionTime,
        Commands::CalibrateDark,
        Commands::CalibrateLight,
        Commands::CalibrateMiddle,
        Commands::GetFrameDelay,
    ];
    for (i, c) in all.iter().enumerate() {
        assert_eq!(c.to_byte(), i as u8);
        assert_eq!(Commands::from_byte(i as u8), Some(*c));
    }
    assert_eq!(Commands::from_byte(7), None);
}

#[test]
fn acks_and_screen_commands_round_trip() {
    assert_eq!(CommandAck::Accepted.to_byte(), 0);
    assert_eq!(CommandAck::Failed.to_byte(), 1);
    assert_eq!(CommandAck::from_byte(0), Some(CommandAck::Accepted));
    assert_eq!(CommandAck::from_byte(1), Some(CommandAck::Failed));
    assert_eq!(CommandAck::from_byte(2), None);

    assert_eq!(ScreenCommands::TriggerTransmission.to_byte(), 0);
    assert_eq!(ScreenCommands::from_byte(0), Some(ScreenCommands::TriggerTransmission));
    assert_eq!(ScreenCommands::from_byte(1), None);
}

#[test]
fn location_bytes_round_trip() {
    let loc = Location { x: 465000, y: 261500, z: 0, error: 12345678 };
    let bytes = loc.to_bytes();
    assert_eq!(bytes.len(), 16);
    let back = Location::from_bytes(&bytes).unwrap();
    assert_eq!(back, loc);

    // Little-endian, field order: x = 465000 = 0x0007_1868.
    assert_eq!(bytes[0], 0x68);
    assert_eq!(bytes[1], 0x18);
    assert_eq!(bytes[2], 0x07);
    assert_eq!(bytes[3], 0x00);
}

#[test]
fn location_wrong_length_is_rejected() {
    let short = vec![0u8; 15];
    assert!(Location::from_bytes(&short).is_none());
    let long = vec![0u8; 17];
    assert!(Location::from_bytes(&long).is_none());
}
