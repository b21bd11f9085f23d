use adb_rs::AdbCommand;
use adb_rs::AdbConfig;
use adb_rs::AdbMessage;
use adb_rs::ArgsProtocol;
use adb_rs::Device;
use adb_rs::PythonArgs;

#[test]
fn config_keeps_its_values() {
    let config = AdbConfig::new("/usr/local/bin/adb", "127.0.0.1", 5037);
    assert_eq!(config.adb_path, "/usr/local/bin/adb");
    assert_eq!(config.adb_host, "127.0.0.1");
    assert_eq!(config.adb_port, 5037);
    assert_eq!(config, config.clone());
}

#[test]
fn config_default_is_loopback_conventional_port() {
    let config = AdbConfig::default();
    assert_eq!(config.adb_host, "127.0.0.1");
    assert_eq!(config.adb_port, 5037);
    assert_eq!(config.adb_path, "");
}

#[test]
fn message_create_computes_header_words() {
    let msg = AdbMessage::create(AdbCommand::CNXN, 1, 2, vec![1u8, 2u8, 3u8]);
    assert_eq!(msg.arg0, 1);
    assert_eq!(msg.arg1, 2);
    assert_eq!(msg.data_len, 3);
    assert_eq!(msg.data_crc32, 6);
    assert_eq!(msg.magic, 0x4e584e43u32 ^ 0xFFFFFFFFu32);
    assert_eq!(msg.data, vec![1u8, 2u8, 3u8]);
}

#[test]
fn message_checksum_sums_bytes() {
    let msg = AdbMessage::create(AdbCommand::WRTE, 0, 0, vec![255u8; 4]);
    assert_eq!(msg.data_crc32, 1020);
    let empty = AdbMessage::create(AdbCommand::OKAY, 0, 0, Vec::new());
    assert_eq!(empty.data_crc32, 0);
    assert_eq!(empty.data_len, 0);
}

#[test]
fn command_codes_are_ascii_words() {
    assert_eq!(AdbCommand::SYNC.code(), 0x434e5953);
    assert_eq!(AdbCommand::CNXN.code(), 0x4e584e43);
    assert_eq!(AdbCommand::AUTH.code(), 0x48545541);
    assert_eq!(AdbCommand::OPEN.code(), 0x4e45504f);
    assert_eq!(AdbCommand::OKAY.code(), 0x59414b4f);
    assert_eq!(AdbCommand::CLSE.code(), 0x45534c43);
    assert_eq!(AdbCommand::WRTE.code(), 0x45545257);
}

#[test]
fn device_line_needs_a_separator() {
    let device = Device::new("emulator-5554 device").unwrap();
    assert_eq!(device.serial, "emulator-5554");
    assert_eq!(device.state, "device");
    assert!(Device::new("one-column").is_none());
    assert!(Device::new("").is_none());
}

#[test]
fn device_line_keeps_empty_columns() {
    // Consecutive separators make an empty second column.
    let device = Device::new("serial  state").unwrap();
    assert_eq!(device.serial, "serial");
    assert_eq!(device.state, "");
    // A carriage return closes the second column.
    let device = Device::new("serial state\r").unwrap();
    assert_eq!(device.serial, "serial");
    assert_eq!(device.state, "state");
}

#[test]
fn python_args_shape() {
    let args = PythonArgs::new(String::from("pipenv"));
    assert_eq!(args.module, "pipenv");
    let rendered = args.to_command_args();
    assert_eq!(rendered, vec![
        String::from("-m"),
        String::from("pipenv"),
        String::from("--help"),
    ]);
}
