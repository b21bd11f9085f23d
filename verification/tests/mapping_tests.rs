use adb_rs::MappingType;
use adb_rs::forward_command;
use adb_rs::list_forward_command;
use adb_rs::reverse_forward_command;
use adb_rs::reverse_list_command;
use adb_rs::connect_command;
use adb_rs::disconnect_command;
use adb_rs::devices_command;
use adb_rs::kill_command;
use adb_rs::shell_command;
use adb_rs::sync_command;
use adb_rs::transport_command;
use adb_rs::version_command;

#[test]
fn numeric_token_is_always_a_port() {
    assert_eq!(MappingType::parse("8080"), MappingType::Port(8080));
    assert_eq!(MappingType::parse("0"), MappingType::Port(0));
    assert_eq!(
        MappingType::parse("4294967295"),
        MappingType::Port(4_294_967_295)
    );
}

#[test]
fn non_numeric_token_is_a_named_socket() {
    assert_eq!(
        MappingType::parse("localabstract:chan"),
        MappingType::Ipc(String::from("localabstract:chan"))
    );
    assert_eq!(MappingType::parse(""), MappingType::Ipc(String::new()));
    // Digits beyond the 32-bit range cannot name a port.
    assert_eq!(
        MappingType::parse("4294967296"),
        MappingType::Ipc(String::from("4294967296"))
    );
    // A sign is not a digit.
    assert_eq!(
        MappingType::parse("+80"),
        MappingType::Ipc(String::from("+80"))
    );
}

#[test]
fn mapping_round_trip_reproduces_wire_form() {
    for token in ["8080", "0", "65535", "localabstract:chan", "tcp-ish", ""] {
        let parsed = MappingType::parse(token);
        assert_eq!(parsed.render(), token);
    }
    let rendered = MappingType::Port(443).render();
    assert_eq!(rendered, "443");
    assert_eq!(MappingType::parse(&rendered), MappingType::Port(443));
}

#[test]
fn forward_command_grammar() {
    let cmd = forward_command("abc123", 1000, &MappingType::Port(2000), None);
    assert_eq!(cmd, "host-serial:abc123:forward:1000;2000");
    let cmd = forward_command("abc123", 1000, &MappingType::Port(2000), Some(true));
    assert_eq!(cmd, "host-serial:abc123:forward:norebind:1000;2000");
    let cmd = forward_command(
        "abc123",
        7,
        &MappingType::Ipc(String::from("localabstract:chan")),
        Some(false),
    );
    assert_eq!(cmd, "host-serial:abc123:forward:7;localabstract:chan");
}

#[test]
fn reverse_command_swaps_remote_and_local() {
    let cmd = reverse_forward_command(1000, 2000);
    assert_eq!(cmd, "reverse:forward:1000;2000");
}

#[test]
fn listing_commands() {
    assert_eq!(list_forward_command(Some("serial-z")), "host-serial:serial-z:list-forward");
    assert_eq!(list_forward_command(None), "host:list-forward");
    assert_eq!(reverse_list_command(), "reverse:list-forward");
}

#[test]
fn host_command_strings() {
    assert_eq!(version_command(), "host:version");
    assert_eq!(devices_command(), "host:devices");
    assert_eq!(kill_command(), "host:kill");
    assert_eq!(connect_command("10.0.0.2:5555"), "host:connect:10.0.0.2:5555");
    assert_eq!(
        disconnect_command("10.0.0.2:5555"),
        "host:disconnect:10.0.0.2:5555"
    );
    assert_eq!(transport_command("abc"), "host:transport:abc");
    assert_eq!(shell_command("ls -l /sdcard"), "shell:ls -l /sdcard");
    assert_eq!(sync_command(), "sync:");
}
