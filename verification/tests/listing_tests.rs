use adb_rs::DeviceStatus;
use adb_rs::DeviceTracker;
use adb_rs::MappingDevice;
use adb_rs::MappingType;
use adb_rs::TrackState;
use adb_rs::check_and_push;
use adb_rs::filter_online;
use adb_rs::find_by_serial;
use adb_rs::parse_device_lines;
use adb_rs::parse_forward_list;
use adb_rs::parse_reverse_list;

#[test]
fn status_parsing_is_total() {
    assert_eq!(DeviceStatus::parse("online"), DeviceStatus::Online);
    assert_eq!(DeviceStatus::parse("offline"), DeviceStatus::Offline);
    assert_eq!(DeviceStatus::parse("unauthorized"), DeviceStatus::Unauthorized);
    assert_eq!(DeviceStatus::parse("absent"), DeviceStatus::Absent);
    assert_eq!(DeviceStatus::parse("xyz"), DeviceStatus::Unknown);
    assert_eq!(DeviceStatus::parse(""), DeviceStatus::Unknown);
    assert_eq!(DeviceStatus::parse("ONLINE"), DeviceStatus::Unknown);
}

#[test]
fn device_listing_counts_two_token_lines() {
    let events = parse_device_lines("emulator-5554\tdevice\n\n");
    assert_eq!(events.len(), 1);
    assert_eq!(events[0].serial, "emulator-5554");
    assert_eq!(events[0].status, DeviceStatus::Unknown);
    assert!(events[0].present.is_none());
}

#[test]
fn device_listing_drops_malformed_lines() {
    let payload = "one-token\nserial-a online\n\nserial-b offline extra\nserial-c absent\n";
    let events = parse_device_lines(payload);
    assert_eq!(events.len(), 2);
    assert_eq!(events[0].serial, "serial-a");
    assert_eq!(events[0].status, DeviceStatus::Online);
    assert_eq!(events[1].serial, "serial-c");
    assert_eq!(events[1].status, DeviceStatus::Absent);
}

#[test]
fn filter_online_keeps_only_online() {
    let events = parse_device_lines("a online\nb offline\nc online\nd unauthorized\n");
    let online = filter_online(&events);
    assert_eq!(online.len(), 2);
    assert_eq!(online[0].serial, "a");
    assert_eq!(online[1].serial, "c");
}

#[test]
fn find_by_serial_returns_last_match() {
    let events = parse_device_lines("a online\nb online\na offline\n");
    let found = find_by_serial(&events, "a").unwrap();
    assert_eq!(found.status, DeviceStatus::Offline);
    assert!(find_by_serial(&events, "zz").is_none());
}

#[test]
fn tracker_walks_its_states() {
    let mut tracker = DeviceTracker::new();
    assert_eq!(tracker.state, TrackState::Idle);
    let request = tracker.begin();
    assert_eq!(request, "host:track-devices");
    assert_eq!(tracker.state, TrackState::Tracking);
    let events = tracker.on_payload("serial-a online\n");
    assert_eq!(events.len(), 1);
    assert_eq!(events[0].serial, "serial-a");
    tracker.on_disconnect();
    assert_eq!(tracker.state, TrackState::Closed);
}

#[test]
fn tracking_emits_from_first_two_tokens() {
    let mut tracker = DeviceTracker::new();
    tracker.begin();
    // A tracking line may carry more than two tokens: the event is built
    // from the first two, and only a line with fewer than two is dropped.
    let events = tracker.on_payload("serial-a online extra tokens\nlonely\nserial-b offline\n");
    assert_eq!(events.len(), 2);
    assert_eq!(events[0].serial, "serial-a");
    assert_eq!(events[0].status, DeviceStatus::Online);
    assert_eq!(events[1].serial, "serial-b");
    assert_eq!(events[1].status, DeviceStatus::Offline);
}

#[test]
fn listing_and_tracking_read_extra_tokens_differently() {
    // The one-shot listing counts exactly the two-token lines; the
    // tracking stream keeps every line with at least two tokens.
    let payload = "serial-a online extra\n";
    assert_eq!(parse_device_lines(payload).len(), 0);
    let mut tracker = DeviceTracker::new();
    tracker.begin();
    assert_eq!(tracker.on_payload(payload).len(), 1);
}

#[test]
fn forward_and_reverse_listing_swap_local_and_remote() {
    let payload = "s1 1001 2001\ns2 1002 ipc:chan\ns3 7 8";
    let forward = parse_forward_list(payload);
    let reverse = parse_reverse_list(payload);
    assert_eq!(forward.len(), 3);
    assert_eq!(reverse.len(), 3);
    assert_eq!(forward[0].serial.as_deref(), Some("s1"));
    assert_eq!(reverse[0].serial.as_deref(), Some("s1"));
    for i in 0..3 {
        assert_eq!(forward[i].local, reverse[i].remote);
        assert_eq!(forward[i].remote, reverse[i].local);
    }
    assert_eq!(forward[0].local, MappingType::Port(1001));
    assert_eq!(forward[0].remote, MappingType::Port(2001));
    assert_eq!(reverse[0].local, MappingType::Port(2001));
    assert_eq!(reverse[0].remote, MappingType::Port(1001));
    assert_eq!(forward[1].remote, MappingType::Ipc(String::from("ipc:chan")));
    assert_eq!(reverse[1].local, MappingType::Ipc(String::from("ipc:chan")));
}

#[test]
fn listing_skips_lines_with_fewer_than_three_tokens() {
    let payload = "s1 1001\n\ns2 1 2\n";
    let forward = parse_forward_list(payload);
    assert_eq!(forward.len(), 1);
    assert_eq!(forward[0].serial.as_deref(), Some("s2"));
}

#[test]
fn check_and_push_needs_all_three_tokens() {
    let mut acc: Vec<MappingDevice> = Vec::new();
    check_and_push(&mut acc, Some(String::from("s")), Some("10"), Some("20"));
    assert_eq!(acc.len(), 1);
    check_and_push(&mut acc, Some(String::from("s")), Some("10"), None);
    check_and_push(&mut acc, None, Some("10"), Some("20"));
    assert_eq!(acc.len(), 1);
    assert_eq!(acc[0].local, MappingType::Port(10));
    assert_eq!(acc[0].remote, MappingType::Port(20));
}
