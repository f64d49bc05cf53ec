use ndproxy::capture::{receive_packet, step, CaptureEvent, LoopAction, LoopState};
use ndproxy::config::{device_index_by_name, same_text, CliCommand, Command, ConfigError};
use ndproxy::frame::{address_from_octets, parse_frame, ParseError};
use ndproxy::prefix::Ipv6Prefix;

const DOC_NET: u128 = 0x2001_0db8_0000_0000_0000_0000_0000_0000;

fn prefix(addr: u128, length: usize) -> Ipv6Prefix {
    Ipv6Prefix::new(addr, length).unwrap()
}

fn ethernet_header(ether_type: u16) -> Vec<u8> {
    let mut frame = vec![0x33, 0x33, 0, 0, 0, 1, 0x02, 0x11, 0x22, 0x33, 0x44, 0x55];
    frame.extend_from_slice(&ether_type.to_be_bytes());
    frame
}

fn ipv6_frame(source: u128) -> Vec<u8> {
    let mut frame = ethernet_header(0x86DD);
    frame.extend_from_slice(&[0x60, 0, 0, 0, 0, 0, 59, 64]);
    frame.extend_from_slice(&source.to_be_bytes());
    frame.extend_from_slice(&0xff02_0000_0000_0000_0000_0000_0000_0001u128.to_be_bytes());
    frame
}

fn config(p: Ipv6Prefix) -> Command {
    Command {
        iface_name: "eth0".to_string(),
        broadcast_iface: "eth1".to_string(),
        prefix: p,
    }
}

fn cli(text: &str) -> CliCommand {
    CliCommand {
        iface_name: "eth0".to_string(),
        broadcast_iface: "eth1".to_string(),
        prefix: text.to_string(),
    }
}

#[test]
fn documentation_prefix_matches_inside_address() {
    let p = prefix(DOC_NET, 32);
    let address: u128 = 0x2001_0db8_0001_0000_0000_0000_0000_0001;
    assert!(p.matches(address));
    let c = config(prefix(DOC_NET, 32));
    let (next, action) = step(LoopState::Running, &CaptureEvent::Frame(ipv6_frame(address)), &c);
    assert_eq!(next, LoopState::Running);
    match action {
        LoopAction::Install(req) => {
            assert_eq!(req.address, address);
            assert_eq!(req.interface, "eth1");
        }
        other => panic!("expected an install, got {:?}", other),
    }
}

#[test]
fn documentation_prefix_rejects_neighbouring_network() {
    let p = prefix(DOC_NET, 32);
    let address: u128 = 0x2001_0db9_0000_0000_0000_0000_0000_0001;
    assert!(!p.matches(address));
    let c = config(prefix(DOC_NET, 32));
    let (next, action) = step(LoopState::Running, &CaptureEvent::Frame(ipv6_frame(address)), &c);
    assert_eq!(next, LoopState::Running);
    assert!(matches!(action, LoopAction::Ignore));
}

#[test]
fn length_33_masks_the_partial_byte() {
    let p = prefix(DOC_NET, 33);
    let differs_in_bit_33: u128 = 0x2001_0db8_8000_0000_0000_0000_0000_0000;
    let differs_after_bit_33: u128 = 0x2001_0db8_4000_0000_0000_0000_0000_0001;
    assert!(!p.matches(differs_in_bit_33));
    assert!(p.matches(differs_after_bit_33));
}

#[test]
fn zero_and_full_lengths() {
    assert!(prefix(DOC_NET, 0).matches(0));
    assert!(prefix(DOC_NET, 0).matches(u128::MAX));
    assert!(prefix(DOC_NET, 128).matches(DOC_NET));
    assert!(!prefix(DOC_NET, 128).matches(DOC_NET + 1));
    assert!(prefix(u128::MAX, 127).matches(u128::MAX - 1));
    assert!(!prefix(u128::MAX, 127).matches(u128::MAX - 2));
    assert!(Ipv6Prefix::new(DOC_NET, 129).is_none());
    assert_eq!(prefix(DOC_NET, 48).length(), 48);
    assert_eq!(prefix(DOC_NET, 48).addr(), DOC_NET);
}

#[test]
fn matching_twice_gives_the_same_answer() {
    let p = prefix(DOC_NET, 33);
    let address: u128 = 0x2001_0db8_4000_0000_0000_0000_0000_0001;
    let first = p.matches(address);
    let second = p.matches(address);
    assert_eq!(first, second);
    assert!(first);
}

#[test]
fn ipv4_frame_is_not_of_interest() {
    let mut frame = ethernet_header(0x0800);
    frame.extend_from_slice(&[0x45u8; 40]);
    assert_eq!(parse_frame(&frame), Ok(None));
    let c = config(prefix(0, 0));
    assert_eq!(receive_packet(&frame, &c.prefix), Ok(None));
    let (next, action) = step(LoopState::Running, &CaptureEvent::Frame(frame), &c);
    assert_eq!(next, LoopState::Running);
    assert!(matches!(action, LoopAction::Ignore));
}

#[test]
fn short_ipv4_frame_is_not_of_interest() {
    let frame = ethernet_header(0x0806);
    assert_eq!(parse_frame(&frame), Ok(None));
}

#[test]
fn ten_byte_frame_is_truncated() {
    let frame = vec![0u8; 10];
    assert_eq!(parse_frame(&frame), Err(ParseError::Truncated));
    let c = config(prefix(0, 0));
    let (next, action) = step(LoopState::Running, &CaptureEvent::Frame(frame), &c);
    assert_eq!(next, LoopState::Running);
    assert!(matches!(action, LoopAction::Discard(ParseError::Truncated)));
    let (after, poll) = step(next, &CaptureEvent::Timeout, &c);
    assert_eq!(after, LoopState::Running);
    assert!(matches!(poll, LoopAction::Poll));
}

#[test]
fn short_ipv6_frame_is_truncated() {
    let mut frame = ipv6_frame(DOC_NET);
    frame.truncate(53);
    assert_eq!(parse_frame(&frame), Err(ParseError::Truncated));
    let header_only = ethernet_header(0x86DD);
    assert_eq!(parse_frame(&header_only), Err(ParseError::Truncated));
    assert_eq!(parse_frame(&[]), Err(ParseError::Truncated));
}

#[test]
fn wrong_ip_version_is_malformed() {
    let mut frame = ipv6_frame(DOC_NET);
    frame[14] = 0x45;
    assert_eq!(parse_frame(&frame), Err(ParseError::Malformed));
    let c = config(prefix(0, 0));
    let (_, action) = step(LoopState::Running, &CaptureEvent::Frame(frame), &c);
    assert!(matches!(action, LoopAction::Discard(ParseError::Malformed)));
}

#[test]
fn source_address_is_read_from_the_ipv6_header() {
    let source: u128 = 0xfe80_0000_0000_0000_0211_22ff_fe33_4455;
    let mut frame = ipv6_frame(source);
    assert_eq!(frame.len(), 54);
    assert_eq!(parse_frame(&frame), Ok(Some(source)));
    frame.extend_from_slice(&[1, 2, 3, 4]);
    assert_eq!(parse_frame(&frame), Ok(Some(source)));
    assert_eq!(receive_packet(&frame, &prefix(0xfe80 << 112, 10)), Ok(Some(source)));
    assert_eq!(receive_packet(&frame, &prefix(DOC_NET, 32)), Ok(None));
}

#[test]
fn octets_are_read_in_network_order() {
    let mut octets = [0u8; 16];
    octets[0] = 0x20;
    octets[1] = 0x01;
    octets[15] = 0x07;
    assert_eq!(address_from_octets(octets), 0x2001_0000_0000_0000_0000_0000_0000_0007);
    assert_eq!(address_from_octets([0xff; 16]), u128::MAX);
}

#[test]
fn closed_capture_terminates_the_loop() {
    let c = config(prefix(DOC_NET, 32));
    let (next, action) = step(LoopState::Running, &CaptureEvent::Closed, &c);
    assert_eq!(next, LoopState::Terminated);
    assert!(matches!(action, LoopAction::Stop));
    let frame = ipv6_frame(DOC_NET + 1);
    let (after, stop) = step(next, &CaptureEvent::Frame(frame), &c);
    assert_eq!(after, LoopState::Terminated);
    assert!(matches!(stop, LoopAction::Stop));
}

#[test]
fn prefix_text_is_split_at_the_slash() {
    assert_eq!(cli("2001:db8::/32").address_text(), Some("2001:db8::"));
    assert_eq!(cli("2001:db8::").address_text(), None);
    assert_eq!(cli("/7").address_text(), Some(""));
}

#[test]
fn prefix_text_is_parsed() {
    let p = cli("2001:db8::/32").parse_prefix(Some(DOC_NET)).unwrap();
    assert_eq!(p.addr(), DOC_NET);
    assert_eq!(p.length(), 32);
    assert_eq!(cli("::/0").parse_prefix(Some(0)).unwrap().length(), 0);
    assert_eq!(cli("::/128").parse_prefix(Some(0)).unwrap().length(), 128);
    assert_eq!(cli("::/033").parse_prefix(Some(0)).unwrap().length(), 33);
    assert_eq!(cli("::/+32").parse_prefix(Some(0)).unwrap().length(), 32);
    assert_eq!(cli("::/+0").parse_prefix(Some(0)).unwrap().length(), 0);
    assert_eq!(cli("::/32/8").parse_prefix(Some(0)).unwrap().length(), 32);
    assert_eq!(cli("::/64/").parse_prefix(Some(0)).unwrap().length(), 64);
}

#[test]
fn prefix_text_errors() {
    assert_eq!(cli("2001:db8::").parse_prefix(Some(DOC_NET)).err(), Some(ConfigError::MissingSeparator));
    assert_eq!(cli("nonsense/32").parse_prefix(None).err(), Some(ConfigError::InvalidAddress));
    assert_eq!(cli("::/129").parse_prefix(Some(0)).err(), Some(ConfigError::InvalidLength));
    assert_eq!(cli("::/1000000000000000000000").parse_prefix(Some(0)).err(), Some(ConfigError::InvalidLength));
    assert_eq!(cli("::/").parse_prefix(Some(0)).err(), Some(ConfigError::InvalidLength));
    assert_eq!(cli("::/3x").parse_prefix(Some(0)).err(), Some(ConfigError::InvalidLength));
    assert_eq!(cli("::/-1").parse_prefix(Some(0)).err(), Some(ConfigError::InvalidLength));
    assert_eq!(cli("::/+").parse_prefix(Some(0)).err(), Some(ConfigError::InvalidLength));
    assert_eq!(cli("::/++32").parse_prefix(Some(0)).err(), Some(ConfigError::InvalidLength));
    assert_eq!(cli("::/+129").parse_prefix(Some(0)).err(), Some(ConfigError::InvalidLength));
    assert_eq!(cli("::/x/32").parse_prefix(Some(0)).err(), Some(ConfigError::InvalidLength));
}

#[test]
fn command_keeps_interfaces() {
    let c = Command::from_cli(cli("2001:db8::/32"), Some(DOC_NET)).unwrap();
    assert_eq!(c.iface_name, "eth0");
    assert_eq!(c.broadcast_iface, "eth1");
    assert_eq!(c.prefix.length(), 32);
    assert_eq!(Command::from_cli(cli("2001:db8::/x"), Some(DOC_NET)).err(), Some(ConfigError::InvalidLength));
}

#[test]
fn devices_are_found_by_name() {
    let names = vec!["lo".to_string(), "eth0".to_string(), "eth0".to_string()];
    assert_eq!(device_index_by_name(&names, "eth0"), Some(1));
    assert_eq!(device_index_by_name(&names, "lo"), Some(0));
    assert_eq!(device_index_by_name(&names, "eth"), None);
    assert_eq!(device_index_by_name(&[], "eth0"), None);
    assert!(same_text("wlan0", "wlan0"));
    assert!(!same_text("wlan0", "wlan1"));
}

#[test]
fn frames_of_every_length_are_handled() {
    let full = ipv6_frame(DOC_NET);
    for len in 0..full.len() {
        let expected = if len < 54 { Err(ParseError::Truncated) } else { Ok(Some(DOC_NET)) };
        assert_eq!(parse_frame(&full[..len]), expected);
    }
    assert_eq!(parse_frame(&full), Ok(Some(DOC_NET)));
    let noise: Vec<u8> = (0..200u32).map(|i| (i * 37 % 251) as u8).collect();
    for len in 0..noise.len() {
        let _ = parse_frame(&noise[..len]);
    }
}
