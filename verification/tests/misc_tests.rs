use src_utils::event_loop::EventLoop;
use src_utils::inject::InputInjector;
use src_utils::options::Options;
use src_utils::uinput::{key_event_records, pointer_event_records, EventRecord, BTN_LEFT, BTN_MIDDLE, BTN_RIGHT, EV_KEY, EV_REL, EV_SYN, REL_X, REL_Y, SYN_REPORT};
use src_utils::xi2::create_xi2_devices;
use src_utils::uinput::{device_capabilities, device_name_bytes, Capability};
use std::io;

struct Dummy;

impl InputInjector for Dummy {
    fn send_key(&mut self, _keycode: u16, _pressed: bool) -> io::Result<()> {
        Ok(())
    }
    fn send_pointer(&mut self, _dx: i32, _dy: i32, _button_mask: u32) -> io::Result<()> {
        Ok(())
    }
}

#[test]
fn dummy_injector_works() {
    let mut d = Dummy;
    d.send_key(30, true).unwrap();
    d.send_pointer(10, -5, 1).unwrap();
}

#[test]
fn injector_flush_defaults_to_ok() {
    let mut d = Dummy;
    assert!(d.flush().is_ok());
}

#[test]
fn basic_tick_works() {
    let mut e = EventLoop::new(50);
    assert_eq!(e.tick_interval().as_millis(), 50);
    assert!(e.tick().is_ok());
    assert!(e.last_run().is_some());
}

#[test]
fn event_loop_starts_idle() {
    let mut e = EventLoop::new(1500);
    assert!(e.last_run().is_none());
    assert_eq!(e.tick(), Ok(true));
    assert_eq!(e.tick_interval().as_secs(), 1);
}

#[test]
fn parse_options_works() {
    let default = Options::default();
    assert!(!default.status);
    assert!(!default.debug);
    assert!(default.port.is_none());
}

#[test]
fn options_default_is_empty() {
    let o = Options::default();
    assert!(o.allow.is_none() && o.allow_once.is_none() && o.passwdfile.is_none() && !o.viewonly);
}

#[test]
fn xi2_create_ok() {
    let r = create_xi2_devices();
    assert!(r.is_ok());
}

#[test]
fn xi2_create_ok_no_x11() {
    assert!(create_xi2_devices().is_ok());
}

#[test]
fn uinput_key_records() {
    assert_eq!(
        key_event_records(30, true),
        vec![
            EventRecord { kind: EV_KEY, code: 30, value: 1 },
            EventRecord { kind: EV_SYN, code: SYN_REPORT, value: 0 },
        ]
    );
    assert_eq!(key_event_records(30, false)[0].value, 0);
}

#[test]
fn uinput_pointer_records() {
    assert_eq!(
        pointer_event_records(3, 0, 0b101),
        vec![
            EventRecord { kind: EV_REL, code: REL_X, value: 3 },
            EventRecord { kind: EV_KEY, code: BTN_LEFT, value: 1 },
            EventRecord { kind: EV_KEY, code: BTN_RIGHT, value: 0 },
            EventRecord { kind: EV_KEY, code: BTN_MIDDLE, value: 1 },
            EventRecord { kind: EV_SYN, code: SYN_REPORT, value: 0 },
        ]
    );
    let r = pointer_event_records(0, -2, 0);
    assert_eq!(r[0], EventRecord { kind: EV_REL, code: REL_Y, value: -2 });
    assert_eq!(r.len(), 5);
}

#[test]
fn uinput_capabilities_in_order() {
    let caps = device_capabilities();
    assert_eq!(caps.len(), 8);
    assert_eq!(caps[0], (Capability::Event, EV_KEY));
    assert_eq!(caps[3], (Capability::Relative, REL_X));
    assert_eq!(caps[7], (Capability::Key, BTN_MIDDLE));
}

#[test]
fn uinput_device_name_is_cut() {
    assert_eq!(device_name_bytes("webvnc-test"), b"webvnc-test".to_vec());
    let long = "x".repeat(100);
    assert_eq!(device_name_bytes(&long).len(), 80);
    assert_eq!(device_name_bytes("é").len(), 2);
}
