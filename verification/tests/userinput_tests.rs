use src_utils::inject::InputInjector;
use src_utils::userinput::{
    check_user_input, classify_wireframe_frac, injection_outcome, dispatch_event_to_display, injection_for,
    param_fields, parse_edge_insets, parse_wireframe_linewidth, parse_wireframe_shade,
    plus_tokens, scroll_copyrect_fields, wireframe_fields, EventQueue, FracField, InputEvent,
    Injection,
};
use std::io;

struct Recorder {
    calls: Vec<String>,
    fail: bool,
}

impl InputInjector for Recorder {
    fn send_key(&mut self, keycode: u16, pressed: bool) -> io::Result<()> {
        self.calls.push(format!("key {} {}", keycode, pressed));
        if self.fail {
            Err(io::Error::new(io::ErrorKind::Other, "boom"))
        } else {
            Ok(())
        }
    }

    fn send_pointer(&mut self, dx: i32, dy: i32, button_mask: u32) -> io::Result<()> {
        self.calls.push(format!("ptr {} {} {}", dx, dy, button_mask));
        Ok(())
    }
}

#[test]
fn event_queue_eat_viewonly() {
    let mut q = EventQueue::new();
    q.push(InputEvent::Pointer { x: 10, y: 20, button_mask: 1 });
    q.push(InputEvent::Key { keysym: 10, pressed: true, modifiers: 0 });
    q.push(InputEvent::Pointer { x: 11, y: 21, button_mask: 0 });

    assert_eq!(q.len(), 3);
    let eaten = q.eat_viewonly_input(2, false);
    assert_eq!(eaten, 2);
    assert_eq!(q.len(), 1);
}

#[test]
fn event_queue_drain_and_clear() {
    let mut q = EventQueue::new();
    q.push(InputEvent::Pointer { x: 1, y: 2, button_mask: 0 });
    q.push(InputEvent::Key { keysym: 2, pressed: false, modifiers: 0 });
    let drained = q.drain(None);
    assert_eq!(drained.len(), 2);
    assert_eq!(q.len(), 0);
    q.push(InputEvent::Key { keysym: 4, pressed: true, modifiers: 1 });
    q.clear();
    assert_eq!(q.len(), 0);
}

#[test]
fn check_user_input_callback_runs() {
    let mut q = EventQueue::new();
    q.push(InputEvent::Pointer { x: 3, y: 4, button_mask: 1 });
    q.push(InputEvent::Key { keysym: 7, pressed: true, modifiers: 0 });

    let mut seen = Vec::new();
    let processed = check_user_input(&mut q, Some(10), |ev| {
        seen.push(ev);
    });
    assert_eq!(processed, 2);
    assert_eq!(seen.len(), 2);
    assert_eq!(q.len(), 0);
}

#[test]
fn dispatch_event_to_display_noop() {
    let mut q = EventQueue::new();
    q.push(InputEvent::Key { keysym: 10, pressed: true, modifiers: 0 });
    // dispatch without a display should be Ok
    let evs = q.drain(None);
    for ev in evs.iter() {
        assert!(dispatch_event_to_display::<Recorder>(None, ev).is_ok());
    }
}

#[test]
fn drain_orders_pointers_first() {
    let mut q = EventQueue::new();
    let k1 = InputEvent::Key { keysym: 1, pressed: true, modifiers: 0 };
    let p1 = InputEvent::Pointer { x: 1, y: 1, button_mask: 0 };
    let k2 = InputEvent::Key { keysym: 2, pressed: true, modifiers: 0 };
    let p2 = InputEvent::Pointer { x: 2, y: 2, button_mask: 0 };
    q.push(k1);
    q.push(p1);
    q.push(k2);
    q.push(p2);
    assert_eq!(q.drain(Some(3)), vec![p1, p2, k1]);
    assert_eq!(q.len(), 1);
    assert_eq!(q.drain(None), vec![k2]);
    assert_eq!(q.drain(Some(5)), vec![]);
}

#[test]
fn drain_zero_takes_nothing() {
    let mut q = EventQueue::new();
    q.push(InputEvent::Key { keysym: 1, pressed: true, modifiers: 0 });
    assert!(q.drain(Some(0)).is_empty());
    assert_eq!(q.len(), 1);
}

#[test]
fn eat_viewonly_keep_and_keys() {
    let mut q = EventQueue::new();
    q.push(InputEvent::Key { keysym: 1, pressed: true, modifiers: 0 });
    q.push(InputEvent::Key { keysym: 2, pressed: true, modifiers: 0 });
    q.push(InputEvent::Pointer { x: 0, y: 0, button_mask: 0 });
    assert_eq!(q.eat_viewonly_input(10, true), 0);
    assert_eq!(q.len(), 3);
    assert_eq!(q.eat_viewonly_input(2, false), 2);
    assert_eq!(q.drain(None), vec![InputEvent::Key { keysym: 2, pressed: true, modifiers: 0 }]);
    assert_eq!(q.eat_viewonly_input(5, false), 0);
}

#[test]
fn check_user_input_respects_limit() {
    let mut q = EventQueue::new();
    for k in 0..4u32 {
        q.push(InputEvent::Key { keysym: k, pressed: true, modifiers: 0 });
    }
    let mut seen = Vec::new();
    let n = check_user_input(&mut q, Some(3), |ev| seen.push(ev));
    assert_eq!(n, 3);
    assert_eq!(seen[2], InputEvent::Key { keysym: 2, pressed: true, modifiers: 0 });
    assert_eq!(q.len(), 1);
}

#[test]
fn injection_truncates_keysym_and_widens_mask() {
    assert_eq!(
        injection_for(&InputEvent::Key { keysym: 0x1_0041, pressed: true, modifiers: 3 }),
        Injection::Key { keycode: 0x41, pressed: true }
    );
    assert_eq!(
        injection_for(&InputEvent::Pointer { x: -1, y: 2, button_mask: 0x85 }),
        Injection::Pointer { x: -1, y: 2, button_mask: 0x85 }
    );
}

#[test]
fn dispatch_calls_injector() {
    let mut r = Recorder { calls: Vec::new(), fail: false };
    assert!(dispatch_event_to_display(Some(&mut r), &InputEvent::Key { keysym: 0x10030, pressed: false, modifiers: 0 }).is_ok());
    assert!(dispatch_event_to_display(Some(&mut r), &InputEvent::Pointer { x: 4, y: 5, button_mask: 6 }).is_ok());
    assert_eq!(r.calls, vec!["key 48 false".to_string(), "ptr 4 5 6".to_string()]);
    let mut f = Recorder { calls: Vec::new(), fail: true };
    assert_eq!(
        dispatch_event_to_display(Some(&mut f), &InputEvent::Key { keysym: 1, pressed: true, modifiers: 0 }),
        Err("boom".to_string())
    );
}

#[test]
fn param_fields_split() {
    assert!(param_fields("   ").is_empty());
    assert_eq!(param_fields("a,b ,"), vec!["a", "b ", ""]);
}

#[test]
fn plus_tokens_trim() {
    assert_eq!(plus_tokens(" 1 + 2+"), vec!["1", "2", ""]);
}

#[test]
fn edge_insets_take_first_four_integers() {
    assert_eq!(parse_edge_insets("10+20+3+4"), Some((10, 20, 3, 4)));
    assert_eq!(parse_edge_insets("x+1+ 2 +y+3+4+5"), Some((1, 2, 3, 4)));
    assert_eq!(parse_edge_insets("1+2+3"), None);
    assert_eq!(parse_edge_insets("-1+-2+3+4"), Some((-1, -2, 3, 4)));
}

#[test]
fn wireframe_shade_forms() {
    assert_eq!(parse_wireframe_shade("0xff"), Some(0xff));
    assert_eq!(parse_wireframe_shade(" 127 "), Some(127));
    assert_eq!(parse_wireframe_shade("0xzz"), None);
    assert_eq!(parse_wireframe_shade("0XFF"), None);
}

#[test]
fn wireframe_linewidth_clamped() {
    assert_eq!(parse_wireframe_linewidth("4"), Some(4));
    assert_eq!(parse_wireframe_linewidth("0"), Some(1));
    assert_eq!(parse_wireframe_linewidth("99"), Some(8));
    assert_eq!(parse_wireframe_linewidth("x"), None);
}

#[test]
fn wireframe_frac_kinds() {
    assert_eq!(classify_wireframe_frac(" 32 "), FracField::Percent(32));
    assert_eq!(classify_wireframe_frac("0.25"), FracField::Decimal("0.25".to_string()));
    assert_eq!(classify_wireframe_frac(""), FracField::Absent);
    assert_eq!(classify_wireframe_frac("abc"), FracField::Absent);
}

#[test]
fn injection_outcome_maps_errors() {
    assert_eq!(injection_outcome(Ok(())), Ok(()));
    assert_eq!(
        injection_outcome(Err(io::Error::new(io::ErrorKind::Other, "bad device"))),
        Err("bad device".to_string())
    );
}

#[test]
fn wireframe_fields_all_given() {
    let w = wireframe_fields("0x80,4,32,10+20+30+40");
    assert_eq!(w.shade, 0x80);
    assert_eq!(w.linewidth, 4);
    assert_eq!(w.frac, FracField::Percent(32));
    assert_eq!((w.top, w.bottom, w.left, w.right), (10, 20, 30, 40));
}

#[test]
fn wireframe_fields_defaults() {
    let w = wireframe_fields("   ");
    assert_eq!(w.shade, 0xff);
    assert_eq!(w.linewidth, 2);
    assert_eq!(w.frac, FracField::Absent);
    assert_eq!((w.top, w.bottom, w.left, w.right), (0, 0, 0, 0));
}

#[test]
fn wireframe_fields_partial_and_bad() {
    let w = wireframe_fields("bad,99,0.5,1+2+3");
    assert_eq!(w.shade, 0xff);
    assert_eq!(w.linewidth, 8);
    assert_eq!(w.frac, FracField::Decimal("0.5".to_string()));
    assert_eq!((w.top, w.bottom, w.left, w.right), (0, 0, 0, 0));
    let w = wireframe_fields("127");
    assert_eq!(w.shade, 127);
    assert_eq!(w.linewidth, 2);
    assert_eq!(w.frac, FracField::Absent);
}

#[test]
fn scroll_copyrect_fields_all_given() {
    let r = scroll_copyrect_fields("1+2+3+4,0.1+0.2+0.3,1+2+3+4+5");
    assert_eq!((r.top, r.bottom, r.left, r.right), (1, 2, 3, 4));
    assert_eq!(r.key_timings, vec!["0.1", "0.2", "0.3"]);
    assert_eq!(r.mouse_timings, vec!["1", "2", "3", "4", "5"]);
}

#[test]
fn scroll_copyrect_fields_missing() {
    let r = scroll_copyrect_fields("");
    assert_eq!((r.top, r.bottom, r.left, r.right), (0, 0, 0, 0));
    assert!(r.key_timings.is_empty());
    assert!(r.mouse_timings.is_empty());
    let r = scroll_copyrect_fields("5+6");
    assert_eq!((r.top, r.bottom, r.left, r.right), (0, 0, 0, 0));
    assert!(r.key_timings.is_empty());
}
