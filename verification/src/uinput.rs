//! The event records a Linux uinput device is sent for a key or pointer
//! update (the device itself is opened and written outside the library).

use vstd::prelude::*;
use vstd::string::*;

verus! {

pub const EV_SYN: u16 = 0x00;
pub const EV_KEY: u16 = 0x01;
pub const EV_REL: u16 = 0x02;
pub const SYN_REPORT: u16 = 0;
pub const REL_X: u16 = 0x00;
pub const REL_Y: u16 = 0x01;
pub const BTN_LEFT: u16 = 0x110;
pub const BTN_RIGHT: u16 = 0x111;
pub const BTN_MIDDLE: u16 = 0x112;

/// One input event record: its type, code and value.
#[derive(Debug, Clone, Copy, PartialEq, Eq, Structural)]
pub struct EventRecord {
    pub kind: u16,
    pub code: u16,
    pub value: i32,
}

pub open spec fn record(kind: u16, code: u16, value: i32) -> EventRecord {
    EventRecord { kind, code, value }
}

pub open spec fn syn_record() -> EventRecord {
    record(EV_SYN, SYN_REPORT, 0)
}

/// A key press (1) or release (0), then a synchronization report.
pub fn key_event_records(keycode: u16, pressed: bool) -> (out: Vec<EventRecord>)
    ensures
        out@ == seq![
            record(EV_KEY, keycode, if pressed { 1i32 } else { 0i32 }),
            syn_record(),
        ],
{
    let mut out: Vec<EventRecord> = Vec::new();
    out.push(EventRecord { kind: EV_KEY, code: keycode, value: if pressed { 1 } else { 0 } });
    out.push(EventRecord { kind: EV_SYN, code: SYN_REPORT, value: 0 });
    assert(out@ =~= seq![
        record(EV_KEY, keycode, if pressed { 1i32 } else { 0i32 }),
        syn_record(),
    ]);
    out
}

/// The state (1 pressed, 0 released) of mask bit `i`.
pub open spec fn bit_state(mask: u32, i: u32) -> i32 {
    if mask & (1u32 << i) != 0 {
        1
    } else {
        0
    }
}

/// Relative motion on each axis that moved, the state of the left, right and
/// middle buttons (mask bits 0, 1, 2), then a synchronization report.
pub open spec fn pointer_records(dx: i32, dy: i32, button_mask: u32) -> Seq<EventRecord> {
    (if dx != 0 {
        seq![record(EV_REL, REL_X, dx)]
    } else {
        seq![]
    }) + (if dy != 0 {
        seq![record(EV_REL, REL_Y, dy)]
    } else {
        seq![]
    }) + seq![
        record(EV_KEY, BTN_LEFT, bit_state(button_mask, 0)),
        record(EV_KEY, BTN_RIGHT, bit_state(button_mask, 1)),
        record(EV_KEY, BTN_MIDDLE, bit_state(button_mask, 2)),
        syn_record(),
    ]
}

pub fn pointer_event_records(dx: i32, dy: i32, button_mask: u32) -> (out: Vec<EventRecord>)
    ensures
        out@ == pointer_records(dx, dy, button_mask),
{
    let mut out: Vec<EventRecord> = Vec::new();
    if dx != 0 {
        out.push(EventRecord { kind: EV_REL, code: REL_X, value: dx });
    }
    if dy != 0 {
        out.push(EventRecord { kind: EV_REL, code: REL_Y, value: dy });
    }
    let buttons: [u16; 3] = [BTN_LEFT, BTN_RIGHT, BTN_MIDDLE];
    let ghost start = out@;
    let mut i: u32 = 0;
    while i < 3
        invariant
            i <= 3,
            buttons@ == seq![BTN_LEFT, BTN_RIGHT, BTN_MIDDLE],
            out@ == start + Seq::new(
                i as nat,
                |k: int| record(EV_KEY, buttons@[k], bit_state(button_mask, k as u32)),
            ),
        decreases 3 - i,
    {
        let pressed = (button_mask & (1u32 << i)) != 0;
        out.push(EventRecord { kind: EV_KEY, code: buttons[i as usize], value: if pressed { 1 } else { 0 } });
        assert(out@ =~= start + Seq::new(
            (i + 1) as nat,
            |k: int| record(EV_KEY, buttons@[k], bit_state(button_mask, k as u32)),
        ));
        i = i + 1;
    }
    out.push(EventRecord { kind: EV_SYN, code: SYN_REPORT, value: 0 });
    assert(out@ =~= pointer_records(dx, dy, button_mask));
    out
}

/// The records of a pointer event: an X motion record exactly when `dx` is
/// not 0 and a Y motion record exactly when `dy` is not 0, each carrying its
/// own axis's delta and independent of the other axis, X before Y; then the
/// left, right and middle buttons as mask bits 0, 1 and 2; then a report.
pub proof fn law_pointer_records_axes(dx: i32, dy: i32, mask: u32)
    ensures
        pointer_records(dx, dy, mask).contains(record(EV_REL, REL_X, dx)) <==> dx != 0,
        pointer_records(dx, dy, mask).contains(record(EV_REL, REL_Y, dy)) <==> dy != 0,
        pointer_records(dx, dy, mask).len() == (if dx != 0 { 1int } else { 0 }) + (if dy != 0 {
            1int
        } else {
            0
        }) + 4,
        dx != 0 ==> pointer_records(dx, dy, mask)[0] == record(EV_REL, REL_X, dx),
        dy != 0 ==> pointer_records(dx, dy, mask)[if dx != 0 { 1int } else { 0 }] == record(
            EV_REL,
            REL_Y,
            dy,
        ),
        ({
            let r = pointer_records(dx, dy, mask);
            let n = r.len();
            &&& r[n - 4] == record(EV_KEY, BTN_LEFT, if mask & 1 != 0 { 1i32 } else { 0i32 })
            &&& r[n - 3] == record(EV_KEY, BTN_RIGHT, if mask & 2 != 0 { 1i32 } else { 0i32 })
            &&& r[n - 2] == record(EV_KEY, BTN_MIDDLE, if mask & 4 != 0 { 1i32 } else { 0i32 })
            &&& r[n - 1] == record(EV_SYN, SYN_REPORT, 0)
        }),
{
    let r = pointer_records(dx, dy, mask);
    let k: int = (if dx != 0 { 1int } else { 0 }) + (if dy != 0 { 1int } else { 0 });
    assert(1u32 << 0u32 == 1u32 && 1u32 << 1u32 == 2u32 && 1u32 << 2u32 == 4u32) by (bit_vector);
    if dx != 0 {
        assert(r[0] == record(EV_REL, REL_X, dx));
    } else {
        assert forall|i: int| 0 <= i < r.len() implies r[i] != record(EV_REL, REL_X, dx) by {
            if dy != 0 && i == 0 {
                assert(r[0] == record(EV_REL, REL_Y, dy));
            }
        }
    }
    if dy != 0 {
        assert(r[k - 1] == record(EV_REL, REL_Y, dy));
    } else {
        assert forall|i: int| 0 <= i < r.len() implies r[i] != record(EV_REL, REL_Y, dy) by {
            if dx != 0 && i == 0 {
                assert(r[0] == record(EV_REL, REL_X, dx));
            }
        }
    }
}

/// Which capability set of the device a setup request enables a code in.
#[derive(Debug, Clone, Copy, PartialEq, Eq, Structural)]
pub enum Capability {
    /// An event type.
    Event,
    /// A relative axis.
    Relative,
    /// A key or button.
    Key,
}

/// The capabilities a pointer-and-keyboard device enables, in order: key,
/// relative and synchronization events; the X and Y axes; the left, right
/// and middle buttons.
pub open spec fn device_capability_list() -> Seq<(Capability, u16)> {
    seq![
        (Capability::Event, EV_KEY),
        (Capability::Event, EV_REL),
        (Capability::Event, EV_SYN),
        (Capability::Relative, REL_X),
        (Capability::Relative, REL_Y),
        (Capability::Key, BTN_LEFT),
        (Capability::Key, BTN_RIGHT),
        (Capability::Key, BTN_MIDDLE),
    ]
}

pub fn device_capabilities() -> (out: Vec<(Capability, u16)>)
    ensures
        out@ == device_capability_list(),
{
    let mut out: Vec<(Capability, u16)> = Vec::new();
    out.push((Capability::Event, EV_KEY));
    out.push((Capability::Event, EV_REL));
    out.push((Capability::Event, EV_SYN));
    out.push((Capability::Relative, REL_X));
    out.push((Capability::Relative, REL_Y));
    out.push((Capability::Key, BTN_LEFT));
    out.push((Capability::Key, BTN_RIGHT));
    out.push((Capability::Key, BTN_MIDDLE));
    assert(out@ =~= device_capability_list());
    out
}

/// Length of the device name field.
pub const DEVICE_NAME_LEN: usize = 80;

/// The bytes of the device name field: the name's UTF-8 bytes, cut to the
/// field's length.
pub fn device_name_bytes(name: &str) -> (out: Vec<u8>)
    ensures
        out@ == name.spec_bytes().take(
            if name.spec_bytes().len() < DEVICE_NAME_LEN {
                name.spec_bytes().len() as int
            } else {
                DEVICE_NAME_LEN as int
            },
        ),
{
    let bytes = name.as_bytes();
    let len = if bytes.len() < DEVICE_NAME_LEN {
        bytes.len()
    } else {
        DEVICE_NAME_LEN
    };
    let mut out: Vec<u8> = Vec::new();
    let mut i: usize = 0;
    while i < len
        invariant
            len <= bytes@.len(),
            bytes@ == name.spec_bytes(),
            i <= len,
            out@ == bytes@.take(i as int),
        decreases len - i,
    {
        out.push(bytes[i]);
        assert(bytes@.take(i + 1) =~= bytes@.take(i as int).push(bytes@[i as int]));
        i = i + 1;
    }
    out
}

} // verus!
