//! Input events, the keyboard/pointer event queue, and the integer parts of
//! the wireframe and scroll-copyrect parameter strings.

use vstd::prelude::*;
use crate::inject::InputInjector;
use crate::text::{
    chars_of, decimal_of, hex_of, lemma_decimal_of, lemma_digit_char, lemma_hex_of,
    lemma_parse_decimal_of, lemma_parse_hex_of, lemma_trim_unchanged, parse_i32_chars,
    parse_i32_spec, parse_u32_chars, parse_unsigned, split_chars, split_on, starts_with,
    string_of, sub_chars, trim, trim_chars, views,
};

verus! {

/// Small input event model used by the server.
#[derive(Debug, Clone, Copy, PartialEq, Eq, Structural)]
pub enum InputEvent {
    Key { keysym: u32, pressed: bool, modifiers: u32 },
    Pointer { x: i32, y: i32, button_mask: u8 },
}

/// Simple FIFO event queue for keyboard + pointer events.
#[derive(Debug, Default)]
pub struct EventQueue {
    keys: Vec<InputEvent>,
    ptrs: Vec<InputEvent>,
}

/// The queued key events and pointer events, each oldest first.
pub struct QueueView {
    pub keys: Seq<InputEvent>,
    pub ptrs: Seq<InputEvent>,
}

impl View for EventQueue {
    type V = QueueView;

    closed spec fn view(&self) -> QueueView {
        QueueView { keys: self.keys@, ptrs: self.ptrs@ }
    }
}

pub open spec fn min_nat(a: int, b: int) -> int {
    if a < b {
        a
    } else {
        b
    }
}

/// How many pointer events, then key events, a take of up to `max` events removes.
pub open spec fn take_counts(q: QueueView, max: int) -> (int, int) {
    let k1 = min_nat(max, q.ptrs.len() as int);
    let k2 = min_nat(max - k1, q.keys.len() as int);
    (k1, k2)
}

/// The queue after a take of up to `max` events, pointer events first.
pub open spec fn after_take(q: QueueView, max: int) -> QueueView {
    let (k1, k2) = take_counts(q, max);
    QueueView { keys: q.keys.skip(k2), ptrs: q.ptrs.skip(k1) }
}

/// The events a take of up to `max` events yields: pointer events, then keys.
pub open spec fn taken(q: QueueView, max: int) -> Seq<InputEvent> {
    let (k1, k2) = take_counts(q, max);
    q.ptrs.take(k1) + q.keys.take(k2)
}

pub open spec fn limit_value(limit: Option<usize>) -> int {
    match limit {
        Some(l) => l as int,
        None => usize::MAX as int,
    }
}

/// Remove the first `n` (at most `v.len()`) events from `v` and return them.
fn take_front(v: &mut Vec<InputEvent>, n: usize) -> (out: Vec<InputEvent>)
    requires
        n <= old(v)@.len(),
    ensures
        out@ == old(v)@.take(n as int),
        final(v)@ == old(v)@.skip(n as int),
{
    let mut out: Vec<InputEvent> = Vec::new();
    let mut i: usize = 0;
    while i < n
        invariant
            i <= n <= old(v)@.len(),
            out@ == old(v)@.take(i as int),
            v@ == old(v)@.skip(i as int),
        decreases n - i,
    {
        let e = v.remove(0);
        out.push(e);
        proof {
            assert(out@ =~= old(v)@.take(i + 1));
            assert(v@ =~= old(v)@.skip(i + 1));
        }
        i = i + 1;
    }
    out
}

impl EventQueue {
    pub fn new() -> (q: Self)
        ensures
            q@.keys.len() == 0,
            q@.ptrs.len() == 0,
    {
        EventQueue { keys: Vec::new(), ptrs: Vec::new() }
    }

    /// Queue an event behind the events of its own kind.
    pub fn push(&mut self, ev: InputEvent)
        ensures
            final(self)@.keys == if ev is Key {
                old(self)@.keys.push(ev)
            } else {
                old(self)@.keys
            },
            final(self)@.ptrs == if ev is Pointer {
                old(self)@.ptrs.push(ev)
            } else {
                old(self)@.ptrs
            },
    {
        match ev {
            InputEvent::Key { .. } => self.keys.push(ev),
            InputEvent::Pointer { .. } => self.ptrs.push(ev),
        }
    }

    pub fn len(&self) -> (n: usize)
        requires
            self@.keys.len() + self@.ptrs.len() <= usize::MAX,
        ensures
            n == self@.keys.len() + self@.ptrs.len(),
    {
        self.keys.len() + self.ptrs.len()
    }

    pub fn clear(&mut self)
        ensures
            final(self)@.keys.len() == 0,
            final(self)@.ptrs.len() == 0,
    {
        self.keys.clear();
        self.ptrs.clear();
    }

    /// Remove up to `max_eat` input events when a client is view-only,
    /// pointer events first; with `keep`, nothing is removed.
    /// Returns the number of events eaten.
    pub fn eat_viewonly_input(&mut self, max_eat: usize, keep: bool) -> (eaten: usize)
        ensures
            keep ==> eaten == 0 && final(self)@ == old(self)@,
            !keep ==> eaten == take_counts(old(self)@, max_eat as int).0 + take_counts(
                old(self)@,
                max_eat as int,
            ).1,
            !keep ==> final(self)@ == after_take(old(self)@, max_eat as int),
    {
        if keep {
            return 0;
        }
        let k1 = if max_eat < self.ptrs.len() {
            max_eat
        } else {
            self.ptrs.len()
        };
        let k2 = if max_eat - k1 < self.keys.len() {
            max_eat - k1
        } else {
            self.keys.len()
        };
        let _ = take_front(&mut self.ptrs, k1);
        let _ = take_front(&mut self.keys, k2);
        k1 + k2
    }

    /// Drain and return up to `limit` events (all, for `None`): pointer
    /// events first, then keys, each in the order they were queued.
    pub fn drain(&mut self, limit: Option<usize>) -> (out: Vec<InputEvent>)
        ensures
            out@ == taken(old(self)@, limit_value(limit)),
            final(self)@ == after_take(old(self)@, limit_value(limit)),
    {
        let max = match limit {
            Some(l) => l,
            None => usize::MAX,
        };
        let k1 = if max < self.ptrs.len() {
            max
        } else {
            self.ptrs.len()
        };
        let k2 = if max - k1 < self.keys.len() {
            max - k1
        } else {
            self.keys.len()
        };
        let mut out = take_front(&mut self.ptrs, k1);
        let mut rest = take_front(&mut self.keys, k2);
        out.append(&mut rest);
        out
    }
}

/// Process up to `limit` events by draining them and invoking the provided
/// callback for each event, in drain order. Returns the number of processed events.
pub fn check_user_input<F>(queue: &mut EventQueue, limit: Option<usize>, mut cb: F) -> (n: usize) where
    F: FnMut(InputEvent),

    requires
        forall|ev: InputEvent| call_requires(cb, (ev,)),
    ensures
        n == taken(old(queue)@, limit_value(limit)).len(),
        final(queue)@ == after_take(old(queue)@, limit_value(limit)),
        forall|j: int|
            0 <= j < n ==> call_ensures(cb, (#[trigger] taken(old(queue)@, limit_value(limit))[j],), ()),
{
    let ghost cb0 = cb;
    let evs = queue.drain(limit);
    let mut processed: usize = 0;
    let mut i: usize = 0;
    while i < evs.len()
        invariant
            i <= evs.len(),
            processed == i,
            cb == cb0,
            forall|ev: InputEvent| call_requires(cb, (ev,)),
            forall|j: int| 0 <= j < i ==> call_ensures(cb0, (#[trigger] evs@[j],), ()),
        decreases evs.len() - i,
    {
        cb(evs[i]);
        processed = processed + 1;
        i = i + 1;
    }
    processed
}

/// What an injector is asked to do for an input event.
#[derive(Debug, Clone, Copy, PartialEq, Eq, Structural)]
pub enum Injection {
    Key { keycode: u16, pressed: bool },
    Pointer { x: i32, y: i32, button_mask: u32 },
}

/// The injector call for `ev`: the keysym's low 16 bits as keycode, or the
/// pointer position with the button mask widened to 32 bits.
pub open spec fn injection_of(ev: InputEvent) -> Injection {
    match ev {
        InputEvent::Key { keysym, pressed, .. } => Injection::Key {
            keycode: keysym as u16,
            pressed,
        },
        InputEvent::Pointer { x, y, button_mask } => Injection::Pointer {
            x,
            y,
            button_mask: button_mask as u32,
        },
    }
}

pub fn injection_for(ev: &InputEvent) -> (inj: Injection)
    ensures
        inj == injection_of(*ev),
{
    match ev {
        InputEvent::Key { keysym, pressed, .. } => Injection::Key {
            keycode: *keysym as u16,
            pressed: *pressed,
        },
        InputEvent::Pointer { x, y, button_mask } => Injection::Pointer {
            x: *x,
            y: *y,
            button_mask: *button_mask as u32,
        },
    }
}

/// Deliver a single event to `display`, if there is one, as the call that
/// `injection_for` names; an injector's error comes back as its message.
/// With no display this does nothing and succeeds.
pub fn dispatch_event_to_display<D: InputInjector>(display: Option<&mut D>, ev: &InputEvent) -> (r:
    Result<(), String>)
    ensures
        display is None ==> r is Ok,
{
    match display {
        Some(d) => {
            let res = match injection_for(ev) {
                Injection::Key { keycode, pressed } => d.send_key(keycode, pressed),
                Injection::Pointer { x, y, button_mask } => d.send_pointer(x, y, button_mask),
            };
            injection_outcome(res)
        },
        None => Ok(()),
    }
}

/// What dispatching reports for an injector's answer: success, or the
/// error's message (its `Display` text).
pub fn injection_outcome(res: std::io::Result<()>) -> (r: Result<(), String>)
    ensures
        r is Ok <==> res is Ok,
        res matches Err(e) ==> (r matches Err(m) && vstd::string::to_string_from_display_ensures::<
            std::io::Error,
        >(&e, m)),
{
    match res {
        Ok(()) => Ok(()),
        Err(e) => Err(e.to_string()),
    }
}

/// The comma-separated fields of a parameter string; none when it is blank.
pub open spec fn param_fields_of(s: Seq<char>) -> Seq<Seq<char>> {
    if trim(s).len() == 0 {
        seq![]
    } else {
        split_on(s, seq![','])
    }
}

/// Split a wireframe or scroll-copyrect parameter string into its
/// comma-separated fields (none when the string is blank).
pub fn param_fields(s: &str) -> (out: Vec<String>)
    ensures
        out@.len() == param_fields_of(s@).len(),
        forall|i: int| 0 <= i < out@.len() ==> (#[trigger] out@[i])@ == param_fields_of(s@)[i],
{
    let v = chars_of(s);
    let t = trim_chars(&v);
    let mut out: Vec<String> = Vec::new();
    if t.len() == 0 {
        return out;
    }
    let seps: &[char] = &[','];
    assert(seps@ =~= seq![',']);
    let pieces = split_chars(&v, seps);
    let mut i: usize = 0;
    while i < pieces.len()
        invariant
            i <= pieces.len(),
            views(pieces@) == param_fields_of(s@),
            out@.len() == i,
            forall|j: int| 0 <= j < i ==> (#[trigger] out@[j])@ == param_fields_of(s@)[j],
        decreases pieces.len() - i,
    {
        out.push(string_of(&pieces[i]));
        assert(views(pieces@)[i as int] == pieces@[i as int]@);
        i = i + 1;
    }
    out
}

/// The trimmed `+`-separated tokens of `part`.
pub open spec fn plus_tokens_of(part: Seq<char>) -> Seq<Seq<char>> {
    split_on(part, seq!['+']).map_values(|t: Seq<char>| trim(t))
}

/// Split one field at every `+` and trim each token.
pub fn plus_tokens(part: &str) -> (out: Vec<String>)
    ensures
        out@.len() == plus_tokens_of(part@).len(),
        forall|i: int| 0 <= i < out@.len() ==> (#[trigger] out@[i])@ == plus_tokens_of(part@)[i],
{
    let v = chars_of(part);
    let seps: &[char] = &['+'];
    assert(seps@ =~= seq!['+']);
    let pieces = split_chars(&v, seps);
    let mut out: Vec<String> = Vec::new();
    let mut i: usize = 0;
    while i < pieces.len()
        invariant
            i <= pieces.len(),
            views(pieces@) == split_on(part@, seq!['+']),
            out@.len() == i,
            forall|j: int| 0 <= j < i ==> (#[trigger] out@[j])@ == plus_tokens_of(part@)[j],
        decreases pieces.len() - i,
    {
        let t = trim_chars(&pieces[i]);
        assert(views(pieces@)[i as int] == pieces@[i as int]@);
        out.push(string_of(&t));
        i = i + 1;
    }
    out
}

/// The values of the tokens that parse as `i32`, in order.
pub open spec fn int_tokens(toks: Seq<Seq<char>>) -> Seq<int>
    decreases toks.len(),
{
    if toks.len() == 0 {
        seq![]
    } else {
        int_tokens(toks.drop_last()) + match parse_i32_spec(toks.last()) {
            Some(v) => seq![v],
            None => seq![],
        }
    }
}

/// The `T+B+L+R` field: the first four tokens that are integers, if there are four.
pub open spec fn edge_insets_of(part: Seq<char>) -> Option<(int, int, int, int)> {
    let ints = int_tokens(plus_tokens_of(part));
    if ints.len() >= 4 {
        Some((ints[0], ints[1], ints[2], ints[3]))
    } else {
        None
    }
}

/// Read a `top+bottom+left+right` field: the first four `+`-separated
/// tokens that parse as integers, if there are four of them.
pub fn parse_edge_insets(part: &str) -> (r: Option<(i32, i32, i32, i32)>)
    ensures
        match r {
            Some((t, b, l, rr)) => edge_insets_of(part@) == Some(
                (t as int, b as int, l as int, rr as int),
            ),
            None => edge_insets_of(part@) is None,
        },
{
    let v = chars_of(part);
    let seps: &[char] = &['+'];
    assert(seps@ =~= seq!['+']);
    let pieces = split_chars(&v, seps);
    let ghost toks = plus_tokens_of(part@);
    let mut ints: Vec<i32> = Vec::new();
    let mut i: usize = 0;
    while i < pieces.len()
        invariant
            i <= pieces.len(),
            views(pieces@) == split_on(part@, seq!['+']),
            toks == plus_tokens_of(part@),
            toks.len() == pieces@.len(),
            ints@.map_values(|x: i32| x as int) == int_tokens(toks.take(i as int)),
        decreases pieces.len() - i,
    {
        let t = trim_chars(&pieces[i]);
        proof {
            assert(views(pieces@)[i as int] == pieces@[i as int]@);
            assert(toks.take(i + 1).drop_last() =~= toks.take(i as int));
            assert(toks.take(i + 1).last() == t@);
        }
        let ghost before = ints@;
        if let Some(x) = parse_i32_chars(&t) {
            ints.push(x);
            assert(ints@.map_values(|x: i32| x as int) =~= before.map_values(|x: i32| x as int).push(
                x as int,
            ));
        } else {
            assert(int_tokens(toks.take(i + 1)) =~= int_tokens(toks.take(i as int)));
        }
        i = i + 1;
    }
    assert(toks.take(pieces.len() as int) =~= toks);
    if ints.len() >= 4 {
        proof {
            assert(ints@.map_values(|x: i32| x as int)[0] == ints@[0] as int);
            assert(ints@.map_values(|x: i32| x as int)[1] == ints@[1] as int);
            assert(ints@.map_values(|x: i32| x as int)[2] == ints@[2] as int);
            assert(ints@.map_values(|x: i32| x as int)[3] == ints@[3] as int);
        }
        Some((ints[0], ints[1], ints[2], ints[3]))
    } else {
        None
    }
}

/// The wireframe shade field: `0x` hexadecimal or decimal `u32`, trimmed.
pub open spec fn shade_of(part: Seq<char>) -> Option<nat> {
    let t = trim(part);
    if seq!['0', 'x'].is_prefix_of(t) {
        parse_unsigned(t.skip(2), true, u32::MAX as nat)
    } else {
        parse_unsigned(t, false, u32::MAX as nat)
    }
}

/// Every `u32` shade reads back from its `0x` hexadecimal text and from its
/// decimal text: a `0xRRGGBB` colour keeps all of its bits.
pub proof fn law_shade_reads_back(n: u32)
    ensures
        shade_of(seq!['0', 'x'] + hex_of(n as nat)) == Some(n as nat),
        shade_of(decimal_of(n as nat)) == Some(n as nat),
{
    let h = hex_of(n as nat);
    lemma_hex_of(n as nat);
    let t = seq!['0', 'x'] + h;
    lemma_digit_char(h[h.len() - 1], true);
    assert(t[t.len() - 1] == h[h.len() - 1]);
    lemma_trim_unchanged(t);
    assert(t.subrange(0, 2) =~= seq!['0', 'x']);
    assert(t.skip(2) =~= h);
    lemma_parse_hex_of(n as nat, u32::MAX as nat);

    let d = decimal_of(n as nat);
    lemma_decimal_of(n as nat);
    lemma_digit_char(d[0], false);
    lemma_digit_char(d[d.len() - 1], false);
    lemma_trim_unchanged(d);
    if d.len() >= 2 {
        lemma_digit_char(d[1], false);
        assert(!seq!['0', 'x'].is_prefix_of(d)) by {
            if seq!['0', 'x'].is_prefix_of(d) {
                assert(d.subrange(0, 2)[1] == d[1]);
            }
        }
    }
    lemma_parse_decimal_of(n as nat, u32::MAX as nat);
}

pub fn parse_wireframe_shade(part: &str) -> (r: Option<u32>)
    ensures
        match r {
            Some(n) => shade_of(part@) == Some(n as nat),
            None => shade_of(part@) is None,
        },
{
    let v = chars_of(part);
    let t = trim_chars(&v);
    let hx: &[char] = &['0', 'x'];
    assert(hx@ =~= seq!['0', 'x']);
    if starts_with(&t, hx) {
        let rest = sub_chars(&t, 2, t.len());
        assert(rest@ =~= t@.skip(2));
        parse_u32_chars(&rest, true)
    } else {
        parse_u32_chars(&t, false)
    }
}

pub open spec fn clamp_linewidth(n: int) -> int {
    if n < 1 {
        1
    } else if n > 8 {
        8
    } else {
        n
    }
}

/// The wireframe line width field: an integer, clamped to `1..=8`.
pub fn parse_wireframe_linewidth(part: &str) -> (r: Option<i32>)
    ensures
        match r {
            Some(n) => parse_i32_spec(trim(part@)) matches Some(v) && n == clamp_linewidth(v),
            None => parse_i32_spec(trim(part@)) is None,
        },
{
    let v = chars_of(part);
    let t = trim_chars(&v);
    match parse_i32_chars(&t) {
        Some(n) => {
            let n = if n < 1 {
                1
            } else if n > 8 {
                8
            } else {
                n
            };
            Some(n)
        },
        None => None,
    }
}

/// The wireframe fraction field, read as far as integers go.
#[derive(Debug, Clone, PartialEq, Eq)]
pub enum FracField {
    /// Text with a `.`, to be read as a decimal fraction.
    Decimal(String),
    /// An integer percentage.
    Percent(i32),
    /// Blank, or neither of the above.
    Absent,
}

/// Classify the trimmed wireframe fraction field: blank, a decimal (it holds
/// a `.`), or an integer percentage.
pub fn classify_wireframe_frac(part: &str) -> (r: FracField)
    ensures
        ({
            let t = trim(part@);
            match r {
                FracField::Decimal(d) => t.len() > 0 && t.contains('.') && d@ == t,
                FracField::Percent(p) => t.len() > 0 && !t.contains('.') && parse_i32_spec(t)
                    == Some(p as int),
                FracField::Absent => t.len() == 0 || (!t.contains('.') && parse_i32_spec(t) is None),
            }
        }),
{
    let v = chars_of(part);
    let t = trim_chars(&v);
    if t.len() == 0 {
        return FracField::Absent;
    }
    if crate::text::find_char(&t, '.').is_some() {
        return FracField::Decimal(string_of(&t));
    }
    match parse_i32_chars(&t) {
        Some(p) => FracField::Percent(p),
        None => FracField::Absent,
    }
}

/// `r` is the classification of the fraction field `part`.
pub open spec fn frac_fits(r: FracField, part: Seq<char>) -> bool {
    let t = trim(part);
    match r {
        FracField::Decimal(d) => t.len() > 0 && t.contains('.') && d@ == t,
        FracField::Percent(p) => t.len() > 0 && !t.contains('.') && parse_i32_spec(t) == Some(
            p as int,
        ),
        FracField::Absent => t.len() == 0 || (!t.contains('.') && parse_i32_spec(t) is None),
    }
}

pub open spec fn strings_view(v: Seq<String>) -> Seq<Seq<char>> {
    v.map_values(|x: String| x@)
}

/// The edge field `f[i]` read as `top+bottom+left+right`, or zeros when it is
/// missing or has fewer than four integers.
pub open spec fn edges_or_zero(f: Seq<Seq<char>>, i: int) -> (int, int, int, int) {
    if i < f.len() && edge_insets_of(f[i]) is Some {
        edge_insets_of(f[i])->0
    } else {
        (0, 0, 0, 0)
    }
}

/// The wireframe parameters as far as integers go; the fraction is left
/// classified for a floating-point reader.
#[derive(Debug, Clone, PartialEq, Eq)]
pub struct WireframeFields {
    pub shade: u32,
    pub linewidth: i32,
    pub frac: FracField,
    pub top: i32,
    pub bottom: i32,
    pub left: i32,
    pub right: i32,
}

fn read_edges(fields: &Vec<String>, i: usize) -> (r: (i32, i32, i32, i32))
    ensures
        (r.0 as int, r.1 as int, r.2 as int, r.3 as int) == edges_or_zero(strings_view(fields@), i as int),
{
    if i < fields.len() {
        assert(strings_view(fields@)[i as int] == fields@[i as int]@);
        match parse_edge_insets(fields[i].as_str()) {
            Some(e) => e,
            None => (0, 0, 0, 0),
        }
    } else {
        (0, 0, 0, 0)
    }
}

/// Read the wireframe string `<shade>,<linewidth>,<frac>,<top+bottom+left+right>`:
/// every field that is missing or does not parse keeps its default (shade
/// 0xff, line width 2, no fraction, zero edges).
pub fn wireframe_fields(s: &str) -> (w: WireframeFields)
    ensures
        ({
            let f = param_fields_of(s@);
            &&& w.shade as nat == if f.len() > 0 && shade_of(f[0]) is Some {
                shade_of(f[0])->0
            } else {
                0xff
            }
            &&& w.linewidth as int == if f.len() > 1 && parse_i32_spec(trim(f[1])) is Some {
                clamp_linewidth(parse_i32_spec(trim(f[1]))->0)
            } else {
                2
            }
            &&& if f.len() > 2 {
                frac_fits(w.frac, f[2])
            } else {
                w.frac is Absent
            }
            &&& (w.top as int, w.bottom as int, w.left as int, w.right as int) == edges_or_zero(f, 3)
        }),
{
    let fields = param_fields(s);
    let ghost f = param_fields_of(s@);
    assert(strings_view(fields@) =~= f);
    let mut shade: u32 = 0xff;
    if fields.len() > 0 {
        assert(f[0] == fields@[0]@);
        if let Some(n) = parse_wireframe_shade(fields[0].as_str()) {
            shade = n;
        }
    }
    let mut linewidth: i32 = 2;
    if fields.len() > 1 {
        assert(f[1] == fields@[1]@);
        if let Some(n) = parse_wireframe_linewidth(fields[1].as_str()) {
            linewidth = n;
        }
    }
    let frac = if fields.len() > 2 {
        assert(f[2] == fields@[2]@);
        classify_wireframe_frac(fields[2].as_str())
    } else {
        FracField::Absent
    };
    let (top, bottom, left, right) = read_edges(&fields, 3);
    WireframeFields { shade, linewidth, frac, top, bottom, left, right }
}

/// The scroll-copyrect parameters as far as integers go: the edges, and the
/// trimmed `+`-separated tokens of the key and mouse timing fields for a
/// floating-point reader.
#[derive(Debug, Clone, PartialEq, Eq)]
pub struct ScrollCopyRectFields {
    pub top: i32,
    pub bottom: i32,
    pub left: i32,
    pub right: i32,
    pub key_timings: Vec<String>,
    pub mouse_timings: Vec<String>,
}

fn timing_tokens(fields: &Vec<String>, i: usize) -> (r: Vec<String>)
    ensures
        strings_view(r@) == if i < fields@.len() {
            plus_tokens_of(fields@[i as int]@)
        } else {
            Seq::<Seq<char>>::empty()
        },
{
    if i < fields.len() {
        let r = plus_tokens(fields[i].as_str());
        assert(strings_view(r@) =~= plus_tokens_of(fields@[i as int]@));
        r
    } else {
        let r: Vec<String> = Vec::new();
        assert(strings_view(r@) =~= Seq::<Seq<char>>::empty());
        r
    }
}

/// Read the scroll-copyrect string `T+B+L+R,<key timings>,<mouse timings>`:
/// the edges (zeros when missing or short of four integers) and the timing
/// tokens (none when the field is missing).
pub fn scroll_copyrect_fields(s: &str) -> (r: ScrollCopyRectFields)
    ensures
        ({
            let f = param_fields_of(s@);
            &&& (r.top as int, r.bottom as int, r.left as int, r.right as int) == edges_or_zero(f, 0)
            &&& strings_view(r.key_timings@) == if f.len() > 1 {
                plus_tokens_of(f[1])
            } else {
                Seq::<Seq<char>>::empty()
            }
            &&& strings_view(r.mouse_timings@) == if f.len() > 2 {
                plus_tokens_of(f[2])
            } else {
                Seq::<Seq<char>>::empty()
            }
        }),
{
    let fields = param_fields(s);
    assert(strings_view(fields@) =~= param_fields_of(s@));
    let (top, bottom, left, right) = read_edges(&fields, 0);
    let key_timings = timing_tokens(&fields, 1);
    let mouse_timings = timing_tokens(&fields, 2);
    proof {
        if fields@.len() > 1 {
            assert(strings_view(fields@)[1] == fields@[1]@);
        }
        if fields@.len() > 2 {
            assert(strings_view(fields@)[2] == fields@[2]@);
        }
    }
    ScrollCopyRectFields { top, bottom, left, right, key_timings, mouse_timings }
}

/// Draining with no limit yields every pointer event, then every key event,
/// each in the order queued, and leaves the queue empty.
pub proof fn law_drain_all(q: QueueView)
    requires
        q.ptrs.len() + q.keys.len() <= usize::MAX,
    ensures
        taken(q, usize::MAX as int) == q.ptrs + q.keys,
        after_take(q, usize::MAX as int).ptrs.len() == 0,
        after_take(q, usize::MAX as int).keys.len() == 0,
{
    assert(q.ptrs.take(q.ptrs.len() as int) =~= q.ptrs);
    assert(q.keys.take(q.keys.len() as int) =~= q.keys);
}

/// A take of up to `max` events removes `min(max, queued)` of them, and of
/// each kind the events taken followed by those left are the events queued.
pub proof fn law_take_accounts_for_all(q: QueueView, max: int)
    requires
        0 <= max,
    ensures
        take_counts(q, max).0 + take_counts(q, max).1 == min_nat(max, (q.ptrs.len() + q.keys.len()) as int),
        after_take(q, max).ptrs.len() + after_take(q, max).keys.len() + take_counts(q, max).0
            + take_counts(q, max).1 == q.ptrs.len() + q.keys.len(),
        q.ptrs.take(take_counts(q, max).0) + after_take(q, max).ptrs == q.ptrs,
        q.keys.take(take_counts(q, max).1) + after_take(q, max).keys == q.keys,
{
    assert(q.ptrs.take(take_counts(q, max).0) + after_take(q, max).ptrs =~= q.ptrs);
    assert(q.keys.take(take_counts(q, max).1) + after_take(q, max).keys =~= q.keys);
}

} // verus!
