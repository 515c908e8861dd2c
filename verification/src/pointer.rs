//! Pointer button remapping: the `-buttonmap` subset (`N`, `N:sym+sym:`,
//! `:sym+sym:`) and the input events that a button event becomes through
//! its remap actions.

use vstd::prelude::*;
use crate::text::{
    chars_of, find_char, first_index, hex_of, lemma_digit_char, lemma_first_index, lemma_hex_of,
    lemma_parse_hex_of, lemma_split_join_on, lemma_split_without_sep, lemma_trim_unchanged, parse_u32_chars,
    parse_u8_chars, parse_unsigned, parse_usize_chars, split_chars, split_on, starts_with,
    string_of, sub_chars, trim, trim_chars, views,
};
use crate::userinput::InputEvent;

verus! {

pub const MAX_BUTTONS: usize = 64;

/// An action that a pointer button event can be remapped to.
#[derive(Debug, Clone, PartialEq, Eq)]
pub enum RemapAction {
    /// Target is another button (1-based)
    Button(u8),
    /// Keysym indicated as a numeric value (e.g. 0xFF0A)
    KeysymNum(u32),
    /// Keysym indicated as a textual name (e.g. "Up")
    KeysymName(String),
}

/// A remap action, with the keysym name as its characters.
pub enum ActionView {
    Button(u8),
    KeysymNum(u32),
    KeysymName(Seq<char>),
}

impl View for RemapAction {
    type V = ActionView;

    open spec fn view(&self) -> ActionView {
        match self {
            RemapAction::Button(n) => ActionView::Button(*n),
            RemapAction::KeysymNum(k) => ActionView::KeysymNum(*k),
            RemapAction::KeysymName(s) => ActionView::KeysymName(s@),
        }
    }
}

/// Remap actions per source button, indexed by button id (slot 0 unused).
pub type ButtonMap = Vec<Vec<RemapAction>>;

pub open spec fn actions_view(v: Vec<RemapAction>) -> Seq<ActionView> {
    v@.map_values(|a: RemapAction| a@)
}

pub open spec fn map_view(m: Seq<Vec<RemapAction>>) -> Seq<Seq<ActionView>> {
    m.map_values(|v: Vec<RemapAction>| actions_view(v))
}

pub open spec fn button_word() -> Seq<char> {
    seq!['B', 'u', 't', 't', 'o', 'n']
}

pub open spec fn hex_prefix() -> Seq<char> {
    seq!['0', 'x']
}

/// The action named by one trimmed, non-empty token of a `sym+sym` list:
/// `ButtonN`, a `0x` hex keysym, or else a keysym name.
pub open spec fn token_action(t: Seq<char>) -> ActionView {
    if button_word().is_prefix_of(t) && parse_unsigned(t.skip(6), false, 255) is Some {
        ActionView::Button(parse_unsigned(t.skip(6), false, 255)->0 as u8)
    } else if hex_prefix().is_prefix_of(t) && parse_unsigned(t.skip(2), true, u32::MAX as nat) is Some {
        ActionView::KeysymNum(parse_unsigned(t.skip(2), true, u32::MAX as nat)->0 as u32)
    } else {
        ActionView::KeysymName(t)
    }
}

/// The actions of the `+`-separated pieces, blank pieces skipped.
pub open spec fn pieces_actions(pieces: Seq<Seq<char>>) -> Seq<ActionView>
    decreases pieces.len(),
{
    if pieces.len() == 0 {
        seq![]
    } else {
        let prev = pieces_actions(pieces.drop_last());
        let t = trim(pieces.last());
        if t.len() == 0 {
            prev
        } else {
            prev.push(token_action(t))
        }
    }
}

pub open spec fn sym_list_actions(list: Seq<char>) -> Seq<ActionView> {
    pieces_actions(split_on(list, seq!['+']))
}

/// `str::trim_end_matches(':')`.
pub open spec fn strip_trailing_colons(s: Seq<char>) -> Seq<char>
    decreases s.len(),
{
    if s.len() > 0 && s.last() == ':' {
        strip_trailing_colons(s.drop_last())
    } else {
        s
    }
}

/// The actions that the mapping text of one source button describes:
/// `:sym+sym:` (up to the second colon), `sym+sym:`, or a button number.
pub open spec fn button_remap_actions(s: Seq<char>) -> Seq<ActionView> {
    let q = trim(s);
    if q.len() == 0 {
        seq![]
    } else if q[0] == ':' {
        match first_index(q.drop_first(), ':') {
            Some(e) => sym_list_actions(q.drop_first().take(e as int)),
            None => seq![],
        }
    } else if q.last() == ':' {
        sym_list_actions(strip_trailing_colons(q))
    } else {
        match parse_unsigned(q, false, 255) {
            Some(n) => seq![ActionView::Button(n as u8)],
            None => seq![],
        }
    }
}

/// A map with `MAX_BUTTONS + 1` slots and no actions.
pub open spec fn empty_map() -> Seq<Seq<ActionView>> {
    Seq::new((MAX_BUTTONS + 1) as nat, |i: int| Seq::<ActionView>::empty())
}

/// The map used when no remap string is given: buttons 1 to 5 map to themselves.
pub open spec fn identity_map() -> Seq<Seq<ActionView>> {
    Seq::new(
        (MAX_BUTTONS + 1) as nat,
        |i: int|
            if 1 <= i <= 5 {
                seq![ActionView::Button(i as u8)]
            } else {
                Seq::<ActionView>::empty()
            },
    )
}

/// The effect of one trimmed comma-separated token of a remap string on the map.
pub open spec fn apply_token(m: Seq<Seq<ActionView>>, t: Seq<char>) -> Seq<Seq<ActionView>> {
    if t.len() == 0 {
        m
    } else {
        match first_index(t, ':') {
            Some(c) => match parse_unsigned(t.take(c as int), false, usize::MAX as nat) {
                Some(from) => if from <= MAX_BUTTONS {
                    m.update(from as int, button_remap_actions(t.skip(c + 1 as int)))
                } else {
                    m
                },
                None => if c == 0 {
                    m.update(1, button_remap_actions(t))
                } else {
                    m
                },
            },
            None => match parse_unsigned(t, false, usize::MAX as nat) {
                Some(n) => if n <= MAX_BUTTONS {
                    m.update(n as int, m[n as int].push(ActionView::Button(n as u8)))
                } else {
                    m
                },
                None => m,
            },
        }
    }
}

pub open spec fn apply_tokens(m: Seq<Seq<ActionView>>, pieces: Seq<Seq<char>>) -> Seq<
    Seq<ActionView>,
>
    decreases pieces.len(),
{
    if pieces.len() == 0 {
        m
    } else {
        apply_token(apply_tokens(m, pieces.drop_last()), trim(pieces.last()))
    }
}

/// The button map that a remap string describes.
pub open spec fn pointer_map(remap: Option<Seq<char>>) -> Seq<Seq<ActionView>> {
    match remap {
        None => identity_map(),
        Some(r) => {
            let s = trim(r);
            if s.len() == 0 {
                empty_map()
            } else {
                apply_tokens(empty_map(), split_on(s, seq![',']))
            }
        },
    }
}

fn token_to_action(t: &Vec<char>) -> (a: RemapAction)
    requires
        t@.len() > 0,
    ensures
        a@ == token_action(t@),
{
    let word: &[char] = &['B', 'u', 't', 't', 'o', 'n'];
    let hx: &[char] = &['0', 'x'];
    assert(word@ =~= button_word());
    assert(hx@ =~= hex_prefix());
    if starts_with(t, word) {
        let rest = sub_chars(t, 6, t.len());
        assert(rest@ =~= t@.skip(6));
        if let Some(n) = parse_u8_chars(&rest) {
            return RemapAction::Button(n);
        }
    }
    if starts_with(t, hx) {
        let rest = sub_chars(t, 2, t.len());
        assert(rest@ =~= t@.skip(2));
        if let Some(k) = parse_u32_chars(&rest, true) {
            return RemapAction::KeysymNum(k);
        }
    }
    RemapAction::KeysymName(string_of(t))
}

/// Parse a `sym+sym` list into its actions.
fn parse_sym_list(list: &Vec<char>) -> (out: Vec<RemapAction>)
    ensures
        actions_view(out) == sym_list_actions(list@),
{
    let seps: &[char] = &['+'];
    assert(seps@ =~= seq!['+']);
    let pieces = split_chars(list, seps);
    let ghost all = views(pieces@);
    assert(all == split_on(list@, seq!['+']));
    let mut out: Vec<RemapAction> = Vec::new();
    let mut i: usize = 0;
    while i < pieces.len()
        invariant
            i <= pieces.len(),
            all == views(pieces@),
            actions_view(out) == pieces_actions(all.take(i as int)),
        decreases pieces.len() - i,
    {
        let t = trim_chars(&pieces[i]);
        proof {
            assert(all.take(i + 1).drop_last() =~= all.take(i as int));
            assert(all.take(i + 1).last() == pieces@[i as int]@);
        }
        if t.len() > 0 {
            let a = token_to_action(&t);
            out.push(a);
            assert(actions_view(out) =~= pieces_actions(all.take(i as int)).push(a@));
        }
        i = i + 1;
    }
    assert(all.take(pieces.len() as int) =~= all);
    out
}

fn strip_colons_end(q: &Vec<char>) -> (r: Vec<char>)
    ensures
        r@ == strip_trailing_colons(q@),
{
    let mut e = q.len();
    assert(q@.take(e as int) =~= q@);
    while e > 0 && q[e - 1] == ':'
        invariant
            e <= q.len(),
            strip_trailing_colons(q@.take(e as int)) == strip_trailing_colons(q@),
        decreases e,
    {
        assert(q@.take(e as int).drop_last() =~= q@.take(e - 1));
        e = e - 1;
    }
    let r = sub_chars(q, 0, e);
    assert(r@ =~= q@.take(e as int));
    assert(q@.take(q.len() as int) =~= q@);
    r
}

/// The remap actions for one source button from its mapping text.
fn parse_button_remap_for(s: &Vec<char>) -> (out: Vec<RemapAction>)
    ensures
        actions_view(out) == button_remap_actions(s@),
{
    let q = trim_chars(s);
    if q.len() == 0 {
        let out: Vec<RemapAction> = Vec::new();
        assert(actions_view(out) =~= seq![]);
        return out;
    }
    if q[0] == ':' {
        let rest = sub_chars(&q, 1, q.len());
        assert(rest@ =~= q@.drop_first());
        match find_char(&rest, ':') {
            Some(e) => {
                let inner = sub_chars(&rest, 0, e);
                assert(inner@ =~= rest@.take(e as int));
                parse_sym_list(&inner)
            },
            None => {
                let out: Vec<RemapAction> = Vec::new();
                assert(actions_view(out) =~= seq![]);
                out
            },
        }
    } else if q[q.len() - 1] == ':' {
        let inner = strip_colons_end(&q);
        parse_sym_list(&inner)
    } else {
        let mut out: Vec<RemapAction> = Vec::new();
        if let Some(n) = parse_u8_chars(&q) {
            out.push(RemapAction::Button(n));
        }
        assert(actions_view(out) =~= button_remap_actions(s@));
        out
    }
}

/// A map with `MAX_BUTTONS + 1` empty slots.
fn empty_button_map() -> (m: ButtonMap)
    ensures
        map_view(m@) == empty_map(),
        m@.len() == MAX_BUTTONS + 1,
{
    let mut v: ButtonMap = Vec::new();
    let mut i: usize = 0;
    while i <= MAX_BUTTONS
        invariant
            i <= MAX_BUTTONS + 1,
            v@.len() == i,
            forall|j: int| 0 <= j < i ==> (#[trigger] v@[j])@.len() == 0,
        decreases MAX_BUTTONS + 1 - i,
    {
        v.push(Vec::new());
        i = i + 1;
    }
    assert forall|j: int| 0 <= j < v@.len() implies actions_view(#[trigger] v@[j]) == Seq::<
        ActionView,
    >::empty() by {
        assert(actions_view(v@[j]) =~= Seq::<ActionView>::empty());
    }
    assert(map_view(v@) =~= empty_map());
    v
}

/// Replace slot `i` of the map.
fn set_slot(m: &mut ButtonMap, i: usize, actions: Vec<RemapAction>)
    requires
        i < old(m)@.len(),
    ensures
        final(m)@ == old(m)@.update(i as int, actions),
{
    m.set(i, actions);
}

/// Initialize a pointer map from a remap string in a small subset of the
/// `-buttonmap` format:
/// - `4`: button 4 gains an action for button 4;
/// - `2:Up+Down:` or `3:Button1:`: button 2 (3) is remapped to the listed actions;
/// - `:Up+Down:`: button 1 is remapped to the listed actions;
/// - several remaps are separated by `,`.
/// With no string at all, buttons 1 to 5 map to themselves.
pub fn initialize_pointer_map(remap_str: Option<&str>) -> (m: ButtonMap)
    ensures
        map_view(m@) == pointer_map(
            match remap_str {
                Some(s) => Some(s@),
                None => None,
            },
        ),
        m@.len() == MAX_BUTTONS + 1,
{
    let mut map = empty_button_map();
    if remap_str.is_none() {
        let mut i: usize = 1;
        while i <= 5
            invariant
                1 <= i <= 6,
                map@.len() == MAX_BUTTONS + 1,
                map_view(map@) == Seq::new(
                    (MAX_BUTTONS + 1) as nat,
                    |j: int|
                        if 1 <= j < i {
                            seq![ActionView::Button(j as u8)]
                        } else {
                            Seq::<ActionView>::empty()
                        },
                ),
            decreases 6 - i,
        {
            let mut one: Vec<RemapAction> = Vec::new();
            one.push(RemapAction::Button(i as u8));
            let ghost prev = map_view(map@);
            set_slot(&mut map, i, one);
            proof {
                assert(actions_view(one) =~= seq![ActionView::Button(i as u8)]);
                assert(map_view(map@) =~= prev.update(i as int, seq![ActionView::Button(i as u8)]));
                assert(map_view(map@) =~= Seq::new(
                    (MAX_BUTTONS + 1) as nat,
                    |j: int|
                        if 1 <= j < i + 1 {
                            seq![ActionView::Button(j as u8)]
                        } else {
                            Seq::<ActionView>::empty()
                        },
                ));
            }
            i = i + 1;
        }
        assert(map_view(map@) =~= identity_map());
        return map;
    }
    let raw = chars_of(remap_str.unwrap());
    let s = trim_chars(&raw);
    if s.len() == 0 {
        return map;
    }
    let seps: &[char] = &[','];
    assert(seps@ =~= seq![',']);
    let tokens = split_chars(&s, seps);
    let ghost all = views(tokens@);
    let mut k: usize = 0;
    while k < tokens.len()
        invariant
            k <= tokens.len(),
            all == views(tokens@),
            map@.len() == MAX_BUTTONS + 1,
            map_view(map@) == apply_tokens(empty_map(), all.take(k as int)),
        decreases tokens.len() - k,
    {
        proof {
            assert(all.take(k + 1).drop_last() =~= all.take(k as int));
            assert(all.take(k + 1).last() == tokens@[k as int]@);
        }
        let t = trim_chars(&tokens[k]);
        let ghost before = map_view(map@);
        if t.len() > 0 {
            match find_char(&t, ':') {
                Some(c) => {
                    let head = sub_chars(&t, 0, c);
                    assert(head@ =~= t@.take(c as int));
                    match parse_usize_chars(&head) {
                        Some(from) => {
                            if from <= MAX_BUTTONS {
                                let tail = sub_chars(&t, c + 1, t.len());
                                assert(tail@ =~= t@.skip(c + 1));
                                let actions = parse_button_remap_for(&tail);
                                set_slot(&mut map, from, actions);
                                assert(map_view(map@) =~= before.update(from as int, actions_view(actions)));
                            }
                        },
                        None => {
                            if c == 0 {
                                let actions = parse_button_remap_for(&t);
                                set_slot(&mut map, 1, actions);
                                assert(map_view(map@) =~= before.update(1, actions_view(actions)));
                            }
                        },
                    }
                },
                None => {
                    if let Some(n) = parse_usize_chars(&t) {
                        if n <= MAX_BUTTONS {
                            let ghost old_map = map@;
                            let mut slot = map.remove(n);
                            let ghost old_slot = slot@;
                            slot.push(RemapAction::Button(n as u8));
                            map.insert(n, slot);
                            assert(map@ =~= old_map.update(n as int, slot));
                            assert(actions_view(slot) =~= actions_view(old_map[n as int]).push(
                                ActionView::Button(n as u8),
                            ));
                            assert(map_view(map@) =~= before.update(
                                n as int,
                                before[n as int].push(ActionView::Button(n as u8)),
                            ));
                        }
                    }
                },
            }
        }
        k = k + 1;
    }
    assert(all.take(tokens.len() as int) =~= all);
    map
}

/// Every `Button(n)` among `actions` names a button whose bit fits in a `u32` mask.
pub open spec fn buttons_fit_mask(actions: Seq<ActionView>) -> bool {
    forall|i: int|
        0 <= i < actions.len() ==> match #[trigger] actions[i] {
            ActionView::Button(n) => n <= 32,
            _ => true,
        }
}

/// The mask bit of button `n` (buttons are 1-based; button 0 shares bit 0).
pub open spec fn button_bit(n: u8) -> u32 {
    1u32 << (if n >= 1 {
        (n - 1) as u32
    } else {
        0u32
    })
}

/// The input events that one remap action stands for, given the state of the
/// source button: a pointer event with the target button's bit set or cleared,
/// a key press and release (only the release when the source is released), or
/// nothing for a keysym name.
pub open spec fn action_events(a: ActionView, pressed: bool, x: i32, y: i32, current_mask: u32) -> Seq<
    InputEvent,
> {
    match a {
        ActionView::Button(n) => {
            let new_mask = if pressed {
                current_mask | button_bit(n)
            } else {
                current_mask & !button_bit(n)
            };
            seq![InputEvent::Pointer { x, y, button_mask: new_mask as u8 }]
        },
        ActionView::KeysymNum(k) => if pressed {
            seq![
                InputEvent::Key { keysym: k, pressed: true, modifiers: 0 },
                InputEvent::Key { keysym: k, pressed: false, modifiers: 0 },
            ]
        } else {
            seq![InputEvent::Key { keysym: k, pressed: false, modifiers: 0 }]
        },
        ActionView::KeysymName(_) => seq![],
    }
}

/// The events of all `actions`, in order.
pub open spec fn actions_events(
    actions: Seq<ActionView>,
    pressed: bool,
    x: i32,
    y: i32,
    current_mask: u32,
) -> Seq<InputEvent>
    decreases actions.len(),
{
    if actions.len() == 0 {
        seq![]
    } else {
        actions_events(actions.drop_last(), pressed, x, y, current_mask) + action_events(
            actions.last(),
            pressed,
            x,
            y,
            current_mask,
        )
    }
}

fn remap_action_to_input_events(
    action: &RemapAction,
    pressed: bool,
    x: i32,
    y: i32,
    current_mask: u32,
) -> (out: Vec<InputEvent>)
    requires
        action@ matches ActionView::Button(n) ==> n <= 32,
    ensures
        out@ == action_events(action@, pressed, x, y, current_mask),
{
    match action {
        RemapAction::Button(n) => {
            let bit = 1u32 << (n.saturating_sub(1) as u32);
            let new_mask = if pressed {
                current_mask | bit
            } else {
                current_mask & !bit
            };
            let mut out: Vec<InputEvent> = Vec::new();
            out.push(InputEvent::Pointer { x, y, button_mask: new_mask as u8 });
            assert(out@ =~= action_events(action@, pressed, x, y, current_mask));
            out
        },
        RemapAction::KeysymNum(k) => {
            let mut out: Vec<InputEvent> = Vec::new();
            if pressed {
                out.push(InputEvent::Key { keysym: *k, pressed: true, modifiers: 0 });
                out.push(InputEvent::Key { keysym: *k, pressed: false, modifiers: 0 });
            } else {
                out.push(InputEvent::Key { keysym: *k, pressed: false, modifiers: 0 });
            }
            assert(out@ =~= action_events(action@, pressed, x, y, current_mask));
            out
        },
        RemapAction::KeysymName(_) => {
            let out: Vec<InputEvent> = Vec::new();
            assert(out@ =~= action_events(action@, pressed, x, y, current_mask));
            out
        },
    }
}

/// Given a button map and a source button event (button id and pressed
/// state), the input events of the source button's remap actions, in order.
/// A button id of 0 or beyond the map gives no events.
pub fn remap_button_event_to_input_events(
    map: &ButtonMap,
    src_button: u8,
    pressed: bool,
    x: i32,
    y: i32,
    current_mask: u32,
) -> (out: Vec<InputEvent>)
    requires
        0 < src_button < map@.len() ==> buttons_fit_mask(actions_view(map@[src_button as int])),
    ensures
        out@ == if src_button == 0 || src_button >= map@.len() {
            Seq::<InputEvent>::empty()
        } else {
            actions_events(map_view(map@)[src_button as int], pressed, x, y, current_mask)
        },
{
    if src_button == 0 || (src_button as usize) >= map.len() {
        return Vec::new();
    }
    let actions = &map[src_button as usize];
    let ghost all = actions_view(*actions);
    let mut out: Vec<InputEvent> = Vec::new();
    let mut i: usize = 0;
    while i < actions.len()
        invariant
            i <= actions.len(),
            all == actions_view(*actions),
            buttons_fit_mask(all),
            out@ == actions_events(all.take(i as int), pressed, x, y, current_mask),
        decreases actions.len() - i,
    {
        proof {
            assert(all.take(i + 1).drop_last() =~= all.take(i as int));
            assert(all[i as int] == actions@[i as int]@);
        }
        let mut evs = remap_action_to_input_events(&actions[i], pressed, x, y, current_mask);
        out.append(&mut evs);
        i = i + 1;
    }
    assert(all.take(actions.len() as int) =~= all);
    out
}

/// With no remap string, buttons 1 to 5 act as themselves: each event on
/// such a button becomes one pointer event that sets or clears its own bit.
pub proof fn law_identity_buttons(b: int, pressed: bool, x: i32, y: i32, current_mask: u32)
    requires
        1 <= b <= 5,
    ensures
        actions_events(pointer_map(None)[b], pressed, x, y, current_mask) == seq![
            InputEvent::Pointer {
                x,
                y,
                button_mask: (if pressed {
                    current_mask | button_bit(b as u8)
                } else {
                    current_mask & !button_bit(b as u8)
                }) as u8,
            },
        ],
{
    let acts = pointer_map(None)[b];
    assert(acts == seq![ActionView::Button(b as u8)]);
    assert(acts.drop_last() =~= Seq::<ActionView>::empty());
    assert(actions_events(acts.drop_last(), pressed, x, y, current_mask) =~= Seq::<InputEvent>::empty());
}

/// A `0x` token is the numeric keysym its hexadecimal digits spell: for
/// every `u32` value `k`, the token `0x` followed by the hex text of `k` is
/// `KeysymNum(k)`, whatever the size of `k`.
pub proof fn law_hex_keysym_token(k: u32)
    ensures
        token_action(hex_prefix() + hex_of(k as nat)) == ActionView::KeysymNum(k),
{
    let h = hex_of(k as nat);
    lemma_hex_of(k as nat);
    let t = hex_prefix() + h;
    assert(!button_word().is_prefix_of(t)) by {
        if button_word().is_prefix_of(t) {
            assert(t.subrange(0, 6)[0] == t[0]);
        }
    }
    assert(t.subrange(0, 2) =~= hex_prefix());
    assert(t.skip(2) =~= h);
    lemma_parse_hex_of(k as nat, u32::MAX as nat);
}

/// The remap string `2:0x<hex of k>:` maps button 2 to exactly the numeric
/// keysym `k`, for every `u32` value `k`.
pub proof fn law_hex_keysym_remap(k: u32)
    ensures
        pointer_map(Some(seq!['2', ':'] + hex_prefix() + hex_of(k as nat) + seq![':']))[2] == seq![
            ActionView::KeysymNum(k),
        ],
{
    let h = hex_of(k as nat);
    lemma_hex_of(k as nat);
    assert forall|i: int| 0 <= i < h.len() implies !is_space_or_sep(#[trigger] h[i]) by {
        lemma_digit_char(h[i], true);
    }
    let t = hex_prefix() + h;
    let u = t + seq![':'];
    let s = seq!['2', ':'] + u;
    assert(seq!['2', ':'] + hex_prefix() + h + seq![':'] =~= s);
    // The whole string is one comma-free token, its own trim.
    lemma_trim_unchanged(s);
    assert forall|i: int| 0 <= i < s.len() implies #[trigger] s[i] != ',' by {
        if 4 <= i < s.len() - 1 {
            assert(s[i] == h[i - 4]);
        }
    }
    lemma_split_without_sep(s, ',');
    let pieces = seq![s];
    assert(pieces.drop_last() =~= Seq::<Seq<char>>::empty());
    assert(pieces.last() == s);
    assert(apply_tokens(empty_map(), pieces.drop_last()) == empty_map());
    assert(apply_tokens(empty_map(), pieces) == apply_token(empty_map(), s));
    // `2` before the first colon.
    lemma_first_index(s, ':', 1);
    assert(s.take(1) =~= seq!['2']);
    assert(seq!['2'].drop_last() =~= Seq::<char>::empty());
    assert(crate::text::digits_value(Seq::<char>::empty(), false) == 0);
    assert(crate::text::digit_value('2', false) == Some(2nat));
    assert(crate::text::digits_value(seq!['2'], false) == 2);
    assert(crate::text::all_digits(seq!['2'], false));
    assert(parse_unsigned(seq!['2'], false, usize::MAX as nat) == Some(2nat));
    assert(parse_unsigned(s.take(1), false, usize::MAX as nat) == Some(2nat));
    assert(s.skip(2) =~= u);
    // `0x<hex>:` is a sym list ended by a colon.
    lemma_trim_unchanged(u);
    assert(u.drop_last() =~= t);
    lemma_digit_char(h[h.len() - 1], true);
    assert(t.last() == h[h.len() - 1]);
    assert(strip_trailing_colons(t) == t);
    assert(strip_trailing_colons(u) == t);
    lemma_hex_sym_list(k);
}

/// The sym list made of one `0x` hex token is that one numeric keysym.
proof fn lemma_hex_sym_list(k: u32)
    ensures
        sym_list_actions(hex_prefix() + hex_of(k as nat)) == seq![ActionView::KeysymNum(k)],
{
    let h = hex_of(k as nat);
    lemma_hex_of(k as nat);
    let t = hex_prefix() + h;
    assert forall|i: int| 0 <= i < t.len() implies #[trigger] t[i] != '+' by {
        if 2 <= i {
            assert(t[i] == h[i - 2]);
            lemma_digit_char(h[i - 2], true);
        }
    }
    lemma_split_without_sep(t, '+');
    lemma_digit_char(h[h.len() - 1], true);
    assert(t[t.len() - 1] == h[h.len() - 1]);
    lemma_trim_unchanged(t);
    assert(seq![t].drop_last() =~= Seq::<Seq<char>>::empty());
    assert(seq![t].last() == t);
    assert(pieces_actions(seq![t].drop_last()) == Seq::<ActionView>::empty());
    assert(trim(t).len() > 0);
    law_hex_keysym_token(k);
    assert(pieces_actions(seq![t]) == seq![ActionView::KeysymNum(k)]);
    assert(sym_list_actions(t) =~= seq![ActionView::KeysymNum(k)]);
}

/// Two `0x` hex keysyms joined by `+` are those two numeric keysyms, in the
/// order written, for every pair of `u32` values.
pub proof fn law_hex_keysyms_in_order(k1: u32, k2: u32)
    ensures
        sym_list_actions(hex_prefix() + hex_of(k1 as nat) + seq!['+'] + hex_prefix() + hex_of(k2 as nat))
            == seq![ActionView::KeysymNum(k1), ActionView::KeysymNum(k2)],
{
    let t1 = hex_prefix() + hex_of(k1 as nat);
    let t2 = hex_prefix() + hex_of(k2 as nat);
    assert(hex_prefix() + hex_of(k1 as nat) + seq!['+'] + hex_prefix() + hex_of(k2 as nat) =~= t1
        + seq!['+'] + t2);
    law_sym_list_in_order(t1, t2);
    lemma_hex_sym_list(k1);
    lemma_hex_sym_list(k2);
    assert(seq![ActionView::KeysymNum(k1)] + seq![ActionView::KeysymNum(k2)] =~= seq![
        ActionView::KeysymNum(k1),
        ActionView::KeysymNum(k2),
    ]);
}

/// The events of a list of actions are those of each action in list order:
/// the events of `a ++ b` are the events of `a` followed by those of `b`, and
/// a single action gives exactly its own events.
pub proof fn law_actions_events_in_order(
    a: Seq<ActionView>,
    b: Seq<ActionView>,
    pressed: bool,
    x: i32,
    y: i32,
    current_mask: u32,
)
    ensures
        actions_events(a + b, pressed, x, y, current_mask) == actions_events(
            a,
            pressed,
            x,
            y,
            current_mask,
        ) + actions_events(b, pressed, x, y, current_mask),
        a.len() == 1 ==> actions_events(a, pressed, x, y, current_mask) == action_events(
            a[0],
            pressed,
            x,
            y,
            current_mask,
        ),
    decreases b.len(),
{
    if a.len() == 1 {
        assert(a.drop_last() =~= Seq::<ActionView>::empty());
        assert(actions_events(a.drop_last(), pressed, x, y, current_mask) =~= Seq::<InputEvent>::empty());
        assert(Seq::<InputEvent>::empty() + action_events(a[0], pressed, x, y, current_mask)
            =~= action_events(a[0], pressed, x, y, current_mask));
    }
    if b.len() == 0 {
        assert(a + b =~= a);
        assert(actions_events(a, pressed, x, y, current_mask) + actions_events(b, pressed, x, y, current_mask)
            =~= actions_events(a, pressed, x, y, current_mask));
    } else {
        law_actions_events_in_order(a, b.drop_last(), pressed, x, y, current_mask);
        assert((a + b).drop_last() =~= a + b.drop_last());
        assert((a + b).last() == b.last());
        let ea = actions_events(a, pressed, x, y, current_mask);
        let eb = actions_events(b.drop_last(), pressed, x, y, current_mask);
        let el = action_events(b.last(), pressed, x, y, current_mask);
        assert((ea + eb) + el =~= ea + (eb + el));
    }
}

/// Numeric keysyms are typed in slot order: a press on a source button whose
/// slot holds `k1` then `k2` presses and releases `k1`, then presses and
/// releases `k2`; a release releases `k1`, then `k2`.
pub proof fn law_keysyms_in_order(k1: u32, k2: u32, x: i32, y: i32, current_mask: u32)
    ensures
        actions_events(
            seq![ActionView::KeysymNum(k1), ActionView::KeysymNum(k2)],
            true,
            x,
            y,
            current_mask,
        ) == seq![
            InputEvent::Key { keysym: k1, pressed: true, modifiers: 0 },
            InputEvent::Key { keysym: k1, pressed: false, modifiers: 0 },
            InputEvent::Key { keysym: k2, pressed: true, modifiers: 0 },
            InputEvent::Key { keysym: k2, pressed: false, modifiers: 0 },
        ],
        actions_events(
            seq![ActionView::KeysymNum(k1), ActionView::KeysymNum(k2)],
            false,
            x,
            y,
            current_mask,
        ) == seq![
            InputEvent::Key { keysym: k1, pressed: false, modifiers: 0 },
            InputEvent::Key { keysym: k2, pressed: false, modifiers: 0 },
        ],
{
    let a1 = seq![ActionView::KeysymNum(k1)];
    let a2 = seq![ActionView::KeysymNum(k2)];
    assert(a1 + a2 =~= seq![ActionView::KeysymNum(k1), ActionView::KeysymNum(k2)]);
    law_actions_events_in_order(a1, a2, true, x, y, current_mask);
    law_actions_events_in_order(a1, a2, false, x, y, current_mask);
    law_actions_events_in_order(a2, Seq::<ActionView>::empty(), true, x, y, current_mask);
    law_actions_events_in_order(a2, Seq::<ActionView>::empty(), false, x, y, current_mask);
    assert(actions_events(a1, true, x, y, current_mask) + actions_events(a2, true, x, y, current_mask)
        =~= seq![
        InputEvent::Key { keysym: k1, pressed: true, modifiers: 0 },
        InputEvent::Key { keysym: k1, pressed: false, modifiers: 0 },
        InputEvent::Key { keysym: k2, pressed: true, modifiers: 0 },
        InputEvent::Key { keysym: k2, pressed: false, modifiers: 0 },
    ]);
    assert(actions_events(a1, false, x, y, current_mask) + actions_events(a2, false, x, y, current_mask)
        =~= seq![
        InputEvent::Key { keysym: k1, pressed: false, modifiers: 0 },
        InputEvent::Key { keysym: k2, pressed: false, modifiers: 0 },
    ]);
}

proof fn lemma_pieces_actions_concat(x: Seq<Seq<char>>, y: Seq<Seq<char>>)
    ensures
        pieces_actions(x + y) == pieces_actions(x) + pieces_actions(y),
    decreases y.len(),
{
    if y.len() == 0 {
        assert(x + y =~= x);
        assert(pieces_actions(x) + pieces_actions(y) =~= pieces_actions(x));
    } else {
        lemma_pieces_actions_concat(x, y.drop_last());
        assert((x + y).drop_last() =~= x + y.drop_last());
        assert((x + y).last() == y.last());
        let p = pieces_actions(x);
        let q = pieces_actions(y.drop_last());
        let t = trim(y.last());
        if t.len() > 0 {
            assert((p + q).push(token_action(t)) =~= p + q.push(token_action(t)));
        }
    }
}

/// The actions of a `+`-joined sym list come in list order: the actions of
/// `a + b` are those of `a` followed by those of `b`.
pub proof fn law_sym_list_in_order(a: Seq<char>, b: Seq<char>)
    ensures
        sym_list_actions(a + seq!['+'] + b) == sym_list_actions(a) + sym_list_actions(b),
{
    lemma_split_join_on(a, b, '+');
    lemma_pieces_actions_concat(split_on(a, seq!['+']), split_on(b, seq!['+']));
}

/// Whitespace, or one of the separators of a remap string.
pub open spec fn is_space_or_sep(c: char) -> bool {
    crate::text::is_space(c) || c == ',' || c == ':' || c == '+'
}

} // verus!
