//! The display: a stub display handle that needs no X server, and the
//! decisions an X11 backend makes around its protocol calls (pixel
//! conversion, keysym lookup, button transitions).

use vstd::prelude::*;

verus! {

/// A display connection; without an X server this is a stub that serves a
/// test pattern and accepts every injected event.
#[derive(Debug)]
pub struct DisplayHandle {
    pub name: String,
}

/// The test pattern of a `width` by `height` capture: pixel `(x, y)` is
/// `(x % 256, y % 256, (x + y) % 256)`.
pub open spec fn gradient(width: int, height: int) -> Seq<u8> {
    Seq::new(
        (width * height * 3) as nat,
        |i: int|
            {
                let p = i / 3;
                let x = p % width;
                let y = p / width;
                if i % 3 == 0 {
                    (x % 256) as u8
                } else if i % 3 == 1 {
                    (y % 256) as u8
                } else {
                    ((x + y) % 256) as u8
                }
            },
    )
}

impl DisplayHandle {
    /// Connect to `display_name`, or to `stub-display` when none is given.
    pub fn connect(display_name: Option<&str>) -> (r: Result<Self, String>)
        ensures
            r matches Ok(d) && d.name@ == match display_name {
                Some(s) => s@,
                None => "stub-display"@,
            },
    {
        let name = match display_name {
            Some(s) => s.to_string(),
            None => "stub-display".to_string(),
        };
        Ok(DisplayHandle { name })
    }

    /// Capture a snapshot of the root window as RGB24 data (width*height*3):
    /// the test pattern; empty dimensions are an error.
    pub fn capture_root(&self, width: u32, height: u32) -> (r: Result<Vec<u8>, String>)
        requires
            width == 0 || height == 0 || (width as int) * (height as int) * 3 <= usize::MAX,
            width as int + height as int <= u32::MAX as int + 2,
        ensures
            width == 0 || height == 0 ==> (r matches Err(e) && e@ == "invalid dims"@),
            width > 0 && height > 0 ==> (r matches Ok(buf) && buf@ == gradient(
                width as int,
                height as int,
            )),
    {
        if width == 0 || height == 0 {
            return Err("invalid dims".to_string());
        }
        proof {
            assert((width as int) * (height as int) <= (width as int) * (height as int) * 3)
                by (nonlinear_arith)
                requires width > 0, height > 0;
        }
        let mut buf: Vec<u8> = Vec::with_capacity((width as usize) * (height as usize) * 3);
        let ghost target = gradient(width as int, height as int);
        let mut y: u32 = 0;
        while y < height
            invariant
                0 < width,
                0 < height,
                y <= height,
                width as int + height as int <= u32::MAX as int + 2,
                target == gradient(width as int, height as int),
                buf@.len() == (y as int) * (width as int) * 3,
                buf@.len() <= target.len(),
                forall|i: int| 0 <= i < buf@.len() ==> buf@[i] == target[i],
            decreases height - y,
        {
            let mut x: u32 = 0;
            while x < width
                invariant
                    0 < width,
                    y < height,
                    x <= width,
                    width as int + height as int <= u32::MAX as int + 2,
                    target == gradient(width as int, height as int),
                    buf@.len() == ((y as int) * (width as int) + x) * 3,
                    buf@.len() <= target.len(),
                    forall|i: int| 0 <= i < buf@.len() ==> buf@[i] == target[i],
                decreases width - x,
            {
                let r = (x % 256) as u8;
                let g = (y % 256) as u8;
                let b = ((x + y) % 256) as u8;
                proof {
                    let p = (y as int) * (width as int) + x;
                    assert(p < (width as int) * (height as int)) by (nonlinear_arith)
                        requires
                            p == (y as int) * (width as int) + x,
                            x < width,
                            y < height,
                    ;
                    vstd::arithmetic::div_mod::lemma_fundamental_div_mod_converse(
                        p,
                        width as int,
                        y as int,
                        x as int,
                    );
                    let n = buf@.len() as int;
                    vstd::arithmetic::div_mod::lemma_fundamental_div_mod_converse(n, 3, p, 0);
                    vstd::arithmetic::div_mod::lemma_fundamental_div_mod_converse(n + 1, 3, p, 1);
                    vstd::arithmetic::div_mod::lemma_fundamental_div_mod_converse(n + 2, 3, p, 2);
                    assert(n + 2 < (width as int) * (height as int) * 3);
                    assert(target.len() == (width as int) * (height as int) * 3);
                    assert(target[n] == r);
                    assert(target[n + 1] == g);
                    assert(target[n + 2] == b);
                }
                buf.push(r);
                buf.push(g);
                buf.push(b);
                x = x + 1;
            }
            assert(((y as int) * (width as int) + width) * 3 == ((y + 1) as int) * (width as int) * 3)
                by (nonlinear_arith);
            assert(((y + 1) as int) * (width as int) * 3 <= (height as int) * (width as int) * 3)
                by (nonlinear_arith)
                requires y < height, width > 0;
            assert((height as int) * (width as int) == (width as int) * (height as int))
                by (nonlinear_arith);
            y = y + 1;
        }
        assert((height as int) * (width as int) == (width as int) * (height as int))
            by (nonlinear_arith);
        assert(buf@ =~= target);
        Ok(buf)
    }

    /// Inject a key event (press/release); the stub accepts every event.
    pub fn inject_key_event(&self, _keysym: u32, _pressed: bool) -> (r: Result<(), String>)
        ensures
            r is Ok,
    {
        Ok(())
    }

    /// Inject a pointer event (x, y and button mask); the stub accepts every event.
    pub fn inject_pointer_event(&mut self, _x: i32, _y: i32, _button_mask: u32) -> (r: Result<(), String>)
        ensures
            r is Ok,
            final(self).name == old(self).name,
    {
        Ok(())
    }
}

/// `min(a * b, usize::MAX)`.
pub open spec fn sat_product(a: int, b: int) -> int {
    if a * b <= usize::MAX {
        a * b
    } else {
        usize::MAX as int
    }
}

fn saturating_product(a: usize, b: usize) -> (r: usize)
    ensures
        r == sat_product(a as int, b as int),
{
    match a.checked_mul(b) {
        Some(v) => v,
        None => usize::MAX,
    }
}

/// The RGB24 form of `4`-byte pixels: the first three bytes of each.
pub open spec fn rgb_of_rgba(src: Seq<u8>, npix: int) -> Seq<u8> {
    Seq::new((npix * 3) as nat, |i: int| src[(i / 3) * 4 + i % 3])
}

/// Normalize raw image bytes with `bpp` bytes-per-pixel (3 or 4) into an
/// RGB24 vector (R, G, B per pixel), dropping the fourth byte of 4-byte pixels.
pub fn normalize_to_rgb24(src: &[u8], width: usize, height: usize, bpp: usize) -> (r: Result<
    Vec<u8>,
    String,
>)
    requires
        src@.len() <= isize::MAX,
    ensures
        ({
            let npix = sat_product(width as int, height as int);
            let expected = sat_product(npix, bpp as int);
            if width == 0 || height == 0 {
                r matches Err(e) && e@ == "invalid dims"@
            } else if bpp != 3 && bpp != 4 {
                r matches Err(e) && e@ == "unsupported bpp"@
            } else if src@.len() < expected {
                r matches Err(e) && e@ == "source buffer too small"@
            } else if bpp == 3 {
                r matches Ok(out) && out@ == src@.take(expected)
            } else {
                r matches Ok(out) && out@ == rgb_of_rgba(src@, npix)
            }
        }),
{
    if width == 0 || height == 0 {
        return Err("invalid dims".to_string());
    }
    if bpp != 3 && bpp != 4 {
        return Err("unsupported bpp".to_string());
    }
    let npix = saturating_product(width, height);
    let expected = saturating_product(npix, bpp);
    if src.len() < expected {
        return Err("source buffer too small".to_string());
    }
    let mut out: Vec<u8> = Vec::with_capacity(npix * 3);
    if bpp == 3 {
        let mut i: usize = 0;
        while i < expected
            invariant
                i <= expected <= src@.len(),
                out@ == src@.take(i as int),
            decreases expected - i,
        {
            out.push(src[i]);
            assert(src@.take(i + 1) =~= src@.take(i as int).push(src@[i as int]));
            i = i + 1;
        }
        return Ok(out);
    }
    let ghost target = rgb_of_rgba(src@, npix as int);
    let mut i: usize = 0;
    while i < npix
        invariant
            bpp == 4,
            i <= npix,
            npix * 4 <= src@.len(),
            src@.len() <= isize::MAX,
            target == rgb_of_rgba(src@, npix as int),
            out@.len() == i * 3,
            forall|k: int| 0 <= k < out@.len() ==> out@[k] == target[k],
        decreases npix - i,
    {
        proof {
            assert(i * 4 + 4 <= npix * 4) by (nonlinear_arith)
                requires i < npix;
        }
        let si = i * 4;
        proof {
            let n = (i * 3) as int;
            vstd::arithmetic::div_mod::lemma_fundamental_div_mod_converse(n, 3, i as int, 0);
            vstd::arithmetic::div_mod::lemma_fundamental_div_mod_converse(n + 1, 3, i as int, 1);
            vstd::arithmetic::div_mod::lemma_fundamental_div_mod_converse(n + 2, 3, i as int, 2);
        }
        out.push(src[si]);
        out.push(src[si + 1]);
        out.push(src[si + 2]);
        i = i + 1;
    }
    assert(out@ =~= target);
    Ok(out)
}

/// An image of 3-byte pixels that is exactly `width * height` pixels long
/// comes back unchanged.
pub proof fn law_rgb24_unchanged(src: Seq<u8>, width: int, height: int)
    requires
        width > 0,
        height > 0,
        src.len() == width * height * 3,
        src.len() <= isize::MAX,
    ensures
        sat_product(sat_product(width, height), 3) == src.len(),
        src.take(src.len() as int) == src,
{
    assert(width * height <= width * height * 3) by (nonlinear_arith)
        requires
            width > 0,
            height > 0,
    ;
    assert(src.take(src.len() as int) =~= src);
}

/// Bytes per pixel of a captured image of `depth` bits: 3 for 24, 4 for 32;
/// other depths are not supported.
pub fn depth_bytes_per_pixel(depth: u8) -> (r: Option<usize>)
    ensures
        r == if depth == 24 {
            Some(3usize)
        } else if depth == 32 {
            Some(4usize)
        } else {
            None::<usize>
        },
{
    if depth == 24 {
        Some(3)
    } else if depth == 32 {
        Some(4)
    } else {
        None
    }
}

/// Rows of the keyboard map between `min_keycode` and `max_keycode`, as the
/// backend counts them (a `u8`).
pub open spec fn keymap_rows(min_keycode: u8, max_keycode: u8) -> int {
    ((max_keycode as int - min_keycode as int + 1) as u8) as int
}

/// Row `row` of the keyboard map lists `keysym`.
pub open spec fn row_lists(keysyms: Seq<u32>, per: int, row: int, keysym: u32) -> bool {
    exists|j: int| 0 <= j < per && #[trigger] keysyms[row * per + j] == keysym
}

/// The keycode that produces `keysym`: that of the first keyboard-map row
/// listing it, counted from `min_keycode` (wrapping past 255).
pub fn keycode_for_keysym(
    min_keycode: u8,
    max_keycode: u8,
    keysyms_per_keycode: u8,
    keysyms: &[u32],
    keysym: u32,
) -> (r: Option<u8>)
    requires
        keymap_rows(min_keycode, max_keycode) * keysyms_per_keycode <= keysyms@.len(),
    ensures
        ({
            let rows = keymap_rows(min_keycode, max_keycode);
            let per = keysyms_per_keycode as int;
            match r {
                Some(kc) => exists|i: int|
                    0 <= i < rows && #[trigger] row_lists(keysyms@, per, i, keysym) && (forall|i2: int|
                        0 <= i2 < i ==> !row_lists(keysyms@, per, i2, keysym)) && kc == ((
                    min_keycode as int + i) % 256) as u8,
                None => forall|i: int| 0 <= i < rows ==> !row_lists(keysyms@, per, i, keysym),
            }
        }),
{
    let len = #[verifier::truncate] ((max_keycode as i32 - min_keycode as i32 + 1) as u8);
    let klen = keysyms.len();
    let per = keysyms_per_keycode as usize;
    let ghost rows = keymap_rows(min_keycode, max_keycode);
    assert(len as int == rows);
    let mut i: usize = 0;
    while i < len as usize
        invariant
            len as int == rows,
            rows == keymap_rows(min_keycode, max_keycode),
            per == keysyms_per_keycode,
            rows * per <= keysyms@.len(),
            klen == keysyms@.len(),
            i <= len,
            forall|i2: int| 0 <= i2 < i ==> !row_lists(keysyms@, per as int, i2, keysym),
        decreases len - i,
    {
        proof {
            assert((i as int) * (per as int) + per <= rows * per) by (nonlinear_arith)
                requires
                    i < rows,
                    per >= 0,
            ;
        }
        let base = i * per;
        let mut j: usize = 0;
        while j < per
            invariant
                i < len,
                len as int == rows,
                rows == keymap_rows(min_keycode, max_keycode),
                per == keysyms_per_keycode,
                rows * per <= keysyms@.len(),
                klen == keysyms@.len(),
                forall|i2: int| 0 <= i2 < i ==> !row_lists(keysyms@, per as int, i2, keysym),
                base == i * per,
                base + per <= rows * per,
                j <= per,
                forall|k: int| base <= k < base + j ==> keysyms@[k] != keysym,
            decreases per - j,
        {
            if keysyms[base + j] == keysym {
                let kc = ((min_keycode as u16 + i as u16) % 256) as u8;
                proof {
                    assert(keysyms@[(i as int) * (per as int) + j] == keysym);
                    assert(row_lists(keysyms@, keysyms_per_keycode as int, i as int, keysym));
                }
                return Some(kc);
            }
            j = j + 1;
        }
        proof {
            assert(!row_lists(keysyms@, per as int, i as int, keysym)) by {
                if row_lists(keysyms@, per as int, i as int, keysym) {
                    let j2 = choose|j2: int| 0 <= j2 < per && #[trigger] keysyms@[(i as int) * (per as int) + j2] == keysym;
                    assert(keysyms@[base + j2] == keysym);
                    assert(base <= base + j2 < base + per);
                }
            }
        }
        i = i + 1;
    }
    None
}

/// The button transitions between two masks: for each of the eight buttons
/// whose bit differs, in button order, the 1-based button and whether it is
/// now pressed.
pub open spec fn button_transitions(last_mask: u32, new_mask: u32, upto: nat) -> Seq<(u8, bool)>
    decreases upto,
{
    if upto == 0 {
        seq![]
    } else {
        let i = (upto - 1) as u32;
        let bit = 1u32 << i;
        let prev = button_transitions(last_mask, new_mask, (upto - 1) as nat);
        if (new_mask ^ last_mask) & bit != 0 {
            prev.push(((i + 1) as u8, new_mask & bit != 0))
        } else {
            prev
        }
    }
}

/// Which of the buttons 1 to 8 change between `last_mask` and `new_mask`,
/// and whether each is pressed after the change.
pub fn button_changes(last_mask: u32, new_mask: u32) -> (out: Vec<(u8, bool)>)
    ensures
        out@ == button_transitions(last_mask, new_mask, 8),
{
    let changed = new_mask ^ last_mask;
    let mut out: Vec<(u8, bool)> = Vec::new();
    let mut i: u32 = 0;
    while i < 8
        invariant
            i <= 8,
            changed == new_mask ^ last_mask,
            out@ == button_transitions(last_mask, new_mask, i as nat),
        decreases 8 - i,
    {
        let bit = 1u32 << i;
        if changed & bit != 0 {
            out.push(((i + 1) as u8, new_mask & bit != 0));
        }
        i = i + 1;
    }
    out
}

/// The X button mask for an injector's mask. The injector numbers its bits
/// bit0 = left, bit1 = right, bit2 = middle, while X buttons are 1 = left,
/// 2 = middle, 3 = right, bit `i` of an X mask standing for button `i + 1`:
/// so the right and middle bits trade places and every other bit stays.
pub fn x_button_mask(injector_mask: u32) -> (x_mask: u32)
    ensures
        x_mask & 1 == injector_mask & 1,
        (x_mask >> 1u32) & 1 == (injector_mask >> 2u32) & 1,
        (x_mask >> 2u32) & 1 == (injector_mask >> 1u32) & 1,
        x_mask >> 3u32 == injector_mask >> 3u32,
{
    let m = injector_mask;
    let r = (m & 0xffff_fff9u32) | ((m & 2u32) << 1u32) | ((m & 4u32) >> 1u32);
    assert(r & 1 == m & 1 && (r >> 1u32) & 1 == (m >> 2u32) & 1 && (r >> 2u32) & 1 == (m >> 1u32) & 1
        && r >> 3u32 == m >> 3u32) by (bit_vector)
        requires
            r == (m & 0xffff_fff9u32) | ((m & 2u32) << 1u32) | ((m & 4u32) >> 1u32),
    ;
    r
}

} // verus!
