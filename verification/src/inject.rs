//! The injection interface: backends that deliver keyboard and pointer
//! events (an X server's XTest extension, Linux uinput, or callbacks)
//! implement `InputInjector`.

use vstd::prelude::*;

verus! {

#[verifier::external_type_specification]
#[verifier::external_body]
pub struct ExIoError(std::io::Error);

/// A minimal injector trait used by higher-level code to deliver input.
pub trait InputInjector: Send {
    /// Send a key event. `keycode` follows the backend's expected keycode
    /// numbering (e.g., Linux input event keycodes or X keycodes).
    fn send_key(&mut self, keycode: u16, pressed: bool) -> std::io::Result<()>;

    /// Send a relative pointer motion and a button mask. `dx`/`dy` are
    /// relative movements. `button_mask` uses bit0=left, bit1=right, bit2=middle.
    fn send_pointer(&mut self, dx: i32, dy: i32, button_mask: u32) -> std::io::Result<()>;

    /// Flush pending events if the backend buffers them; an injector that
    /// does not buffer keeps this default, which has nothing to flush and
    /// succeeds.
    fn flush(&mut self) -> (r: std::io::Result<()>)
        default_ensures
            r is Ok,
    {
        Ok(())
    }
}

} // verus!
