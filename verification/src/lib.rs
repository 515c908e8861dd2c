//! Verified core of a small VNC server: client bookkeeping and access
//! control, pointer button remapping, input event queues, an RGB24 screen
//! model, and the parsers for the server's option strings.

pub mod text;
pub mod pointer;
pub mod userinput;
pub mod safe_utils;
pub mod screen;
pub mod inject;
pub mod connections;
pub mod event_loop;
pub mod options;
pub mod xi2;
pub mod x11;
pub mod uinput;
