//! Decision logic of a Windows tray tool that pins the input method to one mode.
//!
//! Every procedure of the tool is a resumable machine. It names the next call that it wants
//! from the platform ([`call::Call`]), takes the answer ([`call::Reply`]) and goes on. What a
//! machine asks, in which order and with which result, is stated by a ghost
//! [`script::Script`] and proved of the executable code.

pub mod call;
pub mod clock;
pub mod convert;
pub mod courses;
pub mod defime;
pub mod detect;
pub mod enforce;
pub mod hotkey;
pub mod laws;
pub mod layout;
pub mod mode;
pub mod pace;
pub mod resources;
pub mod script;
pub mod shift;
pub mod text;
pub mod watch;
