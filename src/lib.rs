//! Runtime core of a frame-driven interactive client: analog deadzones,
//! input edge tracking, the frame clock and the interactive-mode director.

pub mod deadzone;
pub mod input;
pub mod gamepad;
pub mod clock;
pub mod mode;
pub mod application;
