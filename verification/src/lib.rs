//! Decisions and pixel work behind a four-finger swipe between virtual
//! terminals: which terminal a swipe leads to, how screen images are read,
//! converted, composed into slide frames and drawn, how an X server is
//! recognised and its cookie read, and in which order a device is driven.
//!
//! Nothing here touches a device. The program around this library performs
//! the I/O and hands over plain values.

pub mod console_mode;
pub mod fb;
pub mod gesture;
pub mod history;
pub mod kms;
pub mod outputs;
pub mod snapshot;
pub mod switching;
pub mod text;
pub mod transition;
pub mod vt;
pub mod xauth;
pub mod xcapture;
pub mod xserver;
