//! Core logic of a hold-to-dictate hotkey pipeline.
//!
//! While a configured modifier key is held, audio is recorded; on release the
//! recording is enhanced, encoded as 16-bit PCM, transcribed by a remote
//! service, optionally rewritten by a text-polishing service, and delivered
//! through the clipboard with a synthesized paste keystroke.
//!
//! This crate holds the verified decision logic: the key-edge state machine,
//! the fixed-point signal enhancement, the PCM container encoder, the
//! response and request handling of the two remote services, and the
//! orchestration rules. Device, network and window-system work lives outside.

pub mod delivery;
pub mod enhance;
pub mod keys;
pub mod orchestrator;
pub mod text;
pub mod wav;
