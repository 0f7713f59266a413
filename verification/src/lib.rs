//! A verified core for a small HTTP relay that forwards text prompts to a
//! chat-completion provider and returns the generated text.
//!
//! The library holds everything the relay decides or computes: assembling the
//! instruction sent upstream, serializing the outbound request body, parsing
//! the provider's JSON reply, extracting `choices[0].message.content`, the
//! error taxonomy, and the cross-origin access policy.  The surrounding
//! process (HTTP listener, environment lookup, the outbound call itself) hands
//! this library plain values and performs what it plans.

pub mod cors;
pub mod json;
pub mod parse;
pub mod relay;
pub mod text;
