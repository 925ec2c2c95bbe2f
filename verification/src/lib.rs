//! Core of an interactive terminal chat client.
//!
//! The client captures keystrokes, keeps the conversation and the state of its
//! interface, sends one request at a time to a remote agent, and shows the
//! answers as a scrollable transcript with a fuzzy-searchable command palette.
//! This crate holds what decides: it reads no terminal, opens no socket and
//! draws nothing.
//!
//! - [`actions`]: the closed set of intents.
//! - [`events`]: the key mapper, from a key event and three flags to an intent.
//! - [`state`]: the state and its invariants.
//! - [`commands`]: the command registry and the palette's fuzzy filter.
//! - [`app`]: the dispatcher, from state and intent to the next state and the
//!   request to send, and the laws it obeys.
//! - [`services`], [`backend`], [`git`]: command normalization and the texts
//!   made of what the outside world answers.
//! - [`markdown`], [`ui`]: what a renderer needs decided before it draws.
//! - [`text`]: byte offsets, trimming and the other string primitives.

pub mod actions;
pub mod app;
pub mod backend;
pub mod commands;
pub mod events;
pub mod git;
pub mod markdown;
pub mod services;
pub mod state;
pub mod text;
pub mod ui;
