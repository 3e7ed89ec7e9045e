//! Verified core of the Fractal Matrix client.
#![allow(unused_imports)]

pub mod account;
pub mod api;
pub mod appop;
pub mod avatar;
pub mod history;
pub mod backend;
pub mod directory;
pub mod json;
pub mod login;
pub mod markup;
pub mod members;
pub mod room_history;
pub mod rooms;
pub mod message;
pub mod notify;
pub mod order;
pub mod outbox;
pub mod requests;
pub mod seqs;
pub mod sidebar;
pub mod sync;
pub mod text;
pub mod types;
pub mod viewer;
pub mod widgets;
