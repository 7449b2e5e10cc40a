//! Turns heavy web pages into the few tokens a language model needs.

use vstd::prelude::*;

pub use crate::pipeline::{
    distill_html, Diagnostics, DistillOptions, Distilled, JsMode, Profile, Stats,
};

pub mod actions;
pub mod budget;
pub mod cache;
pub mod clock;
pub mod convert;
pub mod dom;
pub mod error;
pub mod extract;
pub mod fetch;
pub mod output;
pub mod pipeline;
pub mod planner;
pub mod registry;
pub mod render;
pub mod request;
pub mod robots;
pub mod session;
pub mod settings;
pub mod span;
pub mod structured;
pub mod table;
pub mod text;
pub mod tokens;
pub mod weburl;

verus! {

} // verus!
