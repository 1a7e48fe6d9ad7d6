use vstd::prelude::*;

pub mod app;
pub mod cli;
pub mod export;
pub mod input;
pub mod markdown_events;
pub mod parser;
pub mod render;
pub mod paths;
pub mod server;
pub mod slide;
pub mod text;

verus! {

} // verus!
