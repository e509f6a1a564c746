use vstd::prelude::*;

pub mod acquisition;
pub mod binary64;
pub mod calibration;
pub mod config;
pub mod daemon;
pub mod device;
pub mod edit;
pub mod export;
pub mod frequency;
pub mod graph;
pub mod json;
pub mod model;
pub mod paths;
pub mod protocol;
pub mod recipe;
pub mod scan;
pub mod service;
pub mod session;
pub mod terminal;
pub mod text;

verus! {

}
