use vstd::prelude::*;

pub mod chain;
pub mod fabrik;
pub mod skeleton;
pub mod strip;
