use vstd::prelude::*;

pub mod error;
pub mod math;
pub mod principal;
pub mod registry;
pub mod ledger;
pub mod pool;
pub mod vault;
pub mod accounting;
pub mod compound;
