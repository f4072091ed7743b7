use vstd::prelude::*;

pub mod burst;
pub mod decimal;
pub mod recoil;
pub mod wire;

verus! {

} // verus!
