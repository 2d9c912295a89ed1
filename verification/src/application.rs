use vstd::prelude::*;

verus! {

/// Describes at what application stage a unit system bundle is run
#[derive(Copy, Clone, Debug, PartialEq, Eq, Structural)]
pub enum UnitStage {
    /// Run once at initialization of the application
    Init,
    /// Run at the start of every frame
    StartFrame,
    /// Run every frame, precedes `UnitStage::Render`
    Logic,
    /// Run every frame, succeeds `UnitStage::Logic`
    Render,
    /// Run at the end of every frame
    EndFrame,
}

} // verus!
