use vstd::prelude::*;

verus! {

#[derive(Clone, Copy, Debug, PartialEq, Eq, Structural)]
pub enum NetworkError {
    GenericError,
    Shutdown,
    Disconnected,
}

#[derive(Clone, Copy, Debug, PartialEq, Eq, Structural)]
pub enum ChaosError {
    GameError,
    IOError,
    NetworkError,
    Quit,
}

} // verus!
