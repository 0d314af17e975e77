use vstd::prelude::*;

verus! {

/// Why a loader or a network cannot be configured.
#[derive(Debug, Clone, Copy, PartialEq, Eq, Structural)]
pub enum ConfigError {
    /// A batch must hold at least one sample.
    ZeroBatchSize,
    /// A network needs at least its input layer.
    NoLayers,
}

} // verus!
