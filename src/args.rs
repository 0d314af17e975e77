use vstd::prelude::*;

use crate::neural_net::{ActivationFunction, InitMethod};

verus! {

/// What the command line asks for.
#[derive(Debug, Clone)]
pub enum Command {
    Train {
        /// File containing training samples.
        sample_file: String,
        /// Hidden layer sizes, in order.
        hidden_layers: Vec<usize>,
        batch_size: usize,
        activation: CliActivationFunction,
        init_method: CliInitMethod,
    },
    Test,
}

/// The activation functions that can be named on the command line.
#[derive(Debug, Clone, Copy, PartialEq, Eq, Structural)]
pub enum CliActivationFunction {
    Sigmoid,
    Tanh,
    ReLU,
}

/// The initialisation methods that can be named on the command line.
#[derive(Debug, Clone, Copy, PartialEq, Eq, Structural)]
pub enum CliInitMethod {
    LeCunn,
    Glorot,
    He,
}

pub open spec fn activation_of(cli: CliActivationFunction) -> ActivationFunction {
    match cli {
        CliActivationFunction::Sigmoid => ActivationFunction::Sigmoid,
        CliActivationFunction::Tanh => ActivationFunction::Tanh,
        CliActivationFunction::ReLU => ActivationFunction::ReLU,
    }
}

pub open spec fn init_method_of(cli: CliInitMethod) -> InitMethod {
    match cli {
        CliInitMethod::LeCunn => InitMethod::LeCunn,
        CliInitMethod::Glorot => InitMethod::Glorot,
        CliInitMethod::He => InitMethod::He,
    }
}

impl From<CliActivationFunction> for ActivationFunction {
    fn from(cli: CliActivationFunction) -> (r: Self)
        ensures
            r == activation_of(cli),
    {
        match cli {
            CliActivationFunction::Sigmoid => ActivationFunction::Sigmoid,
            CliActivationFunction::Tanh => ActivationFunction::Tanh,
            CliActivationFunction::ReLU => ActivationFunction::ReLU,
        }
    }
}

impl vstd::std_specs::convert::FromSpecImpl<CliActivationFunction> for ActivationFunction {
    open spec fn obeys_from_spec() -> bool {
        true
    }

    open spec fn from_spec(cli: CliActivationFunction) -> Self {
        activation_of(cli)
    }
}

impl From<CliInitMethod> for InitMethod {
    fn from(cli: CliInitMethod) -> (r: Self)
        ensures
            r == init_method_of(cli),
    {
        match cli {
            CliInitMethod::LeCunn => InitMethod::LeCunn,
            CliInitMethod::Glorot => InitMethod::Glorot,
            CliInitMethod::He => InitMethod::He,
        }
    }
}

impl vstd::std_specs::convert::FromSpecImpl<CliInitMethod> for InitMethod {
    open spec fn obeys_from_spec() -> bool {
        true
    }

    open spec fn from_spec(cli: CliInitMethod) -> Self {
        init_method_of(cli)
    }
}

} // verus!
