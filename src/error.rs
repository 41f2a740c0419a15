use vstd::prelude::*;
use crate::value::ValueError;

verus! {

/// Everything that graph operations can fail with.
#[derive(Clone, Copy, Debug, PartialEq, Eq, Structural)]
pub enum TaskError {
    /// A template with this id is already registered.
    IdAlreadyExists,
    /// No template with this id is registered.
    NodeNotFound,
    /// No instance with this handle exists in the task.
    InstanceNotFound,
    /// The template declares no input port of this name.
    InputArgNotFound,
    /// The template declares no output port of this name.
    OutputArgNotFound,
    /// The two ports carry different value types.
    IncompatibleTypes,
    /// The connection would close a dependency cycle.
    Cycle,
    /// The two records of one connection disagree.
    CorruptedConnection,
    /// Some required input port has no connection.
    NotAllConnected,
    /// An upstream instance has not produced its outputs yet.
    ResultNotFound,
    /// An upstream instance produced no value for the port that is read.
    ArgumentNotFound,
    /// A node read a value of the wrong type, or missed an input.
    Value(ValueError),
    /// A node was invoked without an input that it needs.
    MissingInput,
}

} // verus!
