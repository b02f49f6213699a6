//! The commands that the command line sends to a node.
use vstd::prelude::*;

verus! {

/// Why a command could not be carried out.
#[derive(Debug, PartialEq, Eq)]
pub enum CommandError {
    /// The exchange with the node failed; the text says how.
    Transaction(String),
}

/// The channel to the node through which a command is carried out.
pub trait CommandContext {
    /// Closes the channel.
    fn close(&mut self);
}

/// Something that the command line can ask of a node.
pub trait Command {
    /// Carries the command out through `context`.
    fn execute(&self, context: &mut Box<dyn CommandContext>) -> Result<(), CommandError>;
}

/// The name of a setup parameter and the value to give it.
#[derive(Debug, PartialEq, Eq)]
pub struct SetupValue {
    name: String,
    value: String,
}

impl SetupValue {
    /// The pair of `name` and `value`.
    pub fn new(name: &str, value: &str) -> (pair: SetupValue)
        ensures
            pair.name() == name@,
            pair.value() == value@,
    {
        SetupValue { name: name.to_string(), value: value.to_string() }
    }

    /// The name of the parameter.
    pub closed spec fn name(&self) -> Seq<char> {
        self.name@
    }

    /// The value for the parameter.
    pub closed spec fn value(&self) -> Seq<char> {
        self.value@
    }
}

/// The command that sets setup parameters of a node.
#[derive(Debug, PartialEq, Eq)]
pub struct SetupCommand {
    pub values: Vec<SetupValue>,
}

} // verus!
