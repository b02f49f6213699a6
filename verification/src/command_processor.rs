//! What carries commands to a node.
use crate::commands::{Command, CommandContext, CommandError};
use vstd::prelude::*;

verus! {

/// Something that carries commands out, one after the other.
pub trait CommandProcessor {
    /// Carries `command` out and says how that went.
    fn process(&mut self, command: Box<dyn Command>) -> Result<(), CommandError>;

    /// Closes the channel to the node.
    fn close(&mut self);
}

/// Something that makes a command processor from the arguments of the
/// command line.
pub trait CommandProcessorFactory {
    /// The processors that this factory makes.
    type Processor: CommandProcessor;

    /// Makes the processor that `args` ask for.
    fn make(&self, args: &[String]) -> Self::Processor;
}

/// The factory of processors that talk to a node.
#[derive(Debug, PartialEq, Eq)]
pub struct CommandProcessorFactoryReal {}

impl CommandProcessorFactoryReal {
    pub fn new() -> (factory: CommandProcessorFactoryReal)
        ensures
            factory == (CommandProcessorFactoryReal {  }),
    {
        CommandProcessorFactoryReal {  }
    }
}

impl Default for CommandProcessorFactoryReal {
    fn default() -> (factory: CommandProcessorFactoryReal)
        ensures
            factory == (CommandProcessorFactoryReal {  }),
    {
        CommandProcessorFactoryReal {  }
    }
}

/// The processor that carries commands out through a channel to the node.
/// The channel may be of any type; commands are carried out through a boxed
/// one.
pub struct CommandProcessorReal<C = Box<dyn CommandContext>> {
    context: C,
}

impl<C> CommandProcessorReal<C> {
    /// The channel that the processor works through.
    pub closed spec fn context(&self) -> C {
        self.context
    }

    /// The processor that works through `context`.
    pub fn new(context: C) -> (processor: CommandProcessorReal<C>)
        ensures
            processor.context() == context,
    {
        CommandProcessorReal { context }
    }
}

impl CommandProcessor for CommandProcessorReal<Box<dyn CommandContext>> {
    /// Lets `command` do its work through the channel of the processor. The
    /// result is the command's.
    fn process(&mut self, command: Box<dyn Command>) -> Result<(), CommandError> {
        command.execute(&mut self.context)
    }

    /// Closes the channel of the processor.
    fn close(&mut self) {
        self.context.close();
    }
}

/// Stands where a processor is needed before one can be made. It has no
/// channel to a node and carries nothing out.
#[derive(Debug, PartialEq, Eq)]
pub struct CommandProcessorNull {}

} // verus!
