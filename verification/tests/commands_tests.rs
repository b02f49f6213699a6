use exit_relay::command_processor::{
    CommandProcessor, CommandProcessorFactoryReal, CommandProcessorNull, CommandProcessorReal,
};
use exit_relay::commands::{Command, CommandContext, CommandError, SetupCommand, SetupValue};
use std::cell::RefCell;
use std::rc::Rc;

struct RecordingContext {
    log: Rc<RefCell<Vec<String>>>,
}

impl CommandContext for RecordingContext {
    fn close(&mut self) {
        self.log.borrow_mut().push("close".to_string());
    }
}

struct ClosingCommand {}

impl Command for ClosingCommand {
    fn execute(&self, context: &mut Box<dyn CommandContext>) -> Result<(), CommandError> {
        context.close();
        Ok(())
    }
}

struct FailingCommand {}

impl Command for FailingCommand {
    fn execute(&self, _context: &mut Box<dyn CommandContext>) -> Result<(), CommandError> {
        Err(CommandError::Transaction("no answer".to_string()))
    }
}

#[test]
fn setup_value_holds_name_and_value() {
    let subject = SetupValue::new("dns-servers", "1.1.1.1");

    assert_eq!(subject, SetupValue::new("dns-servers", "1.1.1.1"));
    assert_ne!(subject, SetupValue::new("dns-servers", "8.8.8.8"));
    assert_ne!(subject, SetupValue::new("ip", "1.1.1.1"));
    assert_eq!(
        format!("{:?}", subject),
        "SetupValue { name: \"dns-servers\", value: \"1.1.1.1\" }"
    );
}

#[test]
fn setup_command_holds_its_values() {
    let subject = SetupCommand {
        values: vec![SetupValue::new("a", "1"), SetupValue::new("b", "2")],
    };

    assert_eq!(subject.values.len(), 2);
    assert_eq!(subject.values[1], SetupValue::new("b", "2"));
}

#[test]
fn command_error_carries_its_text() {
    let error = CommandError::Transaction("booga".to_string());

    assert_eq!(error, CommandError::Transaction("booga".to_string()));
    assert_ne!(error, CommandError::Transaction("other".to_string()));
}

#[test]
fn factory_new_is_the_default_factory() {
    assert_eq!(
        CommandProcessorFactoryReal::new(),
        CommandProcessorFactoryReal::default()
    );
}

#[test]
fn processor_carries_commands_out_through_its_context() {
    let log = Rc::new(RefCell::new(vec![]));
    let mut subject: CommandProcessorReal =
        CommandProcessorReal::new(Box::new(RecordingContext { log: log.clone() }));

    let done = subject.process(Box::new(ClosingCommand {}));
    let failed = subject.process(Box::new(FailingCommand {}));

    assert_eq!(done, Ok(()));
    assert_eq!(
        failed,
        Err(CommandError::Transaction("no answer".to_string()))
    );
    assert_eq!(*log.borrow(), vec!["close".to_string()]);
}

#[test]
fn processor_close_closes_the_context() {
    let log = Rc::new(RefCell::new(vec![]));
    let mut subject: CommandProcessorReal =
        CommandProcessorReal::new(Box::new(RecordingContext { log: log.clone() }));

    subject.close();

    assert_eq!(*log.borrow(), vec!["close".to_string()]);
}

#[test]
fn null_processor_is_a_plain_value() {
    assert_eq!(CommandProcessorNull {}, CommandProcessorNull {});
    assert_eq!(format!("{:?}", CommandProcessorNull {}), "CommandProcessorNull");
}
