//! One output pin behind the system's GPIO pseudo-files.
//!
//! Nothing here touches a file. Each operation returns the write that the
//! caller has to carry out, and the construction of a pin is a small state
//! machine that the caller drives with the outcome of each write.

use crate::text::{decimal, push_decimal};
use vstd::prelude::*;

verus! {

/// The error number with which the system refuses to export a pin that is
/// exported already.
pub const RESOURCE_BUSY: i32 = 16;

/// A logic level of the pin.
#[derive(Clone, Copy, Debug, PartialEq, Eq, Structural)]
pub enum Value {
    Low,
    High,
}

impl Value {
    /// The number that stands for the level: 0 for low, 1 for high.
    pub open spec fn encoding(self) -> nat {
        match self {
            Value::Low => 0,
            Value::High => 1,
        }
    }

    /// The text that the value file takes for this level: the decimal numeral
    /// of its encoding.
    pub fn value(self) -> (text: String)
        ensures
            text@ == decimal(self.encoding()),
    {
        let mut text = String::new();
        match self {
            Value::Low => push_decimal(&mut text, 0),
            Value::High => push_decimal(&mut text, 1),
        }
        assert(text@ =~= decimal(self.encoding()));
        text
    }
}

/// A write to a pseudo-file, for the caller to carry out: `data` replaces the
/// content of the file at `path`.
#[derive(Debug, PartialEq, Eq)]
pub struct FileWrite {
    pub path: String,
    pub data: String,
}

/// What a `FileWrite` says, as character sequences.
pub struct FileWriteView {
    pub path: Seq<char>,
    pub data: Seq<char>,
}

impl View for FileWrite {
    type V = FileWriteView;

    open spec fn view(&self) -> FileWriteView {
        FileWriteView { path: self.path@, data: self.data@ }
    }
}

impl DeepView for FileWrite {
    type V = FileWriteView;

    open spec fn deep_view(&self) -> FileWriteView {
        self@
    }
}

/// The file that exports a pin to user space.
pub open spec fn export_file() -> Seq<char> {
    "/sys/class/gpio/export"@
}

/// The control file `name` of the exported pin `pin_number`.
pub open spec fn pin_file(pin_number: u32, name: Seq<char>) -> Seq<char> {
    "/sys/class/gpio/gpio"@ + decimal(pin_number as nat) + "/"@ + name
}

/// The write that exports the pin: its number, as a decimal numeral, to the
/// export file.
pub open spec fn export_write(pin_number: u32) -> FileWriteView {
    FileWriteView { path: export_file(), data: decimal(pin_number as nat) }
}

/// The write that makes the pin an output.
pub open spec fn direction_write(pin_number: u32) -> FileWriteView {
    FileWriteView { path: pin_file(pin_number, "direction"@), data: "out"@ }
}

/// The write that drives the pin to `value`.
pub open spec fn value_write(pin_number: u32, value: Value) -> FileWriteView {
    FileWriteView { path: pin_file(pin_number, "value"@), data: decimal(value.encoding()) }
}

/// The path of the control file `name` of pin `pin_number`.
fn pin_path(pin_number: u32, name: &str) -> (path: String)
    ensures
        path@ == pin_file(pin_number, name@),
{
    let mut path = "/sys/class/gpio/gpio".to_owned();
    push_decimal(&mut path, pin_number as u64);
    path.append("/");
    path.append(name);
    path
}

/// The construction of an output pin, step by step. A caller starts with
/// `OutputPin::new`, carries out the write that `request` names, reports how
/// it went to `advance`, and goes on until `request` names none.
#[derive(Clone, Copy, Debug, PartialEq, Eq, Structural)]
pub enum Setup {
    /// The pin has yet to be exported.
    Export { pin_number: u32 },
    /// The pin is exported and has yet to be made an output.
    Direction { pin_number: u32 },
    /// The pin is an output.
    Ready { pin_number: u32 },
    /// A write failed and the construction is given up.
    Failed,
}

impl Setup {
    /// The write that the setup waits for, if any.
    pub open spec fn pending(self) -> Option<FileWriteView> {
        match self {
            Setup::Export { pin_number } => Some(export_write(pin_number)),
            Setup::Direction { pin_number } => Some(direction_write(pin_number)),
            Setup::Ready { .. } => None,
            Setup::Failed => None,
        }
    }

    /// The setup after the pending write ended with `outcome`, whose error is
    /// the system's error number, where it gave one. An export that fails
    /// because the pin is exported already counts as done; every other
    /// failure ends the construction.
    pub open spec fn after(self, outcome: Result<(), Option<i32>>) -> Setup {
        match self {
            Setup::Export { pin_number } => if outcome is Ok || outcome == Err::<(), _>(
                Some(RESOURCE_BUSY),
            ) {
                Setup::Direction { pin_number }
            } else {
                Setup::Failed
            },
            Setup::Direction { pin_number } => if outcome is Ok {
                Setup::Ready { pin_number }
            } else {
                Setup::Failed
            },
            Setup::Ready { pin_number } => Setup::Ready { pin_number },
            Setup::Failed => Setup::Failed,
        }
    }

    /// The write to carry out next; `None` once the setup is ready or has
    /// failed.
    pub fn request(&self) -> (write: Option<FileWrite>)
        ensures
            write.is_some() == self.pending().is_some(),
            write matches Some(w) ==> Some(w@) == self.pending(),
    {
        match *self {
            Setup::Export { pin_number } => {
                let path = "/sys/class/gpio/export".to_owned();
                let mut data = String::new();
                push_decimal(&mut data, pin_number as u64);
                assert(data@ =~= decimal(pin_number as nat));
                Some(FileWrite { path, data })
            },
            Setup::Direction { pin_number } => {
                Some(FileWrite { path: pin_path(pin_number, "direction"), data: "out".to_owned() })
            },
            Setup::Ready { .. } => None,
            Setup::Failed => None,
        }
    }

    /// Takes the outcome of the pending write and moves on.
    pub fn advance(self, outcome: Result<(), Option<i32>>) -> (next: Setup)
        ensures
            next == self.after(outcome),
    {
        match self {
            Setup::Export { pin_number } => match outcome {
                Ok(()) => Setup::Direction { pin_number },
                Err(Some(number)) => if number == RESOURCE_BUSY {
                    Setup::Direction { pin_number }
                } else {
                    Setup::Failed
                },
                Err(None) => Setup::Failed,
            },
            Setup::Direction { pin_number } => match outcome {
                Ok(()) => Setup::Ready { pin_number },
                Err(_) => Setup::Failed,
            },
            Setup::Ready { pin_number } => Setup::Ready { pin_number },
            Setup::Failed => Setup::Failed,
        }
    }

    /// The pin, once the setup is ready.
    pub fn finish(self) -> (pin: Option<OutputPin>)
        ensures
            pin.is_some() == (self is Ready),
            pin matches Some(p) ==> self == (Setup::Ready { pin_number: p.number() }),
    {
        match self {
            Setup::Ready { pin_number } => Some(OutputPin { pin_number }),
            _ => None,
        }
    }
}

/// An exported pin that is an output.
#[derive(Debug)]
pub struct OutputPin {
    pin_number: u32,
}

impl OutputPin {
    /// The number of the pin.
    pub closed spec fn number(&self) -> u32 {
        self.pin_number
    }

    /// Begins the construction of the output pin `pin_number`.
    pub fn new(pin_number: u32) -> (setup: Setup)
        ensures
            setup == (Setup::Export { pin_number }),
    {
        Setup::Export { pin_number }
    }

    /// The number of the pin.
    pub fn pin_number(&self) -> (n: u32)
        ensures
            n == self.number(),
    {
        self.pin_number
    }

    /// The write that drives the pin to `value`.
    pub fn set_value(&self, value: Value) -> (write: FileWrite)
        ensures
            write@ == value_write(self.number(), value),
    {
        FileWrite { path: pin_path(self.pin_number, "value"), data: value.value() }
    }
}

} // verus!
