//! The commands and options of the command-line front end, as plain values.

use vstd::prelude::*;

verus! {

/// A parsed command line.
#[derive(Debug)]
pub struct Cli {
    pub command: Command,
}

/// What the user asked for.
#[derive(Debug)]
pub enum Command {
    /// Print an input file to a thermal printer.
    Print(PrintArgs),
    /// List or test available printers.
    Printers(PrintersArgs),
    /// Run local diagnostics.
    Doctor(DoctorArgs),
    /// Show the version.
    Version,
}

/// Options of `print`.
#[derive(Debug)]
pub struct PrintArgs {
    /// Path to the input file.
    pub input: String,
    /// Printer selector: discovered id/name, usb://VID:PID, tcp://host:port, or host:port.
    pub printer: String,
    /// Paper width profile.
    pub paper: PaperArg,
    /// Forced input type.
    pub input_type: Option<InputTypeArg>,
    /// Cutting at the end was asked for explicitly.
    pub cut: bool,
    /// Cutting at the end was turned off.
    pub no_cut: bool,
    /// Number of copies.
    pub copies: u16,
    /// Emit machine-readable JSON output.
    pub json: bool,
}

impl PrintArgs {
    /// Whether the print ends with a cut: it does unless `--no-cut` was given.
    pub fn cut_enabled(&self) -> (r: bool)
        ensures
            r == !self.no_cut,
    {
        if self.no_cut {
            return false;
        }
        if self.cut {
            return true;
        }
        true
    }
}

/// Options of `printers`.
#[derive(Debug)]
pub struct PrintersArgs {
    pub command: PrintersCommand,
}

/// The subcommands of `printers`.
#[derive(Debug)]
pub enum PrintersCommand {
    /// List discoverable printers.
    List(ListPrintersArgs),
    /// Send a small connectivity test payload.
    Test(TestPrinterArgs),
}

/// Options of `printers list`.
#[derive(Debug)]
pub struct ListPrintersArgs {
    pub json: bool,
}

/// Options of `printers test`.
#[derive(Debug)]
pub struct TestPrinterArgs {
    pub printer: String,
    pub json: bool,
}

/// Options of `doctor`.
#[derive(Debug)]
pub struct DoctorArgs {
    pub json: bool,
}

/// Paper width chosen on the command line.
#[derive(Copy, Clone, Debug, PartialEq, Eq, Structural)]
pub enum PaperArg {
    Mm58,
    Mm80,
}

/// Input type forced on the command line.
#[derive(Copy, Clone, Debug, PartialEq, Eq, Structural)]
pub enum InputTypeArg {
    Image,
    Markdown,
    Text,
}

} // verus!
