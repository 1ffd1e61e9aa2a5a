//! The result of any command, how it is printed, and the command-line
//! choices of output format and init mode.

use vstd::prelude::*;
use crate::commands::compact::{compact_output_text, CompactOutput};
use crate::commands::create::{create_output_text, CreateOutput};
use crate::commands::delete::{delete_output_text, DeleteOutput};
use crate::commands::fork::{fork_output_text, ForkOutput};
use crate::commands::list::{list_output_text, ListOutput};
use crate::commands::psql::{psql_output_text, PsqlOutput};
use crate::commands::schedule::{schedule_output_text, ScheduleOutput};
use crate::commands::show::{show_output_text, ShowOutput};
use crate::commands::start::{start_output_text, StartOutput};
use crate::commands::stop::{stop_output_text, StopOutput};
use crate::config::InitMode;

verus! {

/// The result of a command.
pub enum Outputs {
    List(ListOutput),
    Create(CreateOutput),
    Psql(PsqlOutput),
    Show(ShowOutput),
    Fork(ForkOutput),
    Delete(DeleteOutput),
    Start(StartOutput),
    Stop(StopOutput),
    Compact(CompactOutput),
    Schedule(ScheduleOutput),
}

/// The text printed for a command's result.
pub open spec fn outputs_text(o: Outputs) -> Seq<char> {
    match o {
        Outputs::List(x) => list_output_text(x),
        Outputs::Create(x) => create_output_text(x),
        Outputs::Psql(x) => psql_output_text(x),
        Outputs::Show(x) => show_output_text(x),
        Outputs::Fork(x) => fork_output_text(x),
        Outputs::Delete(x) => delete_output_text(x),
        Outputs::Start(x) => start_output_text(x),
        Outputs::Stop(x) => stop_output_text(x),
        Outputs::Compact(x) => compact_output_text(x),
        Outputs::Schedule(x) => schedule_output_text(x),
    }
}

impl Outputs {
    /// The text printed for the result.
    pub fn to_text(&self) -> (r: String)
        ensures
            r@ == outputs_text(*self),
    {
        match self {
            Outputs::List(x) => x.to_text(),
            Outputs::Create(x) => x.to_text(),
            Outputs::Psql(x) => x.to_text(),
            Outputs::Show(x) => x.to_text(),
            Outputs::Fork(x) => x.to_text(),
            Outputs::Delete(x) => x.to_text(),
            Outputs::Start(x) => x.to_text(),
            Outputs::Stop(x) => x.to_text(),
            Outputs::Compact(x) => x.to_text(),
            Outputs::Schedule(x) => x.to_text(),
        }
    }
}

/// How results are printed.
#[derive(Copy, Clone, Debug, PartialEq, Eq, Structural)]
pub enum OutputFormat {
    Text,
    Json,
}

/// The init mode as chosen on the command line.
#[derive(Copy, Clone, Debug, PartialEq, Eq, Structural)]
pub enum InitModeArg {
    Standard,
    Cnpg,
}

/// The init mode a command-line choice selects.
pub open spec fn init_mode_of(v: InitModeArg) -> InitMode {
    match v {
        InitModeArg::Standard => InitMode::Standard,
        InitModeArg::Cnpg => InitMode::Cnpg,
    }
}

impl InitModeArg {
    /// The init mode this choice selects.
    pub fn to_init_mode(self) -> (r: InitMode)
        ensures
            r == init_mode_of(self),
    {
        match self {
            InitModeArg::Standard => InitMode::Standard,
            InitModeArg::Cnpg => InitMode::Cnpg,
        }
    }
}

} // verus!
