//! What the command line asks for.

use crate::error::FunkyError;
use crate::text::same_text;
use vstd::prelude::*;

verus! {

/// What to do with formatted sources.
#[derive(Debug, Clone, Copy, PartialEq, Eq, Structural)]
pub enum Mode {
    /// Write them to the standard output.
    Print,
    /// Write them back to their files.
    InPlace,
    /// Tell which would change.
    Check,
}

/// The mode that the `--check` and `--in-place` flags select. They exclude
/// each other.
pub fn mode_of(check: bool, in_place: bool) -> (r: Result<Mode, FunkyError>)
    ensures
        match r {
            Ok(mode) => !(check && in_place) && mode == if check {
                Mode::Check
            } else if in_place {
                Mode::InPlace
            } else {
                Mode::Print
            },
            Err(e) => check && in_place && e == FunkyError::ConflictingModes,
        },
{
    if check && in_place {
        Err(FunkyError::ConflictingModes)
    } else if check {
        Ok(Mode::Check)
    } else if in_place {
        Ok(Mode::InPlace)
    } else {
        Ok(Mode::Print)
    }
}

/// What to do with one formatted source.
#[derive(Debug, Clone, Copy, PartialEq, Eq, Structural)]
pub enum Action {
    /// Nothing: it is formatted already.
    Keep,
    /// Print it.
    Print,
    /// Write it back to its file.
    Write,
    /// Report that it would change.
    Report,
}

/// The action for a source and its formatted text.
pub open spec fn action(mode: Mode, source: Seq<char>, formatted: Seq<char>) -> Action {
    match mode {
        Mode::Print => Action::Print,
        Mode::InPlace => if source == formatted {
            Action::Keep
        } else {
            Action::Write
        },
        Mode::Check => if source == formatted {
            Action::Keep
        } else {
            Action::Report
        },
    }
}

/// Decide what to do with a source once it is formatted.
pub fn action_for(mode: Mode, source: &str, formatted: &str) -> (r: Action)
    ensures
        r == action(mode, source@, formatted@),
{
    match mode {
        Mode::Print => Action::Print,
        Mode::InPlace => {
            if same_text(source, formatted) {
                Action::Keep
            } else {
                Action::Write
            }
        },
        Mode::Check => {
            if same_text(source, formatted) {
                Action::Keep
            } else {
                Action::Report
            }
        },
    }
}

/// Where the settings come from.
#[derive(Debug, Clone, Copy, PartialEq, Eq, Structural)]
pub enum SettingsSource {
    /// The file that the command line names.
    Explicit,
    /// The `funky.toml` of the working directory.
    DefaultFile,
    /// The defaults.
    Defaults,
}

/// Decide where the settings come from: the file that was named, else the
/// default file if it is there, else the defaults.
pub fn settings_source(explicit: bool, default_exists: bool) -> (r: SettingsSource)
    ensures
        r == if explicit {
            SettingsSource::Explicit
        } else if default_exists {
            SettingsSource::DefaultFile
        } else {
            SettingsSource::Defaults
        },
{
    if explicit {
        SettingsSource::Explicit
    } else if default_exists {
        SettingsSource::DefaultFile
    } else {
        SettingsSource::Defaults
    }
}

} // verus!
