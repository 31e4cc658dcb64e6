//! The error taxonomy shared by the scanner, the parser and the interpreter,
//! and the human-readable rendering of each kind.

use vstd::prelude::*;

use crate::location::{Location, LocationModel};
use crate::numbers::{dec_rep, push_dec};

verus! {

use vstd::string::StringExecFns;

/// Every failure the pipeline can report: grammar violations found while
/// scanning or parsing, semantic violations found while evaluating, output
/// failures, and internal invariant violations.
#[derive(Debug)]
pub enum LoxError {
    SyntaxError(Location, String),
    RuntimeError(Location, String),
    Syscall(Location, String),
    Critical(String),
}

/// The mathematical model of an error: its kind, place and message text.
pub enum ErrorModel {
    Syntax(LocationModel, Seq<char>),
    Runtime(LocationModel, Seq<char>),
    Syscall(LocationModel, Seq<char>),
    Critical(Seq<char>),
}

/// The diagnostic text of a location.
pub open spec fn location_text(m: LocationModel) -> Seq<char> {
    match m {
        LocationModel::Unknown => "Unknown location."@,
        LocationModel::Eof(f) => "Error at -> "@ + f + " end of file."@,
        LocationModel::Line(f, n) => "Error at -> "@ + f + ":"@ + dec_rep(n),
    }
}

/// The diagnostic text of an error.
pub open spec fn error_text(m: ErrorModel) -> Seq<char> {
    match m {
        ErrorModel::Syntax(loc, msg) => "Syntax Error\n"@ + msg + "\nLocation @ "@ + location_text(
            loc,
        ),
        ErrorModel::Runtime(loc, msg) => "Runtime Error\n"@ + msg + "\nLocation @ "@
            + location_text(loc),
        ErrorModel::Syscall(loc, msg) => "SysCall Error\n"@ + msg + "\nLocation @ "@
            + location_text(loc),
        ErrorModel::Critical(msg) => "\nCritical Error\n"@ + msg
            + "\nNo location can be determined."@,
    }
}

impl Location {
    /// The diagnostic text of this location.
    pub fn render(&self) -> (r: String)
        ensures
            r@ == location_text(self.model()),
    {
        let mut out = String::new();
        match self {
            Location::Unknown => {
                out.append("Unknown location.");
            },
            Location::Eof(f) => {
                out.append("Error at -> ");
                out.append(f.as_str());
                out.append(" end of file.");
            },
            Location::Line(f, n) => {
                out.append("Error at -> ");
                out.append(f.as_str());
                out.append(":");
                push_dec(*n as u64, &mut out);
            },
        }
        proof {
            assert(out@ =~= location_text(self.model()));
        }
        out
    }
}

impl LoxError {
    /// The model of this error, with strings taken to their views.
    pub open spec fn model(self) -> ErrorModel {
        match self {
            LoxError::SyntaxError(loc, msg) => ErrorModel::Syntax(loc.model(), msg@),
            LoxError::RuntimeError(loc, msg) => ErrorModel::Runtime(loc.model(), msg@),
            LoxError::Syscall(loc, msg) => ErrorModel::Syscall(loc.model(), msg@),
            LoxError::Critical(msg) => ErrorModel::Critical(msg@),
        }
    }

    /// An output-failure error at the given file and line.
    pub fn new_syscall(filename: &str, line: usize, syscall_error: String) -> (r: LoxError)
        ensures
            r.model() == ErrorModel::Syscall(
                LocationModel::Line(filename@, line as nat),
                syscall_error@,
            ),
    {
        let location = Location::Line(String::from_str(filename), line);
        LoxError::Syscall(location, syscall_error)
    }

    /// The diagnostic text of this error.
    pub fn render(&self) -> (r: String)
        ensures
            r@ == error_text(self.model()),
    {
        let mut out = String::new();
        match self {
            LoxError::SyntaxError(loc, msg) => {
                out.append("Syntax Error\n");
                out.append(msg.as_str());
                out.append("\nLocation @ ");
                let loc_text = loc.render();
                out.append(loc_text.as_str());
            },
            LoxError::RuntimeError(loc, msg) => {
                out.append("Runtime Error\n");
                out.append(msg.as_str());
                out.append("\nLocation @ ");
                let loc_text = loc.render();
                out.append(loc_text.as_str());
            },
            LoxError::Syscall(loc, msg) => {
                out.append("SysCall Error\n");
                out.append(msg.as_str());
                out.append("\nLocation @ ");
                let loc_text = loc.render();
                out.append(loc_text.as_str());
            },
            LoxError::Critical(msg) => {
                out.append("\nCritical Error\n");
                out.append(msg.as_str());
                out.append("\nNo location can be determined.");
            },
        }
        proof {
            assert(out@ =~= error_text(self.model()));
        }
        out
    }
}

impl Clone for LoxError {
    fn clone(&self) -> (r: Self)
        ensures
            r == *self,
    {
        match self {
            LoxError::SyntaxError(loc, msg) => LoxError::SyntaxError(loc.clone(), msg.clone()),
            LoxError::RuntimeError(loc, msg) => LoxError::RuntimeError(loc.clone(), msg.clone()),
            LoxError::Syscall(loc, msg) => LoxError::Syscall(loc.clone(), msg.clone()),
            LoxError::Critical(msg) => LoxError::Critical(msg.clone()),
        }
    }
}

impl PartialEq for LoxError {
    fn eq(&self, other: &Self) -> (r: bool) {
        match (self, other) {
            (LoxError::SyntaxError(la, ma), LoxError::SyntaxError(lb, mb)) => *la == *lb && *ma
                == *mb,
            (LoxError::RuntimeError(la, ma), LoxError::RuntimeError(lb, mb)) => *la == *lb && *ma
                == *mb,
            (LoxError::Syscall(la, ma), LoxError::Syscall(lb, mb)) => *la == *lb && *ma == *mb,
            (LoxError::Critical(ma), LoxError::Critical(mb)) => *ma == *mb,
            _ => false,
        }
    }
}

impl Eq for LoxError {}

impl vstd::std_specs::cmp::PartialEqSpecImpl for LoxError {
    open spec fn obeys_eq_spec() -> bool {
        true
    }

    open spec fn eq_spec(&self, other: &Self) -> bool {
        self.model() == other.model()
    }
}

} // verus!
