//! What rendering reports without failing.

use vstd::prelude::*;
use vstd::string::*;

verus! {

/// The mathematical value of a diagnostic.
pub ghost enum Notice {
    /// Under `parent`, a second child called `child` was left out.
    DuplicateField { parent: Seq<char>, child: Seq<char> },
    /// The integer column `column` held no integer and was written as 0.
    LossyCoercion { column: Seq<char> },
}

/// A condition that is reported and does not stop the import.
#[derive(Debug, PartialEq, Eq)]
pub enum Diagnostic {
    /// Under `parent`, a second child called `child` was left out.
    DuplicateField { parent: String, child: String },
    /// The integer column `column` held no integer and was written as 0.
    LossyCoercion { column: String },
}

impl View for Diagnostic {
    type V = Notice;

    open spec fn view(&self) -> Notice {
        match self {
            Diagnostic::DuplicateField { parent, child } => Notice::DuplicateField {
                parent: parent@,
                child: child@,
            },
            Diagnostic::LossyCoercion { column } => Notice::LossyCoercion { column: column@ },
        }
    }
}

/// The values of a sequence of diagnostics.
pub open spec fn notices_of(diagnostics: Seq<Diagnostic>) -> Seq<Notice> {
    Seq::new(diagnostics.len(), |i: int| diagnostics[i]@)
}

/// The line that reports `notice`.
pub open spec fn message_text(notice: Notice) -> Seq<char> {
    match notice {
        Notice::DuplicateField { parent, child } => "ERROR: Multiple "@ + child + " inside "@
            + parent,
        Notice::LossyCoercion { column } => "WARNING: No integer in "@ + column
            + ", written as 0"@,
    }
}

impl Diagnostic {
    /// The line that reports this diagnostic.
    pub fn message(&self) -> (line: String)
        ensures
            line@ == message_text(self@),
    {
        match self {
            Diagnostic::DuplicateField { parent, child } => {
                let mut line = String::from_str("ERROR: Multiple ");
                line.append(child.as_str());
                line.append(" inside ");
                line.append(parent.as_str());
                line
            },
            Diagnostic::LossyCoercion { column } => {
                let mut line = String::from_str("WARNING: No integer in ");
                line.append(column.as_str());
                line.append(", written as 0");
                line
            },
        }
    }
}

} // verus!
