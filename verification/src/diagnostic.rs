use vstd::prelude::*;

verus! {

/// One diagnostic bound for the error stream: the line it concerns, a
/// location note (empty, or the offending token), and a message.
#[derive(Debug)]
pub struct Diagnostic {
    pub line: u64,
    pub location: String,
    pub message: String,
}

/// Mathematical model of a diagnostic.
pub struct DiagnosticV {
    pub line: u64,
    pub location: Seq<char>,
    pub message: Seq<char>,
}

impl View for Diagnostic {
    type V = DiagnosticV;

    open spec fn view(&self) -> DiagnosticV {
        DiagnosticV { line: self.line, location: self.location@, message: self.message@ }
    }
}

/// The model of a vector of diagnostics.
pub open spec fn diags_view(v: Seq<Diagnostic>) -> Seq<DiagnosticV> {
    v.map_values(|d: Diagnostic| d@)
}

} // verus!
