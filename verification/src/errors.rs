use vstd::prelude::*;

verus! {

/// The failure taxonomy of the run.
///
/// Data-integrity errors are fatal and end the run; generation cutoffs and
/// transport problems abort only the series in which they occur.
#[derive(Debug)]
pub enum TlError {
    /// A duplicate `(tail, head)` dependency edge: a data-integrity violation.
    DuplicateEdge,
    /// An edge endpoint that is not among the enumerated thread keys.
    UnknownThread,
    /// Some node has no path of finite cost from the root.
    Unreachable,
    /// A speaker label that the roster cannot decode; carries the label.
    UnknownSpeaker(String),
    /// The generation service stopped on its length limit; carries the partial text.
    GenerationCutoff(String),
    /// The generation service returned text that does not start with the
    /// required speaker prefix.
    MalformedResponse,
}

impl TlError {
    /// Whether this error ends the whole run (a data-integrity violation)
    /// rather than only the series in which it occurred.
    pub fn is_fatal(&self) -> (r: bool)
        ensures
            r == self.spec_is_fatal(),
    {
        match self {
            TlError::DuplicateEdge => true,
            TlError::UnknownThread => true,
            TlError::Unreachable => true,
            TlError::UnknownSpeaker(_) => true,
            TlError::GenerationCutoff(_) => false,
            TlError::MalformedResponse => false,
        }
    }

    pub open spec fn spec_is_fatal(&self) -> bool {
        match self {
            TlError::DuplicateEdge => true,
            TlError::UnknownThread => true,
            TlError::Unreachable => true,
            TlError::UnknownSpeaker(_) => true,
            TlError::GenerationCutoff(_) => false,
            TlError::MalformedResponse => false,
        }
    }

    /// The operator-facing description of this error.
    pub open spec fn spec_message(&self) -> Seq<char> {
        match self {
            TlError::DuplicateEdge => "duplicate dependency edge"@,
            TlError::UnknownThread => "unknown thread key"@,
            TlError::Unreachable => "a thread has no path from the root"@,
            TlError::UnknownSpeaker(s) => "unrecognized speaker: "@ + s@,
            TlError::GenerationCutoff(t) => "maximum number of tokens reached: "@ + t@,
            TlError::MalformedResponse => "malformed service response"@,
        }
    }

    /// Renders the error for the operator-facing stream.
    pub fn message(&self) -> (r: String)
        ensures
            r@ == self.spec_message(),
    {
        match self {
            TlError::DuplicateEdge => String::from_str("duplicate dependency edge"),
            TlError::UnknownThread => String::from_str("unknown thread key"),
            TlError::Unreachable => String::from_str("a thread has no path from the root"),
            TlError::UnknownSpeaker(s) => String::from_str("unrecognized speaker: ").concat(
                s.as_str(),
            ),
            TlError::GenerationCutoff(t) => String::from_str(
                "maximum number of tokens reached: ",
            ).concat(t.as_str()),
            TlError::MalformedResponse => String::from_str("malformed service response"),
        }
    }
}

} // verus!
