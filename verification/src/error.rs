use vstd::prelude::*;

verus! {

/// Errors that the expander reports for a client definition.
#[derive(Debug, Clone, Copy, PartialEq, Eq, Structural)]
pub enum MacroError {
    /// The client definition lists no endpoint.
    NoEndpointsConfigured,
    /// The method name of the endpoint at this position is not a Rust identifier.
    InvalidMethodName(usize),
}

/// Result of an expansion step.
pub type MacroResult<T> = Result<T, MacroError>;

} // verus!
