//! Error type of the library.
use vstd::prelude::*;
use vstd::string::StringExecFns;

verus! {

/// Errors reported by the library.
#[derive(Debug)]
pub enum FerrioxError {
    /// CUDA error.
    Cuda(String),
    /// Invalid parameter.
    InvalidParam(String),
    /// Unsupported configuration.
    Unsupported(String),
    /// Kernel launch failed.
    KernelLaunch(String),
}

/// The rendered text of an error: a fixed prefix per variant, then its message.
pub open spec fn error_text(e: FerrioxError) -> Seq<char> {
    match e {
        FerrioxError::Cuda(s) => "CUDA error: "@ + s@,
        FerrioxError::InvalidParam(s) => "invalid parameter: "@ + s@,
        FerrioxError::Unsupported(s) => "unsupported configuration: "@ + s@,
        FerrioxError::KernelLaunch(s) => "kernel launch failed: "@ + s@,
    }
}

impl FerrioxError {
    /// Create a CUDA error carrying the given message text.
    pub fn cuda(msg: &str) -> (r: Self)
        ensures
            r matches FerrioxError::Cuda(s) && s@ == msg@,
            error_text(r) == "CUDA error: "@ + msg@,
    {
        FerrioxError::Cuda(msg.to_owned())
    }

    /// The error's text, e.g. `CUDA error: <message>`.
    pub fn to_string(&self) -> (r: String)
        ensures
            r@ == error_text(*self),
    {
        let (prefix, msg) = match self {
            FerrioxError::Cuda(s) => ("CUDA error: ", s),
            FerrioxError::InvalidParam(s) => ("invalid parameter: ", s),
            FerrioxError::Unsupported(s) => ("unsupported configuration: ", s),
            FerrioxError::KernelLaunch(s) => ("kernel launch failed: ", s),
        };
        let mut r = String::from_str(prefix);
        r.append(msg.as_str());
        r
    }
}

} // verus!
