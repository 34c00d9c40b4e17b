use vstd::prelude::*;
use vstd::string::StringExecFns;

verus! {

/// Failures that abort startup before any interface is shown: the expected
/// pipe is missing, the followed file cannot be opened, or a custom theme
/// file cannot be loaded.
#[derive(Debug)]
pub enum Error {
    NoPipeIn,
    FileOpenFailed(String),
    CustomThemeFailed(String),
}

impl Error {
    /// The human-readable description reported at the process boundary.
    pub fn message(&self) -> (r: String)
        ensures
            match self {
                Error::NoPipeIn => r@ == "Failed to initialze input pipe. Did you forget to pipe something?"@,
                Error::FileOpenFailed(s) => r@ == "Failed to initialze input file '"@ + s@
                    + "'. Does the file exist?"@,
                Error::CustomThemeFailed(s) => r@ == "Couldn't load custom theme from '"@ + s@
                    + "'."@,
            },
    {
        match self {
            Error::NoPipeIn => "Failed to initialze input pipe. Did you forget to pipe something?".to_owned(),
            Error::FileOpenFailed(s) => {
                let mut r = "Failed to initialze input file '".to_owned();
                r.append(s.as_str());
                r.append("'. Does the file exist?");
                r
            },
            Error::CustomThemeFailed(s) => {
                let mut r = "Couldn't load custom theme from '".to_owned();
                r.append(s.as_str());
                r.append("'.");
                r
            },
        }
    }
}

} // verus!
