use vstd::prelude::*;

verus! {

/// Failures of the program's own setup.
#[derive(Debug, Clone)]
pub enum AutoCopyError {
    /// The per-user configuration folder could not be found.
    ConfigFolderError(String),
    /// An input/output operation failed; the text describes it.
    StdIOError(String),
}

impl AutoCopyError {
    /// The message carried by the error.
    pub open spec fn message(&self) -> Seq<char> {
        match self {
            AutoCopyError::ConfigFolderError(msg) => msg@,
            AutoCopyError::StdIOError(msg) => msg@,
        }
    }

    /// Human-readable description: the carried message itself.
    pub fn description(&self) -> (r: &str)
        ensures
            r@ == self.message(),
    {
        match self {
            AutoCopyError::ConfigFolderError(msg) => msg.as_str(),
            AutoCopyError::StdIOError(msg) => msg.as_str(),
        }
    }

    /// The description as an owned string, for display.
    pub fn to_string(&self) -> (r: String)
        ensures
            r@ == self.message(),
    {
        String::from_str(self.description())
    }
}

} // verus!
