use vstd::prelude::*;

verus! {

/// Why a check could not go on.
#[derive(Debug)]
pub enum MdckError {
    /// A rule of the checker itself was broken, such as naming standard input twice.
    Internal(String),
    /// Reading a document failed.
    Io(String),
    /// A document is not valid UTF-8.
    FromUtf(String),
    /// The command line could not be parsed.
    Clap(String),
    /// Walking a directory failed.
    WalkDir(String),
}

impl MdckError {
    /// The message that describes the error.
    pub fn message(&self) -> (r: String)
        ensures
            r@ == match self {
                MdckError::Internal(m) => m@,
                MdckError::Io(m) => m@,
                MdckError::FromUtf(m) => m@,
                MdckError::Clap(m) => m@,
                MdckError::WalkDir(m) => m@,
            },
    {
        match self {
            MdckError::Internal(m) => m.clone(),
            MdckError::Io(m) => m.clone(),
            MdckError::FromUtf(m) => m.clone(),
            MdckError::Clap(m) => m.clone(),
            MdckError::WalkDir(m) => m.clone(),
        }
    }
}

} // verus!
