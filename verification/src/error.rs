//! The error type of the storage engines.

use vstd::prelude::*;
use vstd::string::StringExecFns;

verus! {

/// Any kind of error returned by a storage engine. Causes that arise outside
/// the engine's bookkeeping are carried as their text.
#[derive(Debug, PartialEq, Eq)]
pub enum KvStoreError {
    /// A record could not be encoded or decoded.
    Bincode(String),
    /// A file operation failed.
    Io(String),
    /// The user tried to remove a key that is not in the database.
    RemoveNonExistentKey,
    /// A position in a log file does not hold what the index says it holds,
    /// or lies beyond what a file can hold. The file must have been corrupted.
    WrongFileOffset,
    /// The data directory could not be walked.
    Walkdir(String),
    /// The alternate engine failed.
    Sled(String),
    /// Log files do not carry the ids that their place in the directory
    /// calls for.
    WrongFileNameFormat,
    /// The thread pool could not be built.
    ThreadPoolBuild(String),
}

/// `prefix`, `cause` and a full stop.
fn sentence(prefix: &str, cause: &String) -> (r: String)
    ensures
        r@ == prefix@ + cause@ + "."@,
{
    let mut r = String::from_str(prefix);
    r.append(cause.as_str());
    r.append(".");
    r
}

impl KvStoreError {
    /// The error in words.
    pub fn to_string(&self) -> (r: String)
        ensures
            r@ == match *self {
                KvStoreError::Bincode(cause) => "Bincode error: "@ + cause@ + "."@,
                KvStoreError::Io(cause) => "Io error: "@ + cause@ + "."@,
                KvStoreError::RemoveNonExistentKey => {
                    "Tried to remove a non existent key in the database."@
                },
                KvStoreError::WrongFileOffset => {
                    "Wrong file offset. File must have been corrupted."@
                },
                KvStoreError::Walkdir(cause) => "Walkdir error: "@ + cause@ + "."@,
                KvStoreError::Sled(cause) => "Sled error: "@ + cause@ + "."@,
                KvStoreError::WrongFileNameFormat => "Wrong file name format."@,
                KvStoreError::ThreadPoolBuild(cause) => "Thread pool error: "@ + cause@ + "."@,
            },
    {
        match self {
            KvStoreError::Bincode(cause) => sentence("Bincode error: ", cause),
            KvStoreError::Io(cause) => sentence("Io error: ", cause),
            KvStoreError::RemoveNonExistentKey => String::from_str(
                "Tried to remove a non existent key in the database.",
            ),
            KvStoreError::WrongFileOffset => String::from_str(
                "Wrong file offset. File must have been corrupted.",
            ),
            KvStoreError::Walkdir(cause) => sentence("Walkdir error: ", cause),
            KvStoreError::Sled(cause) => sentence("Sled error: ", cause),
            KvStoreError::WrongFileNameFormat => String::from_str("Wrong file name format."),
            KvStoreError::ThreadPoolBuild(cause) => sentence("Thread pool error: ", cause),
        }
    }
}

} // verus!
