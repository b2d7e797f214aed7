//! What the errors of a chunk map say.

use vstd::prelude::*;
use vstd::string::StringExecFns;

use crate::persist_map::PersistMapError;
use crate::text::{decimal, push_decimal};

verus! {

/// The message of `error`, where `shown` is the path of the map as text and
/// `quoted` is that text in quotes.
pub open spec fn message_of(error: PersistMapError, shown: Seq<char>, quoted: Seq<char>) -> Seq<
    char,
> {
    match error {
        PersistMapError::ZeroChunkCount => "chunk count should be greater than 0"@,
        PersistMapError::MissingFilename => "missing filename"@,
        PersistMapError::UnexpectedSize { actual, expected } => "chunk_map file "@ + shown
            + " has unexpected size: "@ + decimal(actual as nat) + ", expected: "@ + decimal(
            expected as nat,
        ),
        PersistMapError::BadMagic => "chunk_map file "@ + quoted + " has bad magic"@,
        PersistMapError::BadVersion => "chunk_map file "@ + quoted + " has bad version"@,
        PersistMapError::WrongCount => "chunk_map file "@ + quoted + " has wrong count"@,
        PersistMapError::IndexOutOfRange { index, count } => "chunk index "@ + decimal(index as nat)
            + " exceeds chunk count "@ + decimal(count as nat),
    }
}

impl PersistMapError {
    /// The message of the error, where `shown` is the path of the map as text
    /// and `quoted` is that text in quotes.
    pub fn message(&self, shown: &str, quoted: &str) -> (r: String)
        ensures
            r@ == message_of(*self, shown@, quoted@),
    {
        let mut out: String = String::new();
        match self {
            PersistMapError::ZeroChunkCount => {
                out.append("chunk count should be greater than 0");
            },
            PersistMapError::MissingFilename => {
                out.append("missing filename");
            },
            PersistMapError::UnexpectedSize { actual, expected } => {
                out.append("chunk_map file ");
                out.append(shown);
                out.append(" has unexpected size: ");
                push_decimal(&mut out, *actual);
                out.append(", expected: ");
                push_decimal(&mut out, *expected);
            },
            PersistMapError::BadMagic => {
                out.append("chunk_map file ");
                out.append(quoted);
                out.append(" has bad magic");
            },
            PersistMapError::BadVersion => {
                out.append("chunk_map file ");
                out.append(quoted);
                out.append(" has bad version");
            },
            PersistMapError::WrongCount => {
                out.append("chunk_map file ");
                out.append(quoted);
                out.append(" has wrong count");
            },
            PersistMapError::IndexOutOfRange { index, count } => {
                out.append("chunk index ");
                push_decimal(&mut out, *index as u64);
                out.append(" exceeds chunk count ");
                push_decimal(&mut out, *count as u64);
            },
        }
        assert(out@ =~= message_of(*self, shown@, quoted@));
        out
    }
}

/// What is said where the file `shown` could not be opened because of `cause`.
pub fn open_failed_message(shown: &str, cause: &str) -> (r: String)
    ensures
        r@ == "failed to open blob chunk_map file "@ + shown@ + ": "@ + cause@,
{
    let mut out: String = String::new();
    out.append("failed to open blob chunk_map file ");
    out.append(shown);
    out.append(": ");
    out.append(cause);
    assert(out@ =~= "failed to open blob chunk_map file "@ + shown@ + ": "@ + cause@);
    out
}

/// What is said where no new file could be made because of `cause`.
pub fn make_failed_message(cause: &str) -> (r: String)
    ensures
        r@ == "failed to open/create blob chunk_map file: "@ + cause@,
{
    let mut out: String = String::new();
    out.append("failed to open/create blob chunk_map file: ");
    out.append(cause);
    assert(out@ =~= "failed to open/create blob chunk_map file: "@ + cause@);
    out
}

/// What is said of each fault: the path and the numbers that it is about, in
/// their places, and nothing else that depends on them.
pub proof fn law_messages_tell_path_and_numbers(
    shown: Seq<char>,
    quoted: Seq<char>,
    actual: u64,
    expected: u64,
    index: u32,
    count: u32,
)
    ensures
        message_of(PersistMapError::ZeroChunkCount, shown, quoted)
            == "chunk count should be greater than 0"@,
        message_of(PersistMapError::MissingFilename, shown, quoted) == "missing filename"@,
        message_of(PersistMapError::UnexpectedSize { actual, expected }, shown, quoted)
            == "chunk_map file "@ + shown + " has unexpected size: "@ + decimal(actual as nat)
            + ", expected: "@ + decimal(expected as nat),
        message_of(PersistMapError::BadMagic, shown, quoted) == "chunk_map file "@ + quoted
            + " has bad magic"@,
        message_of(PersistMapError::BadVersion, shown, quoted) == "chunk_map file "@ + quoted
            + " has bad version"@,
        message_of(PersistMapError::WrongCount, shown, quoted) == "chunk_map file "@ + quoted
            + " has wrong count"@,
        message_of(PersistMapError::IndexOutOfRange { index, count }, shown, quoted)
            == "chunk index "@ + decimal(index as nat) + " exceeds chunk count "@ + decimal(
            count as nat,
        ),
{
}

} // verus!
