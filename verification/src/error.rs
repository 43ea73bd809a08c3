//! The failures a link can end in.

use vstd::prelude::*;

verus! {

/// Why a link stopped. Every failure is final; nothing is retried.
#[derive(Debug, Clone, PartialEq, Eq)]
pub enum LinkError {
    /// Neither the command line nor the script names an output file.
    NoOutput,
    /// An input could not be found, neither as given nor under one of the
    /// search directories, which are attached.
    FileNotFound { file: String, search_dirs: Option<Vec<String>> },
    /// An input ending in `.o` could not be decoded as a relocatable object.
    ObjectParse,
    /// An object input has no `.data` section.
    MissingDataSection,
    /// A relocation is not 32 bits wide; the width found is attached.
    UnsupportedRelocWidth(u8),
    /// A relocation does not point at a symbol.
    UnsupportedRelocTarget,
    /// A relocation site does not lie within the section's bytes.
    OutOfBounds,
    /// A relocation names a symbol that no input defines.
    UnresolvedSymbol(String),
    /// Two definitions of one symbol; `file` is where it was defined before.
    DuplicateSymbol { name: String, file: String },
    /// The value is not a multiple of four.
    Misaligned(u64),
    /// The value does not fit the field it is stored in.
    Overflow(u64),
    /// A setting of the script is outside what the linker accepts.
    BadConfig,
    /// The codec refused the data.
    Compress,
}

/// A failure of a pass over the inputs.
#[derive(Debug, Clone, PartialEq, Eq)]
pub struct PassError {
    /// The position of the input at which the pass stopped; none where it
    /// failed once every input was through.
    pub input: Option<usize>,
    /// Why it stopped.
    pub error: LinkError,
}

/// A failure as specifications speak of it: [`LinkError`] with its texts as
/// sequences of characters.
pub enum Failure {
    NoOutput,
    FileNotFound { file: Seq<char>, search_dirs: Option<Seq<Seq<char>>> },
    ObjectParse,
    MissingDataSection,
    UnsupportedRelocWidth(u8),
    UnsupportedRelocTarget,
    OutOfBounds,
    UnresolvedSymbol(Seq<char>),
    DuplicateSymbol { name: Seq<char>, file: Seq<char> },
    Misaligned(u64),
    Overflow(u64),
    BadConfig,
    Compress,
}

impl View for LinkError {
    type V = Failure;

    open spec fn view(&self) -> Failure {
        match self {
            LinkError::NoOutput => Failure::NoOutput,
            LinkError::FileNotFound { file, search_dirs } => Failure::FileNotFound {
                file: file@,
                search_dirs: match search_dirs {
                    Some(dirs) => Some(Seq::new(dirs@.len(), |i: int| dirs@[i]@)),
                    None => None,
                },
            },
            LinkError::ObjectParse => Failure::ObjectParse,
            LinkError::MissingDataSection => Failure::MissingDataSection,
            LinkError::UnsupportedRelocWidth(bits) => Failure::UnsupportedRelocWidth(*bits),
            LinkError::UnsupportedRelocTarget => Failure::UnsupportedRelocTarget,
            LinkError::OutOfBounds => Failure::OutOfBounds,
            LinkError::UnresolvedSymbol(name) => Failure::UnresolvedSymbol(name@),
            LinkError::DuplicateSymbol { name, file } => Failure::DuplicateSymbol {
                name: name@,
                file: file@,
            },
            LinkError::Misaligned(value) => Failure::Misaligned(*value),
            LinkError::Overflow(value) => Failure::Overflow(*value),
            LinkError::BadConfig => Failure::BadConfig,
            LinkError::Compress => Failure::Compress,
        }
    }
}

/// A result with its error, if any, as specifications speak of it.
pub open spec fn outcome<T>(r: Result<T, LinkError>) -> Result<T, Failure> {
    match r {
        Ok(v) => Ok(v),
        Err(e) => Err(e@),
    }
}

/// Whether a call that changes a buffer did what `expected` says: on success
/// the buffer is the expected one, on failure the error is the expected one
/// and the buffer is as it was.
pub open spec fn changed_to(
    r: Result<(), LinkError>,
    before: Seq<u8>,
    after: Seq<u8>,
    expected: Result<Seq<u8>, Failure>,
) -> bool {
    match expected {
        Ok(bytes) => r is Ok && after == bytes,
        Err(e) => outcome(r) == Err::<(), Failure>(e) && after == before,
    }
}

} // verus!
