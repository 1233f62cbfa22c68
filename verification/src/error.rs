use vstd::prelude::*;

verus! {

/// Why reading the game data failed.
#[derive(Debug, Copy, Clone, PartialEq, Eq, Structural, Hash)]
pub enum DataError {
    /// A record of an archive starts with a signature that is neither that of
    /// a file nor that of the central directory, or names its file in bytes
    /// that are not UTF-8.
    CorruptArchive,
    /// A file of an archive is stored by another method than deflate.
    UnsupportedCompression,
    /// The archive holds no file of the name asked for.
    EntryNotFound,
    /// The bytes of a file lie outside the archive or are no deflate stream.
    DecodeError,
    /// The archive ends inside a record, or before its central directory.
    UnexpectedEof,
    /// A document lacks an element or attribute, has one too many, or holds a
    /// value that cannot be read.
    MalformedDocument,
    /// A quirk that names a weapon's hardpoint alias is not made of a kind and
    /// a way of counting.
    MalformedQuirkName,
    /// The variants found differ from the variants declared.
    CatalogInconsistent,
}

} // verus!
