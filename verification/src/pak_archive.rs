use vstd::prelude::*;
use vstd::slice::slice_subrange;
use vstd::slice::slice_to_vec;
use vstd::utf8::decode_utf8;
use vstd::utf8::valid_utf8;

use crate::error::DataError;
use crate::search::first_index;
use crate::search::is_first;
use crate::search::lemma_first_absent;
use crate::search::lemma_first_found;
use crate::text::str_eq;

verus! {

/// The bytes that a record's fixed fields take, its signature included.
pub const LOCAL_HEADER_LEN: u64 = 30;

/// The code of the one compression method that is read: deflate.
pub const METHOD_DEFLATE: u16 = 8;

/// The 16-bit little-endian number at `at`.
pub open spec fn le_u16(data: Seq<u8>, at: int) -> int {
    data[at] + 256 * data[at + 1]
}

/// The 32-bit little-endian number at `at`.
pub open spec fn le_u32(data: Seq<u8>, at: int) -> int {
    data[at] + 256 * data[at + 1] + 65536 * data[at + 2] + 16777216 * data[at + 3]
}

/// `PK\x03\x04`: a file follows.
pub open spec fn is_local_header(data: Seq<u8>, at: int) -> bool {
    data[at] == 0x50 && data[at + 1] == 0x4b && data[at + 2] == 3 && data[at + 3] == 4
}

/// `PK\x01\x02`: the central directory follows, and no further file.
pub open spec fn is_central_directory(data: Seq<u8>, at: int) -> bool {
    data[at] == 0x50 && data[at + 1] == 0x4b && data[at + 2] == 1 && data[at + 3] == 2
}

/// One file of an archive: its name, and where its compressed bytes lie.
pub struct IndexEntry {
    pub filename: String,
    pub data_offset: u64,
    pub data_len: u64,
}

/// What an `IndexEntry` stands for.
pub ghost struct EntryView {
    pub name: Seq<char>,
    pub offset: int,
    pub len: int,
}

impl View for IndexEntry {
    type V = EntryView;

    open spec fn view(&self) -> EntryView {
        EntryView {
            name: self.filename@,
            offset: self.data_offset as int,
            len: self.data_len as int,
        }
    }
}

/// The views of a run of entries.
pub open spec fn entry_views(entries: Seq<IndexEntry>) -> Seq<EntryView> {
    entries.map_values(|e: IndexEntry| e@)
}

/// The index of the archive `data`, scanned from the record at `pos` on: the
/// files in the order of their records up to the central directory, or the
/// first fault met on the way.
pub open spec fn index_from(data: Seq<u8>, pos: int) -> Result<Seq<EntryView>, DataError>
    decreases data.len() - pos,
{
    if pos < 0 || pos + 4 > data.len() {
        Err(DataError::UnexpectedEof)
    } else if is_central_directory(data, pos) {
        Ok(Seq::empty())
    } else if !is_local_header(data, pos) {
        Err(DataError::CorruptArchive)
    } else if pos + 10 > data.len() {
        Err(DataError::UnexpectedEof)
    } else if le_u16(data, pos + 8) != METHOD_DEFLATE {
        Err(DataError::UnsupportedCompression)
    } else if pos + LOCAL_HEADER_LEN > data.len() {
        Err(DataError::UnexpectedEof)
    } else {
        let name_at = pos + LOCAL_HEADER_LEN;
        let extra_at = name_at + le_u16(data, pos + 26);
        let data_at = extra_at + le_u16(data, pos + 28);
        let data_len = le_u32(data, pos + 18);
        if extra_at > data.len() {
            Err(DataError::UnexpectedEof)
        } else if !valid_utf8(data.subrange(name_at, extra_at)) {
            Err(DataError::CorruptArchive)
        } else if data_at + data_len > data.len() {
            Err(DataError::UnexpectedEof)
        } else {
            let entry = EntryView {
                name: decode_utf8(data.subrange(name_at, extra_at)),
                offset: data_at,
                len: data_len,
            };
            match index_from(data, data_at + data_len) {
                Ok(rest) => Ok(seq![entry] + rest),
                Err(e) => Err(e),
            }
        }
    }
}

/// The first entry of `entries` that is called `name`.
pub open spec fn first_named(entries: Seq<EntryView>, name: Seq<char>) -> Option<int> {
    first_index(entries, has_name(name))
}

/// The test that an entry is called `name`.
pub open spec fn has_name(name: Seq<char>) -> spec_fn(EntryView) -> bool {
    |e: EntryView| e.name == name
}

/// The outcome `rest` of scanning on, behind the entries `done`.
pub open spec fn after(done: Seq<EntryView>, rest: Result<Seq<EntryView>, DataError>) -> Result<
    Seq<EntryView>,
    DataError,
> {
    match rest {
        Ok(more) => Ok(done + more),
        Err(e) => Err(e),
    }
}

/// What the deflate stream `compressed` holds once inflated; `None` where it
/// is no complete deflate stream.
pub uninterp spec fn inflated(compressed: Seq<u8>) -> Option<Seq<u8>>;

/// Where in `data` the compressed bytes of the file `name` lie, as the bounds
/// of a range.
pub open spec fn located(data: Seq<u8>, entries: Seq<EntryView>, name: Seq<char>) -> Result<
    (int, int),
    DataError,
> {
    match first_named(entries, name) {
        None => Err(DataError::EntryNotFound),
        Some(i) => if entries[i].offset + entries[i].len > data.len() {
            Err(DataError::DecodeError)
        } else {
            Ok((entries[i].offset, entries[i].offset + entries[i].len))
        },
    }
}

/// The bytes of the file `name`, inflated.
pub open spec fn unpacked(data: Seq<u8>, entries: Seq<EntryView>, name: Seq<char>) -> Result<
    Seq<u8>,
    DataError,
> {
    match located(data, entries, name) {
        Err(e) => Err(e),
        Ok((from, to)) => match inflated(data.subrange(from, to)) {
            Some(bytes) => Ok(bytes),
            None => Err(DataError::DecodeError),
        },
    }
}

/// `std::io::Error`, which the decoder fails with; nothing is read off it.
#[verifier::external_type_specification]
#[verifier::external_body]
pub struct ExIoError(std::io::Error);

/// `std::string::FromUtf8Error`; nothing is read off it.
#[verifier::external_type_specification]
#[verifier::external_body]
pub struct ExFromUtf8Error(std::string::FromUtf8Error);

/// `libflate::deflate::Decoder::new` on the given bytes, read to its end with
/// `read_to_end`. The decoder works on these bytes alone, so what it yields
/// has a name, `inflated`; of the bytes themselves nothing is claimed. It
/// fails where the bytes are no complete deflate stream.
#[verifier::external_body]
fn inflate(compressed: &[u8]) -> (r: Result<Vec<u8>, std::io::Error>)
    ensures
        match r {
            Ok(bytes) => inflated(compressed@) == Some(bytes@),
            Err(_) => inflated(compressed@) is None,
        },
{
    let mut decoder = libflate::deflate::Decoder::new(compressed);
    let mut bytes = Vec::new();
    std::io::Read::read_to_end(&mut decoder, &mut bytes)?;
    Ok(bytes)
}

/// `String::from_utf8`: succeeds on exactly the byte sequences that are
/// UTF-8, and then holds the characters that they encode.
#[verifier::external_body]
pub(crate) fn string_from_utf8(bytes: Vec<u8>) -> (r: Result<String, std::string::FromUtf8Error>)
    ensures
        r is Ok <==> valid_utf8(bytes@),
        r matches Ok(s) ==> s@ == decode_utf8(bytes@),
{
    String::from_utf8(bytes)
}

/// Reads values off a byte source at a position that moves on with each read.
pub struct Reader2;

impl Reader2 {
    /// The next `count` bytes. Where fewer are left, nothing is read.
    pub fn read_bytes(source: &[u8], pos: &mut u64, count: usize) -> (r: Result<Vec<u8>, DataError>)
        ensures
            match r {
                Ok(bytes) => {
                    &&& *old(pos) + count <= source@.len()
                    &&& bytes@ == source@.subrange(*old(pos) as int, *old(pos) + count)
                    &&& *final(pos) == *old(pos) + count
                },
                Err(e) => {
                    &&& e == DataError::UnexpectedEof
                    &&& *old(pos) + count > source@.len()
                    &&& *final(pos) == *old(pos)
                },
            },
    {
        let len: usize = source.len();
        if *pos > len as u64 {
            return Err(DataError::UnexpectedEof);
        }
        let start: usize = *pos as usize;
        if count > len - start {
            return Err(DataError::UnexpectedEof);
        }
        let bytes = slice_to_vec(slice_subrange(source, start, start + count));
        *pos = *pos + count as u64;
        Ok(bytes)
    }

    /// The next two bytes as a little-endian number.
    pub fn read_u16(source: &[u8], pos: &mut u64) -> (r: Result<u16, DataError>)
        ensures
            match r {
                Ok(value) => {
                    &&& *old(pos) + 2 <= source@.len()
                    &&& value == le_u16(source@, *old(pos) as int)
                    &&& *final(pos) == *old(pos) + 2
                },
                Err(e) => {
                    &&& e == DataError::UnexpectedEof
                    &&& *old(pos) + 2 > source@.len()
                    &&& *final(pos) == *old(pos)
                },
            },
    {
        let bytes = Self::read_bytes(source, pos, 2)?;
        let low: u16 = bytes[0] as u16;
        let high: u16 = bytes[1] as u16;
        Ok(low + 256 * high)
    }

    /// The next four bytes as a little-endian number.
    pub fn read_u32(source: &[u8], pos: &mut u64) -> (r: Result<u32, DataError>)
        ensures
            match r {
                Ok(value) => {
                    &&& *old(pos) + 4 <= source@.len()
                    &&& value == le_u32(source@, *old(pos) as int)
                    &&& *final(pos) == *old(pos) + 4
                },
                Err(e) => {
                    &&& e == DataError::UnexpectedEof
                    &&& *old(pos) + 4 > source@.len()
                    &&& *final(pos) == *old(pos)
                },
            },
    {
        let bytes = Self::read_bytes(source, pos, 4)?;
        let b0: u32 = bytes[0] as u32;
        let b1: u32 = bytes[1] as u32;
        let b2: u32 = bytes[2] as u32;
        let b3: u32 = bytes[3] as u32;
        Ok(b0 + 256 * b1 + 65536 * b2 + 16777216 * b3)
    }
}

/// Scans the records of the archive `source` from its start.
pub fn read_index(source: &[u8]) -> (r: Result<Vec<IndexEntry>, DataError>)
    ensures
        match r {
            Ok(index) => index_from(source@, 0) matches Ok(entries) && entries == entry_views(index@),
            Err(e) => index_from(source@, 0) matches Err(fault) && fault == e,
        },
{
    let mut index: Vec<IndexEntry> = Vec::new();
    let mut pos: u64 = 0;
    let len: usize = source.len();
    loop
        invariant
            len == source@.len(),
            pos <= len,
            index_from(source@, 0) == after(entry_views(index@), index_from(source@, pos as int)),
        decreases len - pos,
    {
        let ghost done = entry_views(index@);
        let magic = Reader2::read_bytes(source, &mut pos, 4)?;
        if magic[0] == 0x50 && magic[1] == 0x4b && magic[2] == 1 && magic[3] == 2 {
            return Ok(index);
        }
        if !(magic[0] == 0x50 && magic[1] == 0x4b && magic[2] == 3 && magic[3] == 4) {
            return Err(DataError::CorruptArchive);
        }
        let _version = Reader2::read_bytes(source, &mut pos, 2)?;
        let _flags = Reader2::read_bytes(source, &mut pos, 2)?;
        let method = Reader2::read_u16(source, &mut pos)?;
        if method != METHOD_DEFLATE {
            return Err(DataError::UnsupportedCompression);
        }
        let _time = Reader2::read_u16(source, &mut pos)?;
        let _date = Reader2::read_u16(source, &mut pos)?;
        let _crc = Reader2::read_bytes(source, &mut pos, 4)?;
        let compressed_size = Reader2::read_u32(source, &mut pos)?;
        let _uncompressed_size = Reader2::read_u32(source, &mut pos)?;
        let filename_len = Reader2::read_u16(source, &mut pos)?;
        let extra_len = Reader2::read_u16(source, &mut pos)?;
        let name_bytes = Reader2::read_bytes(source, &mut pos, filename_len as usize)?;
        let filename = match string_from_utf8(name_bytes) {
            Ok(name) => name,
            Err(_) => {
                return Err(DataError::CorruptArchive);
            },
        };
        let _extra = Reader2::read_bytes(source, &mut pos, extra_len as usize)?;
        if compressed_size as u64 > len as u64 - pos {
            return Err(DataError::UnexpectedEof);
        }
        let entry = IndexEntry { filename, data_offset: pos, data_len: compressed_size as u64 };
        proof {
            let rest = index_from(source@, pos + compressed_size);
            assert(entry_views(index@.push(entry)) == done.push(entry@));
            if rest is Ok {
                assert(done + (seq![entry@] + rest->Ok_0) == done.push(entry@) + rest->Ok_0);
            }
        }
        index.push(entry);
        pos = pos + compressed_size as u64;
    }
}

/// An archive held in memory, with the index of its files.
pub struct PakArchive {
    source: Vec<u8>,
    index: Vec<IndexEntry>,
}

impl PakArchive {
    /// The bytes of the archive.
    pub closed spec fn bytes(&self) -> Seq<u8> {
        self.source@
    }

    /// The files of the archive, in the order of their records.
    pub closed spec fn entries(&self) -> Seq<EntryView> {
        entry_views(self.index@)
    }

    /// The entries are those that a scan of the bytes finds.
    pub open spec fn well_formed(&self) -> bool {
        index_from(self.bytes(), 0) matches Ok(entries) && entries == self.entries()
    }

    /// Indexes the archive `source`.
    pub fn new(source: Vec<u8>) -> (r: Result<Self, DataError>)
        ensures
            match r {
                Ok(archive) => archive.bytes() == source@ && archive.well_formed(),
                Err(e) => index_from(source@, 0) matches Err(fault) && fault == e,
            },
    {
        let index = read_index(source.as_slice())?;
        Ok(Self { source, index })
    }

    /// The names of the files, in the order of their records.
    pub fn file_list(&self) -> (names: Vec<String>)
        ensures
            names@.len() == self.entries().len(),
            forall|i: int| 0 <= i < names@.len() ==> (#[trigger] names@[i])@ == self.entries()[i].name,
    {
        let mut names: Vec<String> = Vec::new();
        let mut i: usize = 0;
        while i < self.index.len()
            invariant
                i <= self.index@.len(),
                names@.len() == i,
                forall|k: int| 0 <= k < i ==> (#[trigger] names@[k])@ == self.index@[k].filename@,
            decreases self.index@.len() - i,
        {
            names.push(self.index[i].filename.clone());
            i = i + 1;
        }
        names
    }

    /// Where the compressed bytes of the file `filename` lie in the archive:
    /// the bounds of the range, of the first file of that name.
    pub fn locate(&self, filename: &str) -> (r: Result<(usize, usize), DataError>)
        ensures
            match r {
                Ok((from, to)) => located(self.bytes(), self.entries(), filename@) matches Ok(range)
                    && range == (from as int, to as int),
                Err(e) => located(self.bytes(), self.entries(), filename@) matches Err(fault)
                    && fault == e,
            },
    {
        let ghost named = has_name(filename@);
        let mut i: usize = 0;
        while i < self.index.len()
            invariant
                i <= self.index@.len(),
                named == has_name(filename@),
                forall|k: int| 0 <= k < i ==> !named(#[trigger] self.entries()[k]),
            decreases self.index@.len() - i,
        {
            if str_eq(self.index[i].filename.as_str(), filename) {
                let entry = &self.index[i];
                proof {
                    lemma_first_found(self.entries(), named, i as int);
                }
                let len: u64 = self.source.len() as u64;
                if entry.data_offset > len || entry.data_len > len - entry.data_offset {
                    return Err(DataError::DecodeError);
                }
                let from: usize = entry.data_offset as usize;
                let to: usize = (entry.data_offset + entry.data_len) as usize;
                return Ok((from, to));
            }
            i = i + 1;
        }
        proof {
            lemma_first_absent(self.entries(), named);
        }
        Err(DataError::EntryNotFound)
    }

    /// The bytes of the file `filename`, inflated.
    pub fn unpack(&self, filename: &str) -> (r: Result<Vec<u8>, DataError>)
        ensures
            match r {
                Ok(bytes) => unpacked(self.bytes(), self.entries(), filename@) matches Ok(unpacked)
                    && unpacked == bytes@,
                Err(e) => unpacked(self.bytes(), self.entries(), filename@) matches Err(fault)
                    && fault == e,
            },
    {
        let (from, to) = self.locate(filename)?;
        match inflate(slice_subrange(self.source.as_slice(), from, to)) {
            Ok(bytes) => Ok(bytes),
            Err(_) => Err(DataError::DecodeError),
        }
    }
}

} // verus!
