use vstd::prelude::*;
use vstd::utf8::decode_utf8;
use vstd::utf8::encode_utf8;
use vstd::utf8::encode_utf8_decode_utf8;
use vstd::utf8::encode_utf8_valid_utf8;
use vstd::utf8::valid_utf8;

use crate::error::DataError;
use crate::pak_archive::has_name;
use crate::pak_archive::index_from;
use crate::pak_archive::inflated;
use crate::pak_archive::is_central_directory;
use crate::pak_archive::is_local_header;
use crate::pak_archive::le_u16;
use crate::pak_archive::le_u32;
use crate::pak_archive::unpacked;
use crate::pak_archive::EntryView;
use crate::search::is_first;
use crate::search::lemma_first_found;

verus! {

/// One file as an archive stores it: the fields of its header that the index
/// does not read, its name, its extra field and its compressed bytes.
pub ghost struct LocalRecord {
    pub version: u16,
    pub flags: u16,
    pub time: u16,
    pub date: u16,
    pub crc: u32,
    pub uncompressed_size: u32,
    pub name: Seq<char>,
    pub extra: Seq<u8>,
    pub data: Seq<u8>,
}

/// Byte `k` of the number `x`, counted from the lowest.
pub open spec fn byte_of(x: int, k: nat) -> u8
    decreases k,
{
    if k == 0 {
        (x % 256) as u8
    } else {
        byte_of(x / 256, (k - 1) as nat)
    }
}

/// The lengths of the record fit the fields that state them.
pub open spec fn record_fits(r: LocalRecord) -> bool {
    &&& encode_utf8(r.name).len() <= u16::MAX
    &&& r.extra.len() <= u16::MAX
    &&& r.data.len() <= u32::MAX
}

/// The thirty bytes of a record's header, for a file stored by deflate.
pub open spec fn record_header(r: LocalRecord) -> Seq<u8> {
    let name_len = encode_utf8(r.name).len() as int;
    let extra_len = r.extra.len() as int;
    let data_len = r.data.len() as int;
    seq![
        0x50u8,
        0x4bu8,
        3u8,
        4u8,
        byte_of(r.version as int, 0),
        byte_of(r.version as int, 1),
        byte_of(r.flags as int, 0),
        byte_of(r.flags as int, 1),
        8u8,
        0u8,
        byte_of(r.time as int, 0),
        byte_of(r.time as int, 1),
        byte_of(r.date as int, 0),
        byte_of(r.date as int, 1),
        byte_of(r.crc as int, 0),
        byte_of(r.crc as int, 1),
        byte_of(r.crc as int, 2),
        byte_of(r.crc as int, 3),
        byte_of(data_len, 0),
        byte_of(data_len, 1),
        byte_of(data_len, 2),
        byte_of(data_len, 3),
        byte_of(r.uncompressed_size as int, 0),
        byte_of(r.uncompressed_size as int, 1),
        byte_of(r.uncompressed_size as int, 2),
        byte_of(r.uncompressed_size as int, 3),
        byte_of(name_len, 0),
        byte_of(name_len, 1),
        byte_of(extra_len, 0),
        byte_of(extra_len, 1),
    ]
}

/// The bytes of one record: header, name, extra field, compressed bytes.
pub open spec fn record_bytes(r: LocalRecord) -> Seq<u8> {
    record_header(r) + encode_utf8(r.name) + r.extra + r.data
}

/// The bytes of a run of records.
pub open spec fn records_bytes(records: Seq<LocalRecord>) -> Seq<u8>
    decreases records.len(),
{
    if records.len() == 0 {
        Seq::empty()
    } else {
        record_bytes(records[0]) + records_bytes(records.drop_first())
    }
}

/// The signature of the central directory.
pub open spec fn central_marker() -> Seq<u8> {
    seq![0x50u8, 0x4bu8, 1u8, 2u8]
}

/// An archive of the records `records`: the records, the central directory's
/// signature, and whatever follows it.
pub open spec fn archive_bytes(records: Seq<LocalRecord>, tail: Seq<u8>) -> Seq<u8> {
    records_bytes(records) + central_marker() + tail
}

/// The entries of records that begin at `at`.
pub open spec fn entries_of(records: Seq<LocalRecord>, at: int) -> Seq<EntryView>
    decreases records.len(),
{
    if records.len() == 0 {
        Seq::empty()
    } else {
        seq![entry_of(records[0], at)] + entries_of(
            records.drop_first(),
            at + record_bytes(records[0]).len(),
        )
    }
}

/// The two lowest bytes of a number of 16 bits make up the number.
proof fn lemma_bytes_of_u16(x: int)
    requires
        0 <= x <= u16::MAX,
    ensures
        byte_of(x, 0) + 256 * byte_of(x, 1) == x,
{
    reveal_with_fuel(byte_of, 3);
}

/// The four lowest bytes of a number of 32 bits make up the number.
proof fn lemma_bytes_of_u32(x: int)
    requires
        0 <= x <= u32::MAX,
    ensures
        byte_of(x, 0) + 256 * byte_of(x, 1) + 65536 * byte_of(x, 2) + 16777216 * byte_of(x, 3)
            == x,
{
    reveal_with_fuel(byte_of, 5);
}

/// What the header of a record states.
proof fn lemma_header(r: LocalRecord)
    requires
        record_fits(r),
    ensures
        record_header(r).len() == 30,
        is_local_header(record_header(r), 0),
        !is_central_directory(record_header(r), 0),
        le_u16(record_header(r), 8) == 8,
        le_u32(record_header(r), 18) == r.data.len(),
        le_u16(record_header(r), 26) == encode_utf8(r.name).len(),
        le_u16(record_header(r), 28) == r.extra.len(),
{
    lemma_bytes_of_u16(encode_utf8(r.name).len() as int);
    lemma_bytes_of_u16(r.extra.len() as int);
    lemma_bytes_of_u32(r.data.len() as int);
}

/// Numbers read in a stretch of bytes are numbers of the stretch.
proof fn lemma_read_in_stretch(whole: Seq<u8>, p: int, stretch: Seq<u8>, k: int)
    requires
        0 <= p,
        p + stretch.len() <= whole.len(),
        whole.subrange(p, p + stretch.len()) == stretch,
        0 <= k,
        k + 4 <= stretch.len(),
    ensures
        le_u16(whole, p + k) == le_u16(stretch, k),
        le_u32(whole, p + k) == le_u32(stretch, k),
        is_local_header(whole, p + k) == is_local_header(stretch, k),
        is_central_directory(whole, p + k) == is_central_directory(stretch, k),
{
    let s = whole.subrange(p, p + stretch.len());
    assert(s[k] == whole[p + k]);
    assert(s[k + 1] == whole[p + k + 1]);
    assert(s[k + 2] == whole[p + k + 2]);
    assert(s[k + 3] == whole[p + k + 3]);
}

/// The entry of the record `r` that begins at `at`.
pub open spec fn entry_of(r: LocalRecord, at: int) -> EntryView {
    EntryView {
        name: r.name,
        offset: at + 30 + encode_utf8(r.name).len() + r.extra.len(),
        len: r.data.len() as int,
    }
}

/// Scanning a record yields its entry, and goes on behind the record.
proof fn lemma_scan_record(whole: Seq<u8>, p: int, r: LocalRecord)
    requires
        record_fits(r),
        0 <= p,
        p + record_bytes(r).len() <= whole.len(),
        whole.subrange(p, p + record_bytes(r).len()) == record_bytes(r),
    ensures
        index_from(whole, p) == crate::pak_archive::after(
            seq![entry_of(r, p)],
            index_from(whole, p + record_bytes(r).len()),
        ),
{
    let header = record_header(r);
    let name = encode_utf8(r.name);
    let record = record_bytes(r);
    lemma_header(r);
    assert(whole.subrange(p, p + 30) == header);
    lemma_read_in_stretch(whole, p, header, 0);
    lemma_read_in_stretch(whole, p, header, 8);
    lemma_read_in_stretch(whole, p, header, 18);
    lemma_read_in_stretch(whole, p, header, 26);
    assert(le_u16(whole, p + 28) == le_u16(header, 28));
    let name_at = p + 30;
    let extra_at = name_at + name.len();
    assert(whole.subrange(name_at, extra_at) == name) by {
        assert(whole.subrange(p, p + record.len()).subrange(30, 30 + name.len() as int)
            == whole.subrange(name_at, extra_at));
    }
    encode_utf8_valid_utf8(r.name);
    encode_utf8_decode_utf8(r.name);
}

/// The index of an archive that is laid out as records: scanned from the
/// first record, it holds one entry for each record, in order.
proof fn lemma_index_from_records(before: Seq<u8>, records: Seq<LocalRecord>, tail: Seq<u8>)
    requires
        forall|i: int| 0 <= i < records.len() ==> record_fits(#[trigger] records[i]),
    ensures
        index_from(before + archive_bytes(records, tail), before.len() as int) == Ok::<
            Seq<EntryView>,
            DataError,
        >(entries_of(records, before.len() as int)),
    decreases records.len(),
{
    let whole = before + archive_bytes(records, tail);
    let p = before.len() as int;
    if records.len() == 0 {
        assert(whole.subrange(p, p + 4) == central_marker());
        lemma_read_in_stretch(whole, p, central_marker(), 0);
    } else {
        let r = records[0];
        let rest = records.drop_first();
        let record = record_bytes(r);
        let next = before + record;
        assert(whole == next + archive_bytes(rest, tail));
        assert(whole.subrange(p, p + record.len()) == record);
        lemma_scan_record(whole, p, r);
        assert forall|i: int| 0 <= i < rest.len() implies record_fits(#[trigger] rest[i]) by {
            assert(rest[i] == records[i + 1]);
        }
        lemma_index_from_records(next, rest, tail);
    }
}

/// What the entries of a run of records are: one for each record, with its
/// name and the length of its compressed bytes.
pub proof fn lemma_entries_of(records: Seq<LocalRecord>, at: int)
    ensures
        entries_of(records, at).len() == records.len(),
        forall|i: int|
            0 <= i < records.len() ==> (#[trigger] entries_of(records, at)[i]).name
                == records[i].name && entries_of(records, at)[i].len == records[i].data.len(),
    decreases records.len(),
{
    if records.len() > 0 {
        let r = records[0];
        let next = at + record_bytes(r).len();
        lemma_entries_of(records.drop_first(), next);
        let all = entries_of(records, at);
        let later = entries_of(records.drop_first(), next);
        assert forall|i: int| 0 <= i < records.len() implies (#[trigger] all[i]).name
            == records[i].name && all[i].len == records[i].data.len() by {
            if i > 0 {
                assert(all[i] == later[i - 1]);
                assert(records.drop_first()[i - 1] == records[i]);
            }
        }
    }
}

/// The compressed bytes of each record lie where its entry says.
proof fn lemma_entries_locate(before: Seq<u8>, records: Seq<LocalRecord>, tail: Seq<u8>, i: int)
    requires
        0 <= i < records.len(),
    ensures
        ({
            let whole = before + archive_bytes(records, tail);
            let entry = entries_of(records, before.len() as int)[i];
            0 <= entry.offset && entry.offset + entry.len <= whole.len() && whole.subrange(
                entry.offset,
                entry.offset + entry.len,
            ) == records[i].data
        }),
    decreases records.len(),
{
    let whole = before + archive_bytes(records, tail);
    let p = before.len() as int;
    let r = records[0];
    let rest = records.drop_first();
    let record = record_bytes(r);
    let next = before + record;
    assert(whole == next + archive_bytes(rest, tail));
    lemma_entries_of(records, p);
    if i == 0 {
        let offset = p + 30 + encode_utf8(r.name).len() + r.extra.len();
        assert(record_header(r).len() == 30);
        assert(whole.subrange(offset, offset + r.data.len()) == r.data);
    } else {
        lemma_entries_locate(next, rest, tail, i - 1);
        assert(record_header(r).len() == 30);
        assert(entries_of(records, p)[i] == entries_of(rest, next.len() as int)[i - 1]);
        assert(rest[i - 1] == records[i]);
    }
}

/// An archive of N records followed by the central directory has an index of
/// N entries: entry `i` has the name of record `i`, in the order of the
/// records, and points at the compressed bytes of record `i`.
pub proof fn lemma_index_of_archive(records: Seq<LocalRecord>, tail: Seq<u8>)
    requires
        forall|i: int| 0 <= i < records.len() ==> record_fits(#[trigger] records[i]),
    ensures
        index_from(archive_bytes(records, tail), 0) matches Ok(entries) && {
            &&& entries.len() == records.len()
            &&& forall|i: int|
                0 <= i < records.len() ==> {
                    &&& (#[trigger] entries[i]).name == records[i].name
                    &&& entries[i].len == records[i].data.len()
                    &&& 0 <= entries[i].offset
                    &&& entries[i].offset + entries[i].len <= archive_bytes(records, tail).len()
                    &&& archive_bytes(records, tail).subrange(
                        entries[i].offset,
                        entries[i].offset + entries[i].len,
                    ) == records[i].data
                }
        },
{
    let before = Seq::<u8>::empty();
    lemma_index_from_records(before, records, tail);
    lemma_entries_of(records, 0);
    let entries = entries_of(records, 0);
    assert forall|i: int| 0 <= i < records.len() implies {
        &&& (#[trigger] entries[i]).name == records[i].name
        &&& entries[i].len == records[i].data.len()
        &&& 0 <= entries[i].offset
        &&& entries[i].offset + entries[i].len <= archive_bytes(records, tail).len()
        &&& archive_bytes(records, tail).subrange(
            entries[i].offset,
            entries[i].offset + entries[i].len,
        ) == records[i].data
    } by {
        lemma_entries_locate(before, records, tail, i);
    }
}

/// Unpacking a file of such an archive inflates the compressed bytes of the
/// first record of that name.
pub proof fn lemma_unpack_of_archive(records: Seq<LocalRecord>, tail: Seq<u8>, i: int)
    requires
        forall|k: int| 0 <= k < records.len() ==> record_fits(#[trigger] records[k]),
        0 <= i < records.len(),
        forall|k: int| 0 <= k < i ==> (#[trigger] records[k]).name != records[i].name,
    ensures
        index_from(archive_bytes(records, tail), 0) matches Ok(entries) && unpacked(
            archive_bytes(records, tail),
            entries,
            records[i].name,
        ) == match inflated(records[i].data) {
            Some(bytes) => Ok::<Seq<u8>, DataError>(bytes),
            None => Err::<Seq<u8>, DataError>(DataError::DecodeError),
        },
{
    lemma_index_of_archive(records, tail);
    let entries = index_from(archive_bytes(records, tail), 0)->Ok_0;
    let named = has_name(records[i].name);
    assert forall|k: int| 0 <= k < i implies !named(#[trigger] entries[k]) by {}
    lemma_first_found(entries, named, i);
}

} // verus!
