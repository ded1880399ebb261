//! Decoding of the archive's fixed-layout header, its index entries, and
//! the table records they point at.
//!
//! The layout is big-endian throughout. The 56-byte fixed header starts
//! with the 16-byte magic signature and carries, among reserved fields,
//! the base offset and the file count. It is followed by `file_count`
//! 8-byte index entries of the form hash[4] + reserved[1] +
//! table_offset[3]; each table offset points at an 8-byte record
//! raw_offset[4] + size[4], where the absolute byte offset of the file
//! data is `base_offset + raw_offset * 1024`.

use vstd::prelude::*;
use std::collections::HashMap;
use crate::Error;
use crate::stream::PartReader;

verus! {

broadcast use vstd::std_specs::hash::group_hash_axioms;

/// A 32-bit big-endian value read from 4 bytes.
pub open spec fn be32(s: Seq<u8>) -> u32
    recommends
        s.len() == 4,
{
    (s[0] * 0x1000000 + s[1] * 0x10000 + s[2] * 0x100 + s[3]) as u32
}

/// A 24-bit big-endian value read from 3 bytes.
pub open spec fn be24(s: Seq<u8>) -> u32
    recommends
        s.len() == 3,
{
    (s[0] * 0x10000 + s[1] * 0x100 + s[2]) as u32
}

/// Reads a big-endian 32-bit field at the cursor.
pub fn read_u32_be(s: &mut PartReader) -> (r: Result<u32, Error>)
    requires
        old(s).wf(),
    ensures
        final(s).wf(),
        final(s).bytes() == old(s).bytes(),
        r is Ok <==> old(s).pos() + 4 <= old(s).bytes().len(),
        r matches Ok(x) ==> x == be32(old(s).bytes().subrange(old(s).pos(), old(s).pos() + 4))
            && final(s).pos() == old(s).pos() + 4,
        r is Err ==> *final(s) == *old(s) && r == Err::<u32, Error>(Error::TruncatedInput),
{
    match s.read_exact(4) {
        Ok(v) => {
            let x: u32 = (v[0] as u32) * 0x1000000 + (v[1] as u32) * 0x10000 + (v[2] as u32)
                * 0x100 + (v[3] as u32);
            Ok(x)
        },
        Err(e) => Err(e),
    }
}

/// Reads a big-endian 24-bit field at the cursor.
pub fn read_u24_be(s: &mut PartReader) -> (r: Result<u32, Error>)
    requires
        old(s).wf(),
    ensures
        final(s).wf(),
        final(s).bytes() == old(s).bytes(),
        r is Ok <==> old(s).pos() + 3 <= old(s).bytes().len(),
        r matches Ok(x) ==> x == be24(old(s).bytes().subrange(old(s).pos(), old(s).pos() + 3))
            && final(s).pos() == old(s).pos() + 3,
        r is Err ==> *final(s) == *old(s) && r == Err::<u32, Error>(Error::TruncatedInput),
{
    match s.read_exact(3) {
        Ok(v) => {
            let x: u32 = (v[0] as u32) * 0x10000 + (v[1] as u32) * 0x100 + (v[2] as u32);
            Ok(x)
        },
        Err(e) => Err(e),
    }
}

/// The 16-byte magic signature: `"FSG-FILE-SYSTEM\0"`.
pub open spec fn magic() -> Seq<u8> {
    seq![
        0x46u8, 0x53, 0x47, 0x2d, 0x46, 0x49, 0x4c, 0x45, 0x2d, 0x53, 0x59, 0x53, 0x54, 0x45,
        0x4d, 0x00,
    ]
}

/// The interpreted fields of the fixed header. The remaining fields are
/// reserved: they are consumed to advance the cursor but carry no meaning
/// here.
#[derive(Clone, Copy, PartialEq, Eq, Structural, Debug)]
pub struct ArchiveHeader {
    /// Absolute offset of the root directory listing, and origin of the
    /// sector-addressed file-data region.
    pub base_offset: u32,
    /// Number of index entries following the fixed header.
    pub file_count: u32,
}

/// One index entry: a path hash and the byte offset of its table record.
/// The entry's fifth byte is reserved and skipped.
#[derive(Clone, Copy, PartialEq, Eq, Structural, Debug)]
pub struct IndexEntry {
    pub hash: u32,
    pub table_offset: u32,
}

/// The location and size a table record resolves to.
#[derive(Clone, Copy, PartialEq, Eq, Structural, Debug)]
pub struct FileNode {
    /// Absolute byte offset of the node's data: `base_offset + raw * 1024`.
    pub offset: u64,
    /// Size in bytes.
    pub size: u32,
}

/// Consumes the 56-byte fixed header from offset 0, validating the magic
/// signature before any further field is read.
pub fn parse_header(s: &mut PartReader) -> (r: Result<ArchiveHeader, Error>)
    requires
        old(s).wf(),
        old(s).pos() == 0,
    ensures
        final(s).wf(),
        final(s).bytes() == old(s).bytes(),
        r is Ok <==> old(s).bytes().len() >= 56 && old(s).bytes().subrange(0, 16) == magic(),
        r matches Ok(h) ==> h.base_offset == be32(old(s).bytes().subrange(32, 36))
            && h.file_count == be32(old(s).bytes().subrange(44, 48)) && final(s).pos() == 56,
        r == Err::<ArchiveHeader, Error>(Error::InvalidFormat) <==> (old(s).bytes().len() >= 16
            && old(s).bytes().subrange(0, 16) != magic()),
        r == Err::<ArchiveHeader, Error>(Error::TruncatedInput) <==> (old(s).bytes().len() < 16
            || (old(s).bytes().subrange(0, 16) == magic() && old(s).bytes().len() < 56)),
{
    let sig = match s.read_exact(16) {
        Ok(v) => v,
        Err(e) => {
            return Err(e);
        },
    };
    let good = sig[0] == 0x46 && sig[1] == 0x53 && sig[2] == 0x47 && sig[3] == 0x2d && sig[4]
        == 0x46 && sig[5] == 0x49 && sig[6] == 0x4c && sig[7] == 0x45 && sig[8] == 0x2d && sig[9]
        == 0x53 && sig[10] == 0x59 && sig[11] == 0x53 && sig[12] == 0x54 && sig[13] == 0x45
        && sig[14] == 0x4d && sig[15] == 0x00;
    proof {
        if good {
            assert(sig@ =~= magic());
        } else {
            assert(sig@ != magic());
        }
    }
    if !good {
        return Err(Error::InvalidFormat);
    }
    let mut base_offset: u32 = 0;
    let mut file_count: u32 = 0;
    let mut field: usize = 0;
    while field < 10
        invariant
            s.wf(),
            s.bytes() == old(s).bytes(),
            s.pos() == 16 + 4 * field,
            field <= 10,
            s.bytes().len() >= 16 + 4 * field,
            old(s).bytes().subrange(0, 16) == magic(),
            field > 4 ==> base_offset == be32(old(s).bytes().subrange(32, 36)),
            field > 7 ==> file_count == be32(old(s).bytes().subrange(44, 48)),
        decreases 10 - field,
    {
        let x = match read_u32_be(s) {
            Ok(x) => x,
            Err(e) => {
                return Err(e);
            },
        };
        if field == 4 {
            base_offset = x;
        }
        if field == 7 {
            file_count = x;
        }
        field = field + 1;
    }
    Ok(ArchiveHeader { base_offset, file_count })
}

/// The index entry encoded at byte position `p`.
pub open spec fn spec_index_entry(bytes: Seq<u8>, p: int) -> IndexEntry {
    IndexEntry {
        hash: be32(bytes.subrange(p, p + 4)),
        table_offset: be24(bytes.subrange(p + 5, p + 8)),
    }
}

/// Reads `count` 8-byte index entries at the cursor, in order.
pub fn read_index(s: &mut PartReader, count: u32) -> (r: Result<Vec<IndexEntry>, Error>)
    requires
        old(s).wf(),
    ensures
        final(s).wf(),
        final(s).bytes() == old(s).bytes(),
        r is Ok <==> old(s).pos() + 8 * count <= old(s).bytes().len(),
        r matches Ok(v) ==> v@.len() == count && (forall|i: int|
            0 <= i < count ==> v@[i] == spec_index_entry(old(s).bytes(), old(s).pos() + 8 * i))
            && final(s).pos() == old(s).pos() + 8 * count,
        r is Err ==> r == Err::<Vec<IndexEntry>, Error>(Error::TruncatedInput),
{
    let mut entries: Vec<IndexEntry> = Vec::new();
    let mut i: u32 = 0;
    while i < count
        invariant
            s.wf(),
            s.bytes() == old(s).bytes(),
            i <= count,
            s.pos() == old(s).pos() + 8 * i,
            old(s).pos() + 8 * i <= s.bytes().len(),
            entries@.len() == i,
            forall|j: int|
                0 <= j < i ==> entries@[j] == spec_index_entry(
                    old(s).bytes(),
                    old(s).pos() + 8 * j,
                ),
        decreases count - i,
    {
        let hash = match read_u32_be(s) {
            Ok(x) => x,
            Err(_) => {
                return Err(Error::TruncatedInput);
            },
        };
        match s.read_byte() {
            Ok(_) => (),
            Err(_) => {
                return Err(Error::TruncatedInput);
            },
        };
        let table_offset = match read_u24_be(s) {
            Ok(x) => x,
            Err(_) => {
                return Err(Error::TruncatedInput);
            },
        };
        proof {
            assert(old(s).bytes().subrange(
                old(s).pos() + 8 * i + 5,
                old(s).pos() + 8 * i + 8,
            ) =~= old(s).bytes().subrange(old(s).pos() + 8 * i, old(s).pos() + 8 * i + 8).subrange(
                5,
                8,
            ));
        }
        entries.push(IndexEntry { hash, table_offset });
        i = i + 1;
    }
    Ok(entries)
}

/// The table record at `table_offset`, resolved against `base_offset`:
/// the raw offset is sector-granular and scales by 1024.
pub open spec fn spec_file_node(bytes: Seq<u8>, base_offset: u32, table_offset: u32) -> FileNode {
    FileNode {
        offset: (base_offset + be32(
            bytes.subrange(table_offset as int, table_offset + 4),
        ) * 1024) as u64,
        size: be32(bytes.subrange(table_offset + 4, table_offset + 8)),
    }
}

/// The hash-to-node map built from `entries` in order, later entries
/// overwriting earlier ones of the same hash.
pub open spec fn spec_nodes_map(bytes: Seq<u8>, base_offset: u32, entries: Seq<IndexEntry>) -> Map<
    u32,
    FileNode,
>
    decreases entries.len(),
{
    if entries.len() == 0 {
        Map::empty()
    } else {
        spec_nodes_map(bytes, base_offset, entries.drop_last()).insert(
            entries.last().hash,
            spec_file_node(bytes, base_offset, entries.last().table_offset),
        )
    }
}

/// Resolves every index entry's table record and builds the hash-to-node
/// map, inserting in entry order.
pub fn build_nodes(s: &mut PartReader, base_offset: u32, entries: &Vec<IndexEntry>) -> (r:
    Result<HashMap<u32, FileNode>, Error>)
    requires
        old(s).wf(),
    ensures
        final(s).wf(),
        final(s).bytes() == old(s).bytes(),
        r is Ok <==> (forall|i: int|
            0 <= i < entries@.len() ==> entries@[i].table_offset + 8 <= old(s).bytes().len()),
        r matches Ok(m) ==> m@ == spec_nodes_map(old(s).bytes(), base_offset, entries@),
        r is Err ==> r == Err::<HashMap<u32, FileNode>, Error>(Error::TruncatedInput),
{
    let mut nodes: HashMap<u32, FileNode> = HashMap::new();
    let mut i: usize = 0;
    while i < entries.len()
        invariant
            s.wf(),
            s.bytes() == old(s).bytes(),
            i <= entries@.len(),
            forall|j: int| 0 <= j < i ==> entries@[j].table_offset + 8 <= s.bytes().len(),
            nodes@ == spec_nodes_map(old(s).bytes(), base_offset, entries@.take(i as int)),
        decreases entries@.len() - i,
    {
        let e = entries[i];
        match s.seek_start(e.table_offset as u64) {
            Ok(()) => (),
            Err(_) => {
                return Err(Error::TruncatedInput);
            },
        };
        let raw = match read_u32_be(s) {
            Ok(x) => x,
            Err(_) => {
                return Err(Error::TruncatedInput);
            },
        };
        let size = match read_u32_be(s) {
            Ok(x) => x,
            Err(_) => {
                return Err(Error::TruncatedInput);
            },
        };
        let offset: u64 = base_offset as u64 + (raw as u64) * 1024;
        nodes.insert(e.hash, FileNode { offset, size });
        proof {
            assert(entries@.take(i + 1).drop_last() =~= entries@.take(i as int));
            assert(entries@.take(i + 1).last() == entries@[i as int]);
        }
        i = i + 1;
    }
    proof {
        assert(entries@.take(entries@.len() as int) =~= entries@);
    }
    Ok(nodes)
}

/// Looks a path hash up in the node map.
pub fn lookup_node(nodes: &HashMap<u32, FileNode>, h: u32) -> (r: Option<FileNode>)
    ensures
        r == if nodes@.contains_key(h) {
            Some(nodes@[h])
        } else {
            None::<FileNode>
        },
{
    match nodes.get(&h) {
        Some(n) => Some(*n),
        None => None,
    }
}

} // verus!
