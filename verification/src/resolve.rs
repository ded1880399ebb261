//! Directory resolution and extraction.
//!
//! A directory listing is a run of null-terminated names ended by an empty
//! name. Each name's first byte is a marker — `D` for a sub-directory,
//! anything else for a regular file — and is not part of the stored name.
//! The archive stores no names in its index, only path hashes: an entry is
//! accepted exactly when the hash of its reconstructed path is an index
//! key, and is silently skipped otherwise.

use vstd::prelude::*;
use std::collections::HashMap;
use crate::Error;
use crate::stream::PartReader;
use crate::stream::parts_view;
use crate::stream::concat_bytes;
use vstd::string::StrSliceExecFns;
use vstd::string::StringExecFns;
use crate::decode::FileNode;
use crate::hash::path_hash;
use crate::hash::hash_bytes;

verus! {

/// The position of the first zero byte at or after `p`, or the length of
/// `bytes` when there is none.
pub open spec fn find_nul(bytes: Seq<u8>, p: int) -> int
    decreases bytes.len() - p when 0 <= p <= bytes.len()
{
    if p < 0 || p >= bytes.len() {
        bytes.len() as int
    } else if bytes[p] == 0 {
        p
    } else {
        find_nul(bytes, p + 1)
    }
}

/// `find_nul` lands on the first zero byte at or after `p`.
pub proof fn lemma_find_nul_props(bytes: Seq<u8>, p: int)
    requires
        0 <= p <= bytes.len(),
    ensures
        p <= find_nul(bytes, p) <= bytes.len(),
        find_nul(bytes, p) < bytes.len() ==> bytes[find_nul(bytes, p)] == 0,
        forall|j: int| p <= j < find_nul(bytes, p) ==> bytes[j] != 0,
    decreases bytes.len() - p,
{
    if p < bytes.len() && bytes[p] != 0 {
        lemma_find_nul_props(bytes, p + 1);
    }
}

/// The directory listing encoded at `p`: the non-empty null-terminated
/// names before the terminating empty name, and the position just past
/// the terminator. `None` when the stream ends before the terminator.
pub open spec fn listing_at(bytes: Seq<u8>, p: int) -> Option<(Seq<Seq<u8>>, int)>
    decreases bytes.len() - p when 0 <= p <= bytes.len() via listing_at_decreases
{
    if !(0 <= p <= bytes.len()) {
        None
    } else {
        let q = find_nul(bytes, p);
        if q >= bytes.len() {
            None
        } else if q == p {
            Some((Seq::empty(), p + 1))
        } else {
            match listing_at(bytes, q + 1) {
                None => None,
                Some((names, e)) => Some((seq![bytes.subrange(p, q)] + names, e)),
            }
        }
    }
}

#[via_fn]
proof fn listing_at_decreases(bytes: Seq<u8>, p: int) {
    if 0 <= p <= bytes.len() {
        lemma_find_nul_props(bytes, p);
    }
}

/// Reads one null-terminated name at the cursor, leaving the cursor just
/// past the terminator; fails when the stream ends first.
pub fn read_name(s: &mut PartReader) -> (r: Result<Vec<u8>, Error>)
    requires
        old(s).wf(),
    ensures
        final(s).wf(),
        final(s).bytes() == old(s).bytes(),
        ({
            let q = find_nul(old(s).bytes(), old(s).pos());
            if q < old(s).bytes().len() {
                r matches Ok(v) && v@ == old(s).bytes().subrange(old(s).pos(), q)
                    && final(s).pos() == q + 1
            } else {
                r == Err::<Vec<u8>, Error>(Error::TruncatedInput)
            }
        }),
{
    let ghost q = find_nul(old(s).bytes(), old(s).pos());
    proof {
        lemma_find_nul_props(old(s).bytes(), old(s).pos());
    }
    let mut name: Vec<u8> = Vec::new();
    loop
        invariant
            s.wf(),
            old(s).wf(),
            s.bytes() == old(s).bytes(),
            old(s).pos() <= s.pos() <= s.bytes().len(),
            q == find_nul(old(s).bytes(), old(s).pos()),
            q == find_nul(s.bytes(), s.pos()),
            old(s).pos() <= q <= s.bytes().len(),
            q < s.bytes().len() ==> s.bytes()[q] == 0,
            s.pos() <= q,
            name@ == old(s).bytes().subrange(old(s).pos(), s.pos()),
        decreases s.bytes().len() - s.pos(),
    {
        let ghost pre = *s;
        match s.read_byte() {
            Ok(b) => {
                proof {
                    assert(b == pre.bytes()[pre.pos()]);
                }
                if b == 0 {
                    proof {
                        assert(find_nul(pre.bytes(), pre.pos()) == pre.pos());
                    }
                    return Ok(name);
                }
                proof {
                    assert(find_nul(pre.bytes(), pre.pos()) == find_nul(pre.bytes(), pre.pos() + 1));
                }
                name.push(b);
                proof {
                    assert(name@ =~= old(s).bytes().subrange(old(s).pos(), s.pos()));
                }
            },
            Err(_) => {
                return Err(Error::TruncatedInput);
            },
        }
    }
}

/// Reads a whole directory listing at the cursor: names until the empty
/// terminator; fails when the stream ends before the terminator.
pub fn read_listing(s: &mut PartReader) -> (r: Result<Vec<Vec<u8>>, Error>)
    requires
        old(s).wf(),
    ensures
        final(s).wf(),
        final(s).bytes() == old(s).bytes(),
        match listing_at(old(s).bytes(), old(s).pos()) {
            Some((names, e)) => r matches Ok(v) && parts_view(v@) == names && final(s).pos() == e
                && (forall|i: int| 0 <= i < v@.len() ==> v@[i]@.len() >= 1),
            None => r == Err::<Vec<Vec<u8>>, Error>(Error::TruncatedInput),
        },
{
    let mut names: Vec<Vec<u8>> = Vec::new();
    loop
        invariant
            s.wf(),
            old(s).wf(),
            s.bytes() == old(s).bytes(),
            0 <= s.pos() <= s.bytes().len(),
            forall|i: int| 0 <= i < names@.len() ==> names@[i]@.len() >= 1,
            listing_at(old(s).bytes(), old(s).pos()) == match listing_at(s.bytes(), s.pos()) {
                Some((rest, e)) => Some::<(Seq<Seq<u8>>, int)>((parts_view(names@) + rest, e)),
                None => None::<(Seq<Seq<u8>>, int)>,
            },
        decreases s.bytes().len() - s.pos(),
    {
        proof {
            lemma_find_nul_props(s.bytes(), s.pos());
        }
        let ghost pre = *s;
        match read_name(s) {
            Ok(v) => {
                proof {
                    let q = find_nul(pre.bytes(), pre.pos());
                    assert(q < pre.bytes().len());
                }
                if v.len() == 0 {
                    proof {
                        let q = find_nul(pre.bytes(), pre.pos());
                        assert(pre.bytes().subrange(pre.pos(), q).len() == 0);
                        assert(q == pre.pos());
                        assert(listing_at(pre.bytes(), pre.pos()) == Some((
                            Seq::<Seq<u8>>::empty(),
                            pre.pos() + 1,
                        )));
                        assert(parts_view(names@) + Seq::<Seq<u8>>::empty() =~= parts_view(names@));
                    }
                    return Ok(names);
                }
                proof {
                    let q = find_nul(pre.bytes(), pre.pos());
                    assert(v@ == pre.bytes().subrange(pre.pos(), q));
                    assert(v@.len() > 0);
                    assert(q != pre.pos());
                }
                let ghost old_deep = parts_view(names@);
                names.push(v);
                proof {
                    let q = find_nul(pre.bytes(), pre.pos());
                    assert(parts_view(names@) =~= old_deep + seq![v@]);
                    if listing_at(s.bytes(), s.pos()) is Some {
                        let (rest, e) = listing_at(s.bytes(), s.pos())->Some_0;
                        assert(listing_at(pre.bytes(), pre.pos()) == Some((
                            seq![pre.bytes().subrange(pre.pos(), q)] + rest,
                            e,
                        )));
                        assert(old_deep + (seq![v@] + rest) =~= (old_deep + seq![v@]) + rest);
                    }
                }
            },
            Err(_) => {
                return Err(Error::TruncatedInput);
            },
        }
    }
}

/// The candidate path of a listing entry under `path`: the name with its
/// one-byte marker stripped, joined below a non-root path with `/`.
pub open spec fn spec_extend_path(path: Seq<u8>, filename: Seq<u8>) -> Seq<u8> {
    if path.len() == 0 {
        filename.skip(1)
    } else {
        path + seq![0x2fu8] + filename.skip(1)
    }
}

/// Builds the candidate path of the listing entry `filename` under `path`.
pub fn extend_path_bytes(path: &Vec<u8>, filename: &Vec<u8>) -> (r: Vec<u8>)
    requires
        filename@.len() >= 1,
    ensures
        r@ == spec_extend_path(path@, filename@),
{
    let mut r: Vec<u8> = Vec::new();
    if path.len() > 0 {
        let mut i: usize = 0;
        while i < path.len()
            invariant
                i <= path@.len(),
                r@ == path@.take(i as int),
            decreases path@.len() - i,
        {
            r.push(path[i]);
            proof {
                assert(r@ =~= path@.take(i + 1));
            }
            i = i + 1;
        }
        r.push(0x2f);
    }
    let mut j: usize = 1;
    let ghost base = r@;
    while j < filename.len()
        invariant
            1 <= j <= filename@.len(),
            r@ == base + filename@.subrange(1, j as int),
        decreases filename@.len() - j,
    {
        r.push(filename[j]);
        proof {
            assert(r@ =~= base + filename@.subrange(1, j + 1));
        }
        j = j + 1;
    }
    proof {
        if path@.len() == 0 {
            assert(base =~= Seq::<u8>::empty());
            assert(r@ =~= filename@.skip(1));
        } else {
            assert(path@.take(path@.len() as int) =~= path@);
            assert(base =~= path@ + seq![0x2fu8]);
            assert(r@ =~= path@ + seq![0x2fu8] + filename@.skip(1));
        }
    }
    r
}


/// One extracted file: its reconstructed path (no leading separator) and
/// its bytes.
#[derive(Clone, Debug, PartialEq, Eq)]
pub struct ExtractedFile {
    pub path: Vec<u8>,
    pub data: Vec<u8>,
}

/// The view of extracted files as (path, data) byte-sequence pairs.
pub open spec fn files_view(v: Seq<ExtractedFile>) -> Seq<(Seq<u8>, Seq<u8>)> {
    v.map_values(|f: ExtractedFile| (f.path@, f.data@))
}

/// Prefixes already-extracted files onto the rest of an extraction,
/// unless that rest failed.
pub open spec fn prepend_files(
    acc: Seq<(Seq<u8>, Seq<u8>)>,
    r: Result<Seq<(Seq<u8>, Seq<u8>)>, Error>,
) -> Result<Seq<(Seq<u8>, Seq<u8>)>, Error> {
    match r {
        Ok(rest) => Ok(acc + rest),
        Err(e) => Err(e),
    }
}

/// The files extracted from the directory at `offset`, reached under
/// `path`, in depth-first listing order. Each directory level consumes
/// one unit of `fuel`; an exhausted guard fails the run.
pub open spec fn spec_extract_dir(
    bytes: Seq<u8>,
    nodes: Map<u32, FileNode>,
    path: Seq<u8>,
    offset: u64,
    fuel: nat,
) -> Result<Seq<(Seq<u8>, Seq<u8>)>, Error>
    decreases fuel, 0int, 0int,
{
    if fuel == 0 {
        Err(Error::RecursionLimit)
    } else if offset >= bytes.len() {
        Err(Error::TruncatedInput)
    } else {
        match listing_at(bytes, offset as int) {
            None => Err(Error::TruncatedInput),
            Some((names, _e)) => spec_extract_entries(
                bytes,
                nodes,
                path,
                names,
                0,
                (fuel - 1) as nat,
            ),
        }
    }
}

/// The files contributed by the listing entries `names[i..]`, in order:
/// an entry whose candidate path hash misses the index is skipped; a
/// matched `D` entry recurses; any other matched entry yields its node's
/// byte range, which must lie within the stream.
pub open spec fn spec_extract_entries(
    bytes: Seq<u8>,
    nodes: Map<u32, FileNode>,
    path: Seq<u8>,
    names: Seq<Seq<u8>>,
    i: int,
    fuel: nat,
) -> Result<Seq<(Seq<u8>, Seq<u8>)>, Error>
    decreases fuel, 1int, names.len() - i when 0 <= i <= names.len()
{
    if i >= names.len() {
        Ok(Seq::empty())
    } else {
        let child = spec_extend_path(path, names[i]);
        let h = path_hash(child);
        if !nodes.contains_key(h) {
            spec_extract_entries(bytes, nodes, path, names, i + 1, fuel)
        } else {
            let node = nodes[h];
            if names[i][0] == 0x44 {
                match spec_extract_dir(bytes, nodes, child, node.offset, fuel) {
                    Err(e) => Err(e),
                    Ok(sub) => prepend_files(
                        sub,
                        spec_extract_entries(bytes, nodes, path, names, i + 1, fuel),
                    ),
                }
            } else {
                if node.offset < bytes.len() && node.offset + node.size <= bytes.len() {
                    let data = bytes.subrange(node.offset as int, node.offset + node.size);
                    prepend_files(
                        seq![(child, data)],
                        spec_extract_entries(bytes, nodes, path, names, i + 1, fuel),
                    )
                } else {
                    Err(Error::TruncatedInput)
                }
            }
        }
    }
}

/// Extracts the directory at `offset`, reached under `path`, walking its
/// listing depth-first in listing order. `fuel` bounds the directory
/// nesting depth.
pub fn extract_dir(
    s: &mut PartReader,
    nodes: &HashMap<u32, FileNode>,
    path: &Vec<u8>,
    offset: u64,
    fuel: u32,
) -> (r: Result<Vec<ExtractedFile>, Error>)
    requires
        old(s).wf(),
    ensures
        final(s).wf(),
        final(s).bytes() == old(s).bytes(),
        match spec_extract_dir(old(s).bytes(), nodes@, path@, offset, fuel as nat) {
            Ok(files) => r matches Ok(v) && files_view(v@) == files,
            Err(e) => r == Err::<Vec<ExtractedFile>, Error>(e),
        },
    decreases fuel,
{
    if fuel == 0 {
        return Err(Error::RecursionLimit);
    }
    match s.seek_start(offset) {
        Ok(()) => (),
        Err(_) => {
            return Err(Error::TruncatedInput);
        },
    };
    let names = match read_listing(s) {
        Ok(v) => v,
        Err(e) => {
            return Err(e);
        },
    };
    let ghost bs = old(s).bytes();
    let ghost ns = parts_view(names@);
    let ghost f1 = (fuel - 1) as nat;
    proof {
        assert(spec_extract_dir(bs, nodes@, path@, offset, fuel as nat)
            == spec_extract_entries(bs, nodes@, path@, ns, 0, f1));
    }
    let mut out: Vec<ExtractedFile> = Vec::new();
    let mut i: usize = 0;
    while i < names.len()
        invariant
            s.wf(),
            s.bytes() == bs,
            bs == old(s).bytes(),
            ns == parts_view(names@),
            i <= names@.len(),
            fuel >= 1,
            f1 == (fuel - 1) as nat,
            forall|j: int| 0 <= j < names@.len() ==> names@[j]@.len() >= 1,
            spec_extract_dir(bs, nodes@, path@, offset, fuel as nat) == spec_extract_entries(
                bs,
                nodes@,
                path@,
                ns,
                0,
                f1,
            ),
            spec_extract_entries(bs, nodes@, path@, ns, 0, f1) == prepend_files(
                files_view(out@),
                spec_extract_entries(bs, nodes@, path@, ns, i as int, f1),
            ),
        decreases names@.len() - i,
    {
        let name = &names[i];
        let child = extend_path_bytes(path, name);
        let h = hash_bytes(child.as_slice());
        let ghost e_next = spec_extract_entries(bs, nodes@, path@, ns, i + 1, f1);
        proof {
            assert(ns[i as int] == names@[i as int]@);
            assert(child@ == spec_extend_path(path@, ns[i as int]));
        }
        match crate::decode::lookup_node(nodes, h) {
            None => {
                proof {
                    assert(spec_extract_entries(bs, nodes@, path@, ns, i as int, f1) == e_next);
                }
            },
            Some(node) => {
                if name[0] == 0x44 {
                    let mut sub = match extract_dir(s, nodes, &child, node.offset, fuel - 1) {
                        Ok(v) => v,
                        Err(e) => {
                            proof {
                                assert(spec_extract_entries(bs, nodes@, path@, ns, i as int, f1)
                                    == Err::<Seq<(Seq<u8>, Seq<u8>)>, Error>(e));
                            }
                            return Err(e);
                        },
                    };
                    let ghost subf = files_view(sub@);
                    let ghost ov = files_view(out@);
                    out.append(&mut sub);
                    proof {
                        assert(spec_extract_entries(bs, nodes@, path@, ns, i as int, f1)
                            == prepend_files(subf, e_next));
                        assert(files_view(out@) =~= ov + subf);
                        match e_next {
                            Ok(rest) => {
                                assert((ov + subf) + rest =~= ov + (subf + rest));
                            },
                            Err(_) => {},
                        }
                    }
                } else {
                    match s.seek_start(node.offset) {
                        Ok(()) => (),
                        Err(_) => {
                            proof {
                                assert(spec_extract_entries(bs, nodes@, path@, ns, i as int, f1)
                                    == Err::<Seq<(Seq<u8>, Seq<u8>)>, Error>(
                                    Error::TruncatedInput,
                                ));
                            }
                            return Err(Error::TruncatedInput);
                        },
                    };
                    let data = match s.read_exact(node.size as usize) {
                        Ok(v) => v,
                        Err(_) => {
                            proof {
                                assert(spec_extract_entries(bs, nodes@, path@, ns, i as int, f1)
                                    == Err::<Seq<(Seq<u8>, Seq<u8>)>, Error>(
                                    Error::TruncatedInput,
                                ));
                            }
                            return Err(Error::TruncatedInput);
                        },
                    };
                    let ghost ov = files_view(out@);
                    let ghost cd = (child@, data@);
                    out.push(ExtractedFile { path: child, data });
                    proof {
                        assert(spec_extract_entries(bs, nodes@, path@, ns, i as int, f1)
                            == prepend_files(seq![cd], e_next));
                        assert(files_view(out@) =~= ov + seq![cd]);
                        match e_next {
                            Ok(rest) => {
                                assert((ov + seq![cd]) + rest =~= ov + (seq![cd] + rest));
                            },
                            Err(_) => {},
                        }
                    }
                }
            },
        }
        i = i + 1;
    }
    proof {
        assert(spec_extract_entries(bs, nodes@, path@, ns, names@.len() as int, f1)
            == Ok::<Seq<(Seq<u8>, Seq<u8>)>, Error>(Seq::empty()));
        assert(files_view(out@) + Seq::<(Seq<u8>, Seq<u8>)>::empty() =~= files_view(out@));
    }
    Ok(out)
}


/// The index entries encoded after the fixed header, in order.
pub open spec fn spec_index_entries(bytes: Seq<u8>) -> Seq<crate::decode::IndexEntry> {
    Seq::new(
        crate::decode::be32(bytes.subrange(44, 48)) as nat,
        |i: int| crate::decode::spec_index_entry(bytes, 56 + 8 * i),
    )
}

/// The whole run over the logical archive `bytes`: header validation,
/// index and table decoding, then the depth-first walk from the root
/// directory at the base offset, under path prefix "".
pub open spec fn spec_extract_archive(bytes: Seq<u8>, fuel: nat) -> Result<
    Seq<(Seq<u8>, Seq<u8>)>,
    Error,
> {
    if bytes.len() >= 16 && bytes.subrange(0, 16) != crate::decode::magic() {
        Err(Error::InvalidFormat)
    } else if bytes.len() < 56 {
        Err(Error::TruncatedInput)
    } else {
        let base = crate::decode::be32(bytes.subrange(32, 36));
        let count = crate::decode::be32(bytes.subrange(44, 48));
        if 56 + 8 * count > bytes.len() {
            Err(Error::TruncatedInput)
        } else {
            let entries = spec_index_entries(bytes);
            if !(forall|i: int|
                0 <= i < entries.len() ==> (#[trigger] entries[i]).table_offset + 8
                    <= bytes.len()) {
                Err(Error::TruncatedInput)
            } else {
                let nodes = crate::decode::spec_nodes_map(bytes, base, entries);
                spec_extract_dir(bytes, nodes, Seq::empty(), base as u64, fuel)
            }
        }
    }
}

/// Extracts a whole archive given as ordered parts: validates the header,
/// decodes the index, and walks the tree from the root directory.
/// `depth_limit` bounds the directory nesting depth.
pub fn extract_archive(parts: Vec<Vec<u8>>, depth_limit: u32) -> (r: Result<
    Vec<ExtractedFile>,
    Error,
>)
    requires
        concat_bytes(parts_view(parts@)).len() <= u64::MAX,
    ensures
        match spec_extract_archive(concat_bytes(parts_view(parts@)), depth_limit as nat) {
            Ok(files) => r matches Ok(v) && files_view(v@) == files,
            Err(e) => r == Err::<Vec<ExtractedFile>, Error>(e),
        },
{
    let mut s = PartReader::new(parts);
    let ghost bs = s.bytes();
    let header = match crate::decode::parse_header(&mut s) {
        Ok(h) => h,
        Err(e) => {
            return Err(e);
        },
    };
    let entries = match crate::decode::read_index(&mut s, header.file_count) {
        Ok(v) => v,
        Err(e) => {
            return Err(e);
        },
    };
    proof {
        assert(entries@ =~= spec_index_entries(bs));
    }
    let nodes = match crate::decode::build_nodes(&mut s, header.base_offset, &entries) {
        Ok(m) => m,
        Err(e) => {
            return Err(e);
        },
    };
    let root: Vec<u8> = Vec::new();
    extract_dir(&mut s, &nodes, &root, header.base_offset as u64, depth_limit)
}


/// The candidate path of a listing entry as strings: the filename with its
/// one-byte marker stripped, joined below a non-root path with `/`.
pub fn extend_path(path: &str, filename: &str) -> (r: String)
    requires
        filename@.len() >= 1,
    ensures
        r@ == if path@.len() == 0 {
            filename@.skip(1)
        } else {
            path@ + seq!['/'] + filename@.skip(1)
        },
{
    let n = filename.unicode_len();
    let tail = filename.substring_char(1, n);
    proof {
        assert(tail@ =~= filename@.skip(1));
    }
    if path.unicode_len() == 0 {
        String::from_str(tail)
    } else {
        let mut r = String::from_str(path);
        r.append("/");
        r.append(tail);
        proof {
            reveal_strlit("/");
            assert("/"@ =~= seq!['/']);
            assert(r@ =~= path@ + seq!['/'] + filename@.skip(1));
        }
        r
    }
}

} // verus!
