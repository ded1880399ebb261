//! A seekable byte stream spanning an ordered sequence of in-memory parts.
//!
//! FSG images may be split into multiple part files. This module models the
//! logical archive as the concatenation of the parts' bytes and offers
//! reads and absolute, end-relative and cursor-relative seeks over it.

use vstd::prelude::*;
use crate::Error;

verus! {

/// The concatenation of a sequence of byte sequences.
pub open spec fn concat_bytes(parts: Seq<Seq<u8>>) -> Seq<u8>
    decreases parts.len(),
{
    if parts.len() == 0 {
        Seq::empty()
    } else {
        parts[0] + concat_bytes(parts.drop_first())
    }
}

/// The view of a list of byte vectors as a sequence of byte sequences.
pub open spec fn parts_view(parts: Seq<Vec<u8>>) -> Seq<Seq<u8>> {
    parts.map_values(|p: Vec<u8>| p@)
}

/// Concatenation distributes over appending part lists.
pub proof fn lemma_concat_bytes_app(a: Seq<Seq<u8>>, b: Seq<Seq<u8>>)
    ensures
        concat_bytes(a + b) == concat_bytes(a) + concat_bytes(b),
    decreases a.len(),
{
    if a.len() == 0 {
        assert(a + b =~= b);
        assert(concat_bytes(a) + concat_bytes(b) =~= concat_bytes(b));
    } else {
        assert((a + b).drop_first() =~= a.drop_first() + b);
        assert((a + b)[0] == a[0]);
        lemma_concat_bytes_app(a.drop_first(), b);
        assert(concat_bytes(a + b) =~= concat_bytes(a) + concat_bytes(b));
    }
}

/// A single part concatenates to itself.
pub proof fn lemma_concat_bytes_single(p: Seq<u8>)
    ensures
        concat_bytes(seq![p]) == p,
{
    assert(seq![p].drop_first() =~= Seq::<Seq<u8>>::empty());
    assert(concat_bytes(Seq::<Seq<u8>>::empty()) =~= Seq::<u8>::empty());
    assert(seq![p][0] == p);
    assert(concat_bytes(seq![p]) =~= p);
}

/// Any number of ordered byte parts read as one logical stream, with a cursor.
pub struct PartReader {
    parts: Vec<Vec<u8>>,
    pos: u64,
    total: u64,
}

impl PartReader {
    /// The logical contents: all parts' bytes, concatenated in order.
    pub closed spec fn bytes(&self) -> Seq<u8> {
        concat_bytes(parts_view(self.parts@))
    }

    /// The cursor's logical position.
    pub closed spec fn pos(&self) -> int {
        self.pos as int
    }

    /// The cached total length is exact.
    pub closed spec fn inv(&self) -> bool {
        self.total == self.bytes().len()
    }

    /// The cursor never passes the end, and the whole stream's length
    /// fits the cursor's range.
    pub open spec fn wf(&self) -> bool {
        &&& self.inv()
        &&& 0 <= self.pos() <= self.bytes().len()
        &&& self.bytes().len() <= u64::MAX
    }

    /// Builds a stream over `parts`, positioned at offset 0.
    pub fn new(parts: Vec<Vec<u8>>) -> (s: Self)
        requires
            concat_bytes(parts_view(parts@)).len() <= u64::MAX,
        ensures
            s.wf(),
            s.bytes() == concat_bytes(parts_view(parts@)),
            s.pos() == 0,
    {
        let ghost m = parts_view(parts@);
        let mut total: u64 = 0;
        let mut k: usize = 0;
        proof {
            assert(m.take(0) =~= Seq::<Seq<u8>>::empty());
        }
        while k < parts.len()
            invariant
                k <= parts.len(),
                m == parts_view(parts@),
                concat_bytes(m).len() <= u64::MAX,
                total == concat_bytes(m.take(k as int)).len(),
            decreases parts.len() - k,
        {
            proof {
                assert(m.take(k as int + 1) =~= m.take(k as int) + seq![m[k as int]]);
                lemma_concat_bytes_app(m.take(k as int), seq![m[k as int]]);
                lemma_concat_bytes_single(m[k as int]);
                assert(m =~= m.take(k as int + 1) + m.skip(k as int + 1));
                lemma_concat_bytes_app(m.take(k as int + 1), m.skip(k as int + 1));
            }
            total = total + parts[k].len() as u64;
            k = k + 1;
        }
        proof {
            assert(m.take(parts@.len() as int) =~= m);
        }
        PartReader { parts, pos: 0, total }
    }

    /// The total logical length.
    pub fn total_len(&self) -> (n: u64)
        requires
            self.wf(),
        ensures
            n == self.bytes().len(),
    {
        self.total
    }

    /// The cursor's current logical position.
    pub fn position(&self) -> (p: u64)
        ensures
            p == self.pos(),
    {
        self.pos
    }

    /// The byte at logical position `p`, found by walking the parts'
    /// prefix lengths; the cursor does not move.
    fn byte_at(&self, p: u64) -> (b: u8)
        requires
            self.wf(),
            p < self.bytes().len(),
        ensures
            b == self.bytes()[p as int],
    {
        let ghost m = parts_view(self.parts@);
        let mut k: usize = 0;
        let mut rem: u64 = p;
        proof {
            assert(m.skip(0) =~= m);
        }
        while k < self.parts.len()
            invariant
                self.wf(),
                m == parts_view(self.parts@),
                k <= self.parts@.len(),
                rem < concat_bytes(m.skip(k as int)).len(),
                concat_bytes(m.skip(k as int))[rem as int] == self.bytes()[p as int],
            decreases self.parts@.len() - k,
        {
            proof {
                assert(m.skip(k as int)[0] == m[k as int]);
                assert(m.skip(k as int).drop_first() =~= m.skip(k as int + 1));
            }
            if rem < self.parts[k].len() as u64 {
                return self.parts[k][rem as usize];
            }
            proof {
                assert(concat_bytes(m.skip(k as int))[rem as int] == concat_bytes(
                    m.skip(k as int + 1),
                )[rem - m[k as int].len()]);
            }
            rem = rem - self.parts[k].len() as u64;
            k = k + 1;
        }
        // never reached: a position below the total length falls in some part
        proof {
            assert(m.skip(k as int) =~= Seq::<Seq<u8>>::empty());
            assert(false);
        }
        0
    }

    /// Reads up to `n` bytes from the cursor, advancing it. The result is
    /// short only when the stream's end is reached.
    pub fn read(&mut self, n: usize) -> (r: Vec<u8>)
        requires
            old(self).wf(),
        ensures
            final(self).wf(),
            final(self).bytes() == old(self).bytes(),
            r@ == old(self).bytes().subrange(
                old(self).pos(),
                if old(self).pos() + n <= old(self).bytes().len() {
                    old(self).pos() + n
                } else {
                    old(self).bytes().len() as int
                },
            ),
            final(self).pos() == old(self).pos() + r@.len(),
    {
        let mut out: Vec<u8> = Vec::new();
        let mut i: usize = 0;
        while i < n && self.pos < self.total
            invariant
                self.wf(),
                self.bytes() == old(self).bytes(),
                self.parts == old(self).parts,
                self.total == old(self).total,
                i <= n,
                self.pos == old(self).pos + i,
                out@ == old(self).bytes().subrange(old(self).pos(), old(self).pos() + i),
            decreases n - i,
        {
            let b = self.byte_at(self.pos);
            out.push(b);
            self.pos = self.pos + 1;
            i = i + 1;
            proof {
                assert(out@ =~= old(self).bytes().subrange(
                    old(self).pos(),
                    old(self).pos() + i,
                ));
            }
        }
        out
    }

    /// Reads exactly `n` bytes from the cursor, or fails without moving it
    /// when fewer remain.
    pub fn read_exact(&mut self, n: usize) -> (r: Result<Vec<u8>, Error>)
        requires
            old(self).wf(),
        ensures
            final(self).wf(),
            final(self).bytes() == old(self).bytes(),
            r is Ok <==> old(self).pos() + n <= old(self).bytes().len(),
            r matches Ok(v) ==> v@ == old(self).bytes().subrange(
                old(self).pos(),
                old(self).pos() + n,
            ) && final(self).pos() == old(self).pos() + n,
            r is Err ==> *final(self) == *old(self) && r == Err::<Vec<u8>, Error>(
                Error::TruncatedInput,
            ),
    {
        if n as u64 <= self.total - self.pos {
            Ok(self.read(n))
        } else {
            Err(Error::TruncatedInput)
        }
    }

    /// Reads one byte at the cursor, or fails without moving it at the end
    /// of the stream.
    pub fn read_byte(&mut self) -> (r: Result<u8, Error>)
        requires
            old(self).wf(),
        ensures
            final(self).wf(),
            final(self).bytes() == old(self).bytes(),
            r is Ok <==> old(self).pos() < old(self).bytes().len(),
            r matches Ok(b) ==> b == old(self).bytes()[old(self).pos()] && final(self).pos()
                == old(self).pos() + 1,
            r is Err ==> *final(self) == *old(self) && r == Err::<u8, Error>(
                Error::TruncatedInput,
            ),
    {
        match self.read_exact(1) {
            Ok(v) => Ok(v[0]),
            Err(e) => Err(e),
        }
    }

    /// Moves the cursor to the absolute position `n`. Targets at or past the
    /// stream's end belong to no part and are rejected.
    pub fn seek_start(&mut self, n: u64) -> (r: Result<(), Error>)
        requires
            old(self).wf(),
        ensures
            final(self).wf(),
            final(self).bytes() == old(self).bytes(),
            r is Ok <==> n < old(self).bytes().len(),
            r is Ok ==> final(self).pos() == n as int,
            r is Err ==> *final(self) == *old(self) && r == Err::<(), Error>(
                Error::TruncatedInput,
            ),
    {
        if n < self.total {
            self.pos = n;
            Ok(())
        } else {
            Err(Error::TruncatedInput)
        }
    }

    /// Moves the cursor to `delta` bytes from the stream's end.
    pub fn seek_end(&mut self, delta: i64) -> (r: Result<(), Error>)
        requires
            old(self).wf(),
        ensures
            final(self).wf(),
            final(self).bytes() == old(self).bytes(),
            r is Ok <==> 0 <= old(self).bytes().len() + delta < old(self).bytes().len(),
            r is Ok ==> final(self).pos() == old(self).bytes().len() + delta,
            r is Err ==> *final(self) == *old(self) && r == Err::<(), Error>(
                Error::TruncatedInput,
            ),
    {
        let target: i128 = self.total as i128 + delta as i128;
        if 0 <= target && target < self.total as i128 {
            self.pos = target as u64;
            Ok(())
        } else {
            Err(Error::TruncatedInput)
        }
    }

    /// Moves the cursor by `delta` bytes relative to its position.
    pub fn seek_current(&mut self, delta: i64) -> (r: Result<(), Error>)
        requires
            old(self).wf(),
        ensures
            final(self).wf(),
            final(self).bytes() == old(self).bytes(),
            r is Ok <==> 0 <= old(self).pos() + delta < old(self).bytes().len(),
            r is Ok ==> final(self).pos() == old(self).pos() + delta,
            r is Err ==> *final(self) == *old(self) && r == Err::<(), Error>(
                Error::TruncatedInput,
            ),
    {
        let target: i128 = self.pos as i128 + delta as i128;
        if 0 <= target && target < self.total as i128 {
            self.pos = target as u64;
            Ok(())
        } else {
            Err(Error::TruncatedInput)
        }
    }
}

/// Reading a whole stream from offset 0 yields the concatenation of its
/// parts: the result does not depend on where the part boundaries fall.
pub fn read_all(parts: Vec<Vec<u8>>) -> (r: Vec<u8>)
    requires
        concat_bytes(parts_view(parts@)).len() <= usize::MAX,
    ensures
        r@ == concat_bytes(parts_view(parts@)),
{
    let mut s = PartReader::new(parts);
    let n = s.total_len();
    let r = s.read(n as usize);
    proof {
        assert(r@ =~= s.bytes());
    }
    r
}

/// Seeking to an absolute position and reading one byte returns exactly the
/// byte of the logical concatenation at that position.
pub fn read_byte_at(s: &mut PartReader, p: u64) -> (r: Result<u8, Error>)
    requires
        old(s).wf(),
    ensures
        final(s).wf(),
        final(s).bytes() == old(s).bytes(),
        r is Ok <==> p < old(s).bytes().len(),
        r matches Ok(b) ==> b == old(s).bytes()[p as int],
{
    match s.seek_start(p) {
        Ok(()) => s.read_byte(),
        Err(e) => Err(e),
    }
}

} // verus!
