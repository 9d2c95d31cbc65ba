//! The guest memory reader and writer over one descriptor chain.
//!
//! A descriptor chain reaches the core as a read prefix (the request bytes)
//! followed by a writable suffix (the reply area), each a sequence of
//! segments. The reader hands out a contiguous logical payload that may span
//! segment boundaries; the writer lays the reply down across the writable
//! segments. Both keep a single monotonically increasing cursor over the
//! flattened bytes and enforce bounds: reading past the prefix is
//! `Protocol` (the request was truncated), writing past the suffix is
//! `OutOfMemory`.

use vstd::prelude::*;
use vstd::pervasive::VecAdditionalExecFns;

use crate::error::ErrorKind;

verus! {

/// The bytes of `segs` laid end to end.
pub open spec fn spec_flat(segs: Seq<Vec<u8>>) -> Seq<u8>
    decreases segs.len(),
{
    if segs.len() == 0 {
        Seq::empty()
    } else {
        segs[0]@ + spec_flat(segs.drop_first())
    }
}

/// Flattening one more segment appends its bytes.
pub proof fn lemma_flat_push(segs: Seq<Vec<u8>>, x: Vec<u8>)
    ensures
        spec_flat(segs.push(x)) == spec_flat(segs) + x@,
    decreases segs.len(),
{
    if segs.len() == 0 {
        assert(segs.push(x)[0] == x);
        assert(segs.push(x).drop_first() =~= Seq::<Vec<u8>>::empty());
        assert(spec_flat(segs.push(x)) == x@ + spec_flat(Seq::<Vec<u8>>::empty()));
        assert(spec_flat(segs.push(x)) =~= spec_flat(segs) + x@);
    } else {
        assert(segs.push(x)[0] == segs[0]);
        assert(segs.push(x).drop_first() =~= segs.drop_first().push(x));
        lemma_flat_push(segs.drop_first(), x);
        assert(spec_flat(segs.push(x)) == segs[0]@ + (spec_flat(segs.drop_first()) + x@));
        assert(spec_flat(segs.push(x)) =~= spec_flat(segs) + x@);
    }
}

/// The flattened prefix grows segment by segment.
pub proof fn lemma_flat_take_succ(segs: Seq<Vec<u8>>, i: int)
    requires
        0 <= i < segs.len(),
    ensures
        spec_flat(segs.take(i + 1)) == spec_flat(segs.take(i)) + segs[i]@,
{
    assert(segs.take(i + 1) =~= segs.take(i).push(segs[i]));
    lemma_flat_push(segs.take(i), segs[i]);
}

/// A flattened prefix never outgrows the whole.
pub proof fn lemma_flat_take_le(segs: Seq<Vec<u8>>, i: int)
    requires
        0 <= i <= segs.len(),
    ensures
        spec_flat(segs.take(i)).len() <= spec_flat(segs).len(),
        i == segs.len() ==> spec_flat(segs.take(i)) == spec_flat(segs),
    decreases segs.len() - i,
{
    if i == segs.len() {
        assert(segs.take(i) =~= segs);
    } else {
        lemma_flat_take_succ(segs, i);
        lemma_flat_take_le(segs, i + 1);
    }
}

/// Byte `j` of segment `i` sits at flat position `len(flat(take(i))) + j`.
pub proof fn lemma_flat_index(segs: Seq<Vec<u8>>, i: int, j: int)
    requires
        0 <= i < segs.len(),
        0 <= j < segs[i]@.len(),
    ensures
        spec_flat(segs.take(i)).len() + j < spec_flat(segs).len(),
        spec_flat(segs)[spec_flat(segs.take(i)).len() + j] == segs[i]@[j],
    decreases i,
{
    if i == 0 {
        assert(segs.take(0) =~= Seq::<Vec<u8>>::empty());
        assert(spec_flat(segs) == segs[0]@ + spec_flat(segs.drop_first()));
    } else {
        let t = segs.drop_first();
        lemma_flat_index(t, i - 1, j);
        assert(segs.take(i).drop_first() =~= t.take(i - 1));
        assert(segs.take(i)[0] == segs[0]);
        assert(spec_flat(segs.take(i)) == segs[0]@ + spec_flat(t.take(i - 1)));
        assert(spec_flat(segs) == segs[0]@ + spec_flat(t));
        let base = segs[0]@.len();
        let p = spec_flat(t.take(i - 1)).len() + j;
        assert(spec_flat(segs)[base + p] == spec_flat(t)[p]);
    }
}

/// Replacing one byte of one segment replaces exactly that byte of the
/// flattened view.
pub proof fn lemma_flat_update(segs: Seq<Vec<u8>>, segs2: Seq<Vec<u8>>, i: int, j: int, b: u8)
    requires
        0 <= i < segs.len(),
        0 <= j < segs[i]@.len(),
        segs2.len() == segs.len(),
        forall|k: int| 0 <= k < segs.len() && k != i ==> segs2[k] == segs[k],
        segs2[i]@ == segs[i]@.update(j, b),
    ensures
        spec_flat(segs2) == spec_flat(segs).update(spec_flat(segs.take(i)).len() + j, b),
    decreases i,
{
    lemma_flat_index(segs, i, j);
    if i == 0 {
        assert(segs.take(0) =~= Seq::<Vec<u8>>::empty());
        assert(segs2.drop_first() =~= segs.drop_first());
        assert(spec_flat(segs2) == segs2[0]@ + spec_flat(segs.drop_first()));
        assert(spec_flat(segs2) =~= spec_flat(segs).update(j, b));
    } else {
        let t = segs.drop_first();
        let t2 = segs2.drop_first();
        assert(t2.len() == t.len());
        assert(forall|k: int| 0 <= k < t.len() && k != i - 1 ==> t2[k] == t[k]);
        assert(t2[i - 1]@ == t[i - 1]@.update(j, b));
        lemma_flat_update(t, t2, i - 1, j, b);
        assert(segs2[0] == segs[0]);
        assert(spec_flat(segs2) == segs[0]@ + spec_flat(t2));
        assert(segs.take(i).drop_first() =~= t.take(i - 1));
        assert(spec_flat(segs.take(i)) == segs[0]@ + spec_flat(t.take(i - 1)));
        let base = segs[0]@.len();
        let p = spec_flat(t.take(i - 1)).len() + j;
        lemma_flat_index(t, i - 1, j);
        assert(spec_flat(segs2) =~= spec_flat(segs).update(base + p, b));
    }
}

/// A cursor over segmented bytes: the shared shape of the reader and the
/// writer.
pub struct SegCursor {
    /// The segments.
    pub segs: Vec<Vec<u8>>,
    /// The current segment.
    pub seg: usize,
    /// The byte offset inside the current segment.
    pub off: usize,
    /// The flat position: bytes consumed so far.
    pub pos: usize,
    /// The flattened length of all segments.
    pub total: usize,
}

impl SegCursor {
    /// The cursor's consistency: `pos` is the flattened position of
    /// (`seg`, `off`) and `total` the whole flattened length.
    pub open spec fn wf(self) -> bool {
        &&& self.total == spec_flat(self.segs@).len()
        &&& self.seg <= self.segs@.len()
        &&& if self.seg < self.segs@.len() {
            self.off <= self.segs@[self.seg as int]@.len()
        } else {
            self.off == 0
        }
        &&& self.pos == spec_flat(self.segs@.take(self.seg as int)).len() + self.off
        &&& self.pos <= self.total
    }

    /// The flattened bytes under the cursor.
    pub open spec fn flat(self) -> Seq<u8> {
        spec_flat(self.segs@)
    }

    /// Positions a cursor at the start of `segs`. The segments must not
    /// flatten to more bytes than a `usize` can count.
    pub fn new(segs: Vec<Vec<u8>>) -> (r: SegCursor)
        requires
            spec_flat(segs@).len() <= usize::MAX,
        ensures
            r.wf(),
            r.segs == segs,
            r.pos == 0,
            r.total == spec_flat(segs@).len(),
    {
        let mut total: usize = 0;
        let mut i: usize = 0;
        while i < segs.len()
            invariant
                spec_flat(segs@).len() <= usize::MAX,
                i <= segs@.len(),
                total == spec_flat(segs@.take(i as int)).len(),
            decreases segs@.len() - i,
        {
            proof {
                lemma_flat_take_succ(segs@, i as int);
                lemma_flat_take_le(segs@, i + 1);
            }
            total = total + segs[i].len();
            i = i + 1;
        }
        proof {
            lemma_flat_take_le(segs@, segs@.len() as int);
            assert(segs@.take(0) =~= Seq::<Vec<u8>>::empty());
        }
        SegCursor { segs, seg: 0, off: 0, pos: 0, total }
    }

    /// How many bytes lie between the cursor and the end.
    pub fn remaining(&self) -> (r: usize)
        requires
            self.wf(),
        ensures
            r == self.total - self.pos,
    {
        self.total - self.pos
    }

    /// Advances over exhausted segments until the cursor stands on a byte or
    /// at the very end.
    fn normalize(&mut self)
        requires
            old(self).wf(),
        ensures
            final(self).wf(),
            final(self).segs == old(self).segs,
            final(self).pos == old(self).pos,
            final(self).pos < final(self).total ==> final(self).seg < final(self).segs@.len()
                && final(self).off < final(self).segs@[final(self).seg as int]@.len(),
    {
        while self.seg < self.segs.len() && self.off == self.segs[self.seg].len()
            invariant
                self.wf(),
                self.segs == old(self).segs,
                self.pos == old(self).pos,
            decreases self.segs@.len() - self.seg,
        {
            proof {
                lemma_flat_take_succ(self.segs@, self.seg as int);
            }
            self.seg = self.seg + 1;
            self.off = 0;
        }
        proof {
            if self.seg == self.segs@.len() {
                lemma_flat_take_le(self.segs@, self.seg as int);
                assert(self.pos == self.total);
            }
        }
    }

    /// Reads the byte under the cursor and advances. At the end it fails
    /// with `Protocol`: the prefix is exhausted.
    pub fn read_byte(&mut self) -> (r: Result<u8, ErrorKind>)
        requires
            old(self).wf(),
        ensures
            final(self).wf(),
            final(self).segs == old(self).segs,
            final(self).total == old(self).total,
            old(self).pos < old(self).total ==> r == Ok::<u8, ErrorKind>(
                old(self).flat()[old(self).pos as int],
            ) && final(self).pos == old(self).pos + 1,
            old(self).pos == old(self).total ==> r == Err::<u8, ErrorKind>(ErrorKind::Protocol)
                && final(self).pos == old(self).pos,
    {
        self.normalize();
        if self.seg >= self.segs.len() {
            return Err(ErrorKind::Protocol);
        }
        if self.off >= self.segs[self.seg].len() {
            return Err(ErrorKind::Protocol);
        }
        let b = self.segs[self.seg][self.off];
        proof {
            lemma_flat_index(self.segs@, self.seg as int, self.off as int);
        }
        self.off = self.off + 1;
        self.pos = self.pos + 1;
        Ok(b)
    }

    /// Overwrites the byte under the cursor and advances. At the end it
    /// fails with `OutOfMemory`: the reply area is full.
    pub fn write_byte(&mut self, b: u8) -> (r: Result<(), ErrorKind>)
        requires
            old(self).wf(),
        ensures
            final(self).wf(),
            final(self).total == old(self).total,
            final(self).flat().len() == old(self).flat().len(),
            old(self).pos < old(self).total ==> r == Ok::<(), ErrorKind>(()) && final(self).pos
                == old(self).pos + 1 && final(self).flat() == old(self).flat().update(
                old(self).pos as int,
                b,
            ),
            old(self).pos == old(self).total ==> r == Err::<(), ErrorKind>(
                ErrorKind::OutOfMemory,
            ) && final(self).pos == old(self).pos && final(self).flat() == old(self).flat(),
    {
        self.normalize();
        if self.seg >= self.segs.len() {
            return Err(ErrorKind::OutOfMemory);
        }
        if self.off >= self.segs[self.seg].len() {
            return Err(ErrorKind::OutOfMemory);
        }
        let ghost pre = self.segs@;
        let ghost i = self.seg as int;
        let ghost j = self.off as int;
        proof {
            lemma_flat_index(pre, i, j);
            assert(old(self).pos < old(self).total);
        }
        let s = &mut self.segs[self.seg];
        s.set(self.off, b);
        proof {
            assert(self.segs@ =~= pre.update(i, self.segs@[i]));
            lemma_flat_update(pre, self.segs@, i, j, b);
            assert(spec_flat(self.segs@.take(i)) =~= spec_flat(pre.take(i))) by {
                assert(self.segs@.take(i) =~= pre.take(i));
            }
        }
        self.off = self.off + 1;
        self.pos = self.pos + 1;
        Ok(())
    }

    /// Reads exactly `n` bytes, advancing across segment boundaries, and
    /// fails with `Protocol` (leaving the cursor alone) when fewer remain.
    pub fn read_exact(&mut self, n: usize) -> (r: Result<Vec<u8>, ErrorKind>)
        requires
            old(self).wf(),
        ensures
            final(self).wf(),
            final(self).segs == old(self).segs,
            final(self).total == old(self).total,
            old(self).pos + n <= old(self).total ==> (r matches Ok(b) && b@ == old(
                self,
            ).flat().subrange(old(self).pos as int, old(self).pos + n) && final(self).pos == old(
                self,
            ).pos + n),
            old(self).pos + n > old(self).total ==> r == Err::<Vec<u8>, ErrorKind>(
                ErrorKind::Protocol,
            ) && final(self).pos == old(self).pos,
    {
        if n > self.total - self.pos {
            return Err(ErrorKind::Protocol);
        }
        let mut out: Vec<u8> = Vec::new();
        let mut i: usize = 0;
        while i < n
            invariant
                self.wf(),
                self.segs == old(self).segs,
                self.total == old(self).total,
                i <= n,
                old(self).pos + n <= old(self).total,
                self.pos == old(self).pos + i,
                out@ == old(self).flat().subrange(old(self).pos as int, old(self).pos + i),
            decreases n - i,
        {
            let b = match self.read_byte() {
                Ok(b) => b,
                Err(e) => {
                    proof {
                        assert(false);
                    }
                    return Err(e);
                },
            };
            out.push(b);
            assert(out@ =~= old(self).flat().subrange(old(self).pos as int, old(self).pos + i
                + 1));
            i = i + 1;
        }
        Ok(out)
    }

    /// Writes all of `data`, advancing across segment boundaries, and fails
    /// with `OutOfMemory` (leaving the bytes and cursor alone) when the
    /// remaining capacity is too small.
    pub fn write_all(&mut self, data: &[u8]) -> (r: Result<(), ErrorKind>)
        requires
            old(self).wf(),
        ensures
            final(self).wf(),
            final(self).total == old(self).total,
            final(self).flat().len() == old(self).flat().len(),
            old(self).pos + data@.len() <= old(self).total ==> r == Ok::<(), ErrorKind>(())
                && final(self).pos == old(self).pos + data@.len() && final(self).flat() == old(
                self,
            ).flat().subrange(0, old(self).pos as int) + data@ + old(self).flat().subrange(
                old(self).pos + data@.len(),
                old(self).flat().len() as int,
            ),
            old(self).pos + data@.len() > old(self).total ==> r == Err::<(), ErrorKind>(
                ErrorKind::OutOfMemory,
            ) && final(self).pos == old(self).pos && final(self).flat() == old(self).flat(),
    {
        let n = data.len();
        if n > self.total - self.pos {
            return Err(ErrorKind::OutOfMemory);
        }
        let mut i: usize = 0;
        while i < n
            invariant
                self.wf(),
                self.total == old(self).total,
                i <= n,
                n == data@.len(),
                old(self).pos + n <= old(self).total,
                self.pos == old(self).pos + i,
                self.flat().len() == old(self).flat().len(),
                self.flat() == old(self).flat().subrange(0, old(self).pos as int)
                    + data@.subrange(0, i as int) + old(self).flat().subrange(
                    old(self).pos + i,
                    old(self).flat().len() as int,
                ),
            decreases n - i,
        {
            match self.write_byte(data[i]) {
                Ok(_) => {},
                Err(e) => {
                    proof {
                        assert(false);
                    }
                    return Err(e);
                },
            }
            assert(self.flat() =~= old(self).flat().subrange(0, old(self).pos as int)
                + data@.subrange(0, i + 1) + old(self).flat().subrange(
                old(self).pos + i + 1,
                old(self).flat().len() as int,
            ));
            i = i + 1;
        }
        assert(data@.subrange(0, n as int) =~= data@);
        Ok(())
    }

    /// Hands the segments back, the writes laid down in them.
    pub fn into_segments(self) -> (r: Vec<Vec<u8>>)
        ensures
            r == self.segs,
    {
        self.segs
    }
}

} // verus!
