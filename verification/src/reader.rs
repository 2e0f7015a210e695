//! The cursor over a borrowed byte region.

use vstd::prelude::*;
use vstd::slice::slice_subrange;

use crate::plain::PlainData;

verus! {

/// Whether `pat` occurs in `hay` starting at index `i`.
pub open spec fn occurs_at(hay: Seq<u8>, pat: Seq<u8>, i: int) -> bool {
    &&& 0 <= i
    &&& i + pat.len() <= hay.len()
    &&& hay.subrange(i, i + pat.len() as int) == pat
}

/// What a search for `pat` in `hay` returns: the offset of the first
/// occurrence, or `None` when the pattern is empty or does not occur.
pub open spec fn is_find_result(hay: Seq<u8>, pat: Seq<u8>, r: Option<usize>) -> bool {
    match r {
        Some(i) => {
            &&& pat.len() > 0
            &&& occurs_at(hay, pat, i as int)
            &&& forall|j: int| 0 <= j < i ==> !occurs_at(hay, pat, j)
        },
        None => pat.len() == 0 || (forall|j: int| !occurs_at(hay, pat, j)),
    }
}

/// The single error of the reader: a requested offset, length or size would
/// reach past the end of the remaining region.
#[derive(Clone, Copy, Debug, PartialEq, Eq, Structural)]
pub struct OutOfBounds;

/// A zero-copy reader over a borrowed byte region.
///
/// The reader never owns or copies the region: every slice it returns is a
/// sub-range of the region it was built over, and stays valid for the
/// region's lifetime `'a`. Consuming operations move the read position
/// forward; peek operations and searches take `&self` and cannot move it.
pub struct BufferReader<'a> {
    buffer: &'a [u8],
    pos: usize,
}

impl<'a> BufferReader<'a> {
    /// The whole region the reader was built over.
    pub closed spec fn region(self) -> Seq<u8> {
        self.buffer@
    }

    /// The current read position, an offset into the region.
    pub closed spec fn position(self) -> int {
        self.pos as int
    }

    /// How many bytes are left between the position and the end.
    pub open spec fn remaining(self) -> int {
        self.region().len() - self.position()
    }

    /// The bytes left between the position and the end.
    pub open spec fn remaining_bytes(self) -> Seq<u8> {
        self.region().subrange(self.position(), self.region().len() as int)
    }

    #[verifier::type_invariant]
    spec fn wf(self) -> bool {
        self.pos <= self.buffer@.len()
    }

    /// Returns a new reader over `slice`, positioned at its start.
    pub fn new(slice: &'a [u8]) -> (r: Self)
        ensures
            r.region() == slice@,
            r.position() == 0,
    {
        BufferReader { buffer: slice, pos: 0 }
    }

    /// Returns the length of the remaining region.
    pub fn len(&self) -> (n: usize)
        ensures
            n == self.remaining(),
    {
        proof {
            use_type_invariant(self);
        }
        self.buffer.len() - self.pos
    }

    /// Returns whether no bytes remain.
    pub fn is_empty(&self) -> (b: bool)
        ensures
            b <==> self.remaining() == 0,
    {
        self.len() == 0
    }

    /// Returns a view of the remaining bytes, without advancing.
    pub fn peek_remaining(&self) -> (r: &'a [u8])
        ensures
            r@ == self.remaining_bytes(),
    {
        proof {
            use_type_invariant(self);
        }
        slice_subrange(self.buffer, self.pos, self.buffer.len())
    }

    /// Returns the remaining bytes, consuming the reader.
    pub fn get_remaining(self) -> (r: &'a [u8])
        ensures
            r@ == self.remaining_bytes(),
    {
        proof {
            use_type_invariant(&self);
        }
        slice_subrange(self.buffer, self.pos, self.buffer.len())
    }

    /// Checks that `len` more bytes are available; no effect either way.
    fn check_available(&self, len: usize) -> (r: Result<(), OutOfBounds>)
        ensures
            r is Ok <==> len <= self.remaining(),
    {
        proof {
            use_type_invariant(self);
        }
        if len > self.buffer.len() - self.pos {
            Err(OutOfBounds)
        } else {
            Ok(())
        }
    }

    /// Moves the position forward by `len` and returns the bytes passed
    /// over. The one place that mutates the position; callers must have
    /// checked that `len` bytes are available.
    fn advance(&mut self, len: usize) -> (r: &'a [u8])
        requires
            len <= old(self).remaining(),
        ensures
            final(self).region() == old(self).region(),
            final(self).position() == old(self).position() + len,
            r@ == old(self).region().subrange(
                old(self).position(),
                old(self).position() + len,
            ),
    {
        proof {
            use_type_invariant(&*self);
        }
        let total = self.buffer.len();
        assert(self.pos + len <= total);
        let r = slice_subrange(self.buffer, self.pos, self.pos + len);
        self.pos = self.pos + len;
        r
    }

    /// Consumes and returns the next `len` bytes as a sub-range of the
    /// region. Fails with `OutOfBounds`, moving nothing, when fewer than
    /// `len` bytes remain.
    pub fn read_bytes(&mut self, len: usize) -> (r: Result<&'a [u8], OutOfBounds>)
        ensures
            final(self).region() == old(self).region(),
            len <= old(self).remaining() ==> ({
                &&& r matches Ok(bytes) && bytes@ == old(self).region().subrange(
                    old(self).position(),
                    old(self).position() + len,
                )
                &&& final(self).position() == old(self).position() + len
            }),
            len > old(self).remaining() ==> r is Err && *final(self) == *old(self),
    {
        self.check_available(len)?;
        Ok(self.advance(len))
    }

    /// Consumes and returns the next byte. Fails with `OutOfBounds`,
    /// moving nothing, when the reader is empty.
    pub fn read_byte(&mut self) -> (r: Result<u8, OutOfBounds>)
        ensures
            final(self).region() == old(self).region(),
            old(self).remaining() >= 1 ==> ({
                &&& r matches Ok(b) && b == old(self).region()[old(self).position()]
                &&& final(self).position() == old(self).position() + 1
            }),
            old(self).remaining() == 0 ==> r is Err && *final(self) == *old(self),
    {
        self.check_available(1)?;
        let bytes = self.advance(1);
        Ok(bytes[0])
    }

    /// Returns the byte at `offset` past the position, without advancing.
    /// Fails with `OutOfBounds` when `offset` is not within the remaining
    /// bytes.
    pub fn peek_byte(&self, offset: usize) -> (r: Result<u8, OutOfBounds>)
        ensures
            offset < self.remaining() ==> (r matches Ok(b) && b == self.region()[
                self.position() + offset
            ]),
            offset >= self.remaining() ==> r is Err,
    {
        proof {
            use_type_invariant(self);
        }
        if offset >= self.buffer.len() - self.pos {
            return Err(OutOfBounds);
        }
        Ok(self.buffer[self.pos + offset])
    }

    /// Returns the `len` bytes that start `offset` past the position,
    /// without advancing. Fails with `OutOfBounds` when the range
    /// `offset..offset + len` is not within the remaining bytes.
    pub fn peek_bytes(&self, offset: usize, len: usize) -> (r: Result<&'a [u8], OutOfBounds>)
        ensures
            offset + len <= self.remaining() ==> (r matches Ok(bytes) && bytes@
                == self.region().subrange(
                self.position() + offset,
                self.position() + offset + len,
            )),
            offset + len > self.remaining() ==> r is Err,
    {
        proof {
            use_type_invariant(self);
        }
        let avail = self.buffer.len() - self.pos;
        if offset > avail || len > avail - offset {
            return Err(OutOfBounds);
        }
        Ok(slice_subrange(self.buffer, self.pos + offset, self.pos + offset + len))
    }

    /// Consumes the next `T::spec_size()` bytes and returns their value,
    /// read little-endian. Fails with `OutOfBounds`, moving nothing, when
    /// fewer bytes remain than the type needs.
    pub fn read_t<T: PlainData>(&mut self) -> (r: Result<T, OutOfBounds>)
        ensures
            final(self).region() == old(self).region(),
            T::spec_size() <= old(self).remaining() ==> ({
                &&& r matches Ok(v) && v == T::spec_from_le(
                    old(self).region().subrange(
                        old(self).position(),
                        old(self).position() + T::spec_size(),
                    ),
                )
                &&& final(self).position() == old(self).position() + T::spec_size()
            }),
            T::spec_size() > old(self).remaining() ==> r is Err && *final(self) == *old(self),
    {
        let size = T::size();
        let bytes = self.read_bytes(size)?;
        Ok(T::from_le(bytes))
    }

    /// Returns the value of the `T::spec_size()` bytes that start `offset`
    /// past the position, read little-endian, without advancing. Fails
    /// with `OutOfBounds` when those bytes reach past the end.
    pub fn peek_t<T: PlainData>(&self, offset: usize) -> (r: Result<T, OutOfBounds>)
        ensures
            offset + T::spec_size() <= self.remaining() ==> (r matches Ok(v) && v
                == T::spec_from_le(
                self.region().subrange(
                    self.position() + offset,
                    self.position() + offset + T::spec_size(),
                ),
            )),
            offset + T::spec_size() > self.remaining() ==> r is Err,
    {
        let size = T::size();
        let bytes = self.peek_bytes(offset, size)?;
        Ok(T::from_le(bytes))
    }

    /// Consumes the next `count * T::spec_size()` bytes and returns them
    /// as `count` values of `T`, each read little-endian from its own
    /// sub-range. Fails with `OutOfBounds`, moving nothing, when fewer
    /// bytes remain than the values need.
    pub fn read_slice_t<T: PlainData>(&mut self, count: usize) -> (r: Result<
        Vec<T>,
        OutOfBounds,
    >)
        ensures
            final(self).region() == old(self).region(),
            count * T::spec_size() <= old(self).remaining() ==> ({
                &&& r matches Ok(vals) && vals@.len() == count && (forall|k: int|
                    0 <= k < count ==> vals@[k] == T::spec_from_le(
                        old(self).region().subrange(
                            old(self).position() + k * T::spec_size(),
                            old(self).position() + (k + 1) * T::spec_size(),
                        ),
                    ))
                &&& final(self).position() == old(self).position() + count * T::spec_size()
            }),
            count * T::spec_size() > old(self).remaining() ==> r is Err && *final(self) == *old(
                self,
            ),
    {
        let size = T::size();
        let avail = self.len();
        let total = match count.checked_mul(size) {
            Some(t) => t,
            None => {
                assert(count * T::spec_size() > avail);
                return Err(OutOfBounds);
            },
        };
        self.check_available(total)?;
        let mut vals: Vec<T> = Vec::new();
        let mut k: usize = 0;
        while k < count
            invariant
                size == T::spec_size(),
                total == count * size,
                total <= old(self).remaining(),
                k <= count,
                self.region() == old(self).region(),
                self.position() == old(self).position() + k * size,
                vals@.len() == k,
                forall|j: int|
                    0 <= j < k ==> vals@[j] == T::spec_from_le(
                        old(self).region().subrange(
                            old(self).position() + j * size,
                            old(self).position() + (j + 1) * size,
                        ),
                    ),
            decreases count - k,
        {
            proof {
                assert(k * size + size == (k + 1) * size) by (nonlinear_arith);
                assert((k + 1) * size <= count * size) by (nonlinear_arith)
                    requires
                        k < count,
                        size >= 0,
                ;
            }
            let bytes = self.read_bytes(size).unwrap();
            vals.push(T::from_le(bytes));
            k = k + 1;
        }
        Ok(vals)
    }

    /// Returns the `count * T::spec_size()` bytes that start `offset` past
    /// the position as `count` values of `T`, each read little-endian from
    /// its own sub-range, without advancing. Fails with `OutOfBounds` when
    /// those bytes reach past the end.
    pub fn peek_slice_t<T: PlainData>(&self, offset: usize, count: usize) -> (r: Result<
        Vec<T>,
        OutOfBounds,
    >)
        ensures
            offset + count * T::spec_size() <= self.remaining() ==> (r matches Ok(vals)
                && vals@.len() == count && (forall|k: int|
                0 <= k < count ==> vals@[k] == T::spec_from_le(
                    self.region().subrange(
                        self.position() + offset + k * T::spec_size(),
                        self.position() + offset + (k + 1) * T::spec_size(),
                    ),
                ))),
            offset + count * T::spec_size() > self.remaining() ==> r is Err,
    {
        proof {
            use_type_invariant(self);
        }
        let size = T::size();
        let avail = self.len();
        let total = match count.checked_mul(size) {
            Some(t) => t,
            None => {
                assert(count * T::spec_size() > avail);
                return Err(OutOfBounds);
            },
        };
        if offset > avail || total > avail - offset {
            return Err(OutOfBounds);
        }
        let mut vals: Vec<T> = Vec::new();
        let mut k: usize = 0;
        while k < count
            invariant
                size == T::spec_size(),
                total == count * size,
                avail == self.remaining(),
                offset + total <= avail,
                k <= count,
                vals@.len() == k,
                forall|j: int|
                    0 <= j < k ==> vals@[j] == T::spec_from_le(
                        self.region().subrange(
                            self.position() + offset + j * size,
                            self.position() + offset + (j + 1) * size,
                        ),
                    ),
            decreases count - k,
        {
            proof {
                assert(k * size + size == (k + 1) * size) by (nonlinear_arith);
                assert((k + 1) * size <= count * size) by (nonlinear_arith)
                    requires
                        k < count,
                        size >= 0,
                ;
            }
            let bytes = self.peek_bytes(offset + k * size, size).unwrap();
            vals.push(T::from_le(bytes));
            k = k + 1;
        }
        Ok(vals)
    }

    /// Pulls bytes into `buf`, filling it from the front, and returns how
    /// many bytes were produced: the length of `buf`, or the remaining
    /// length where that is smaller. Never fails; a partial fill is a
    /// short read, and a count of zero on a non-empty `buf` means the
    /// reader is empty. Bytes of `buf` past the count are left unchanged.
    pub fn read(&mut self, buf: &mut Vec<u8>) -> (n: usize)
        ensures
            final(self).region() == old(self).region(),
            n == if old(buf)@.len() <= old(self).remaining() {
                old(buf)@.len() as int
            } else {
                old(self).remaining()
            },
            final(self).position() == old(self).position() + n,
            final(buf)@.len() == old(buf)@.len(),
            forall|i: int|
                0 <= i < n ==> final(buf)@[i] == old(self).region()[old(self).position() + i],
            forall|i: int| n <= i < old(buf)@.len() ==> final(buf)@[i] == old(buf)@[i],
    {
        proof {
            use_type_invariant(&*self);
        }
        let avail = self.buffer.len() - self.pos;
        let want = buf.len();
        let n = if want <= avail {
            want
        } else {
            avail
        };
        let limit = self.pos + n;
        let mut i: usize = 0;
        while i < n
            invariant
                *self == *old(self),
                old(self).pos <= old(self).buffer@.len(),
                limit == old(self).pos + n,
                limit <= old(self).buffer@.len(),
                i <= n,
                n <= buf@.len(),
                buf@.len() == old(buf)@.len(),
                forall|k: int|
                    0 <= k < i ==> buf@[k] == old(self).region()[old(self).position() + k],
                forall|k: int| i <= k < buf@.len() ==> buf@[k] == old(buf)@[k],
            decreases n - i,
        {
            buf[i] = self.buffer[self.pos + i];
            i = i + 1;
        }
        self.pos = self.pos + n;
        n
    }

    /// Returns the offset, relative to the position, of the first
    /// occurrence of `pat` within the remaining bytes, or `None` when the
    /// pattern is empty, longer than the remaining bytes, or absent. Does
    /// not advance, whatever the outcome.
    pub fn find_bytes(&self, pat: &[u8]) -> (r: Option<usize>)
        ensures
            is_find_result(self.remaining_bytes(), pat@, r),
    {
        let hay = self.peek_remaining();
        let pat_len = pat.len();
        if pat_len == 0 || pat_len > hay.len() {
            proof {
                if pat@.len() > hay@.len() {
                    assert(forall|j: int| !occurs_at(hay@, pat@, j));
                }
            }
            return None;
        }
        let hay_len = hay.len();
        let bound = hay_len - pat_len;
        let mut i: usize = 0;
        while i <= bound
            invariant
                pat_len == pat@.len(),
                hay_len == hay@.len(),
                0 < pat_len <= hay_len,
                bound == hay_len - pat_len,
                i <= bound + 1,
                hay@ == self.remaining_bytes(),
                forall|j: int| 0 <= j < i ==> !occurs_at(hay@, pat@, j),
            decreases bound + 1 - i,
        {
            if matches_at(hay, pat, i) {
                return Some(i);
            }
            i = i + 1;
        }
        assert(forall|j: int| !occurs_at(hay@, pat@, j)) by {
            assert(forall|j: int| j > bound ==> !occurs_at(hay@, pat@, j));
        }
        None
    }
}

/// Returns whether `pat` occurs in `hay` at index `i`.
fn matches_at(hay: &[u8], pat: &[u8], i: usize) -> (b: bool)
    requires
        i + pat@.len() <= hay@.len(),
    ensures
        b <==> occurs_at(hay@, pat@, i as int),
{
    let pat_len = pat.len();
    let hay_len = hay.len();
    let mut j: usize = 0;
    while j < pat_len
        invariant
            pat_len == pat@.len(),
            hay_len == hay@.len(),
            i + pat_len <= hay_len,
            j <= pat_len,
            forall|k: int| 0 <= k < j ==> hay@[i + k] == pat@[k],
        decreases pat_len - j,
    {
        if hay[i + j] != pat[j] {
            assert(hay@.subrange(i as int, i + pat@.len() as int)[j as int] != pat@[j as int]);
            return false;
        }
        j = j + 1;
    }
    assert(hay@.subrange(i as int, i + pat@.len() as int) =~= pat@);
    true
}

} // verus!
