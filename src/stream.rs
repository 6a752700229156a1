use vstd::prelude::*;

use crate::error::AmlError;

verus! {

/// The number that `bytes` stand for when read least significant byte first.
pub open spec fn le_bytes(bytes: Seq<u8>) -> nat
    decreases bytes.len(),
{
    if bytes.len() == 0 {
        0
    } else {
        bytes[0] as nat + 256 * le_bytes(bytes.drop_first())
    }
}

/// Reading `n` bytes at `pos`: the bytes taken and the position after them, or `None` when
/// fewer than `n` bytes remain.
pub open spec fn read_outcome(data: Seq<u8>, pos: nat, n: nat) -> Option<(Seq<u8>, nat)> {
    if pos + n <= data.len() {
        Some((data.subrange(pos as int, (pos + n) as int), pos + n))
    } else {
        None
    }
}

/// Stepping back `n` bytes from `pos`: the new position, or `None` below the start.
pub open spec fn backtrack_outcome(pos: nat, n: nat) -> Option<nat> {
    if n <= pos {
        Some((pos - n) as nat)
    } else {
        None
    }
}

/// Reading `k` bytes and then stepping back `k` bytes returns to the position the read started
/// from, and reading again from there takes the very same bytes.
pub proof fn lemma_backtrack_undoes_read(data: Seq<u8>, pos: nat, k: nat)
    requires
        read_outcome(data, pos, k) is Some,
    ensures
        backtrack_outcome(read_outcome(data, pos, k).unwrap().1, k) == Some(pos),
        read_outcome(data, backtrack_outcome(read_outcome(data, pos, k).unwrap().1, k).unwrap(), k)
            == read_outcome(data, pos, k),
{
}

/// Stepping back further than the current position always fails.
pub proof fn lemma_backtrack_past_start(pos: nat, k: nat)
    requires
        k > pos,
    ensures
        backtrack_outcome(pos, k) is None,
{
}

/// A cursor over a borrowed AML byte slice that can read forwards and step back.
#[derive(Clone, Copy)]
pub struct AmlStream<'a> {
    data: &'a [u8],
    offset: u32,
}

impl<'a> AmlStream<'a> {
    /// The bytes under the cursor.
    pub closed spec fn bytes(&self) -> Seq<u8> {
        self.data@
    }

    /// The cursor's position in `bytes()`.
    pub closed spec fn pos(&self) -> nat {
        self.offset as nat
    }

    /// Bytes left after the cursor.
    pub open spec fn remaining(&self) -> nat {
        (self.bytes().len() - self.pos()) as nat
    }

    /// The slice fits the 32-bit offset and the cursor lies within it.
    pub open spec fn wf(&self) -> bool {
        &&& self.bytes().len() <= u32::MAX
        &&& self.pos() <= self.bytes().len()
    }

    /// A cursor at the start of `data`.
    pub fn new(data: &'a [u8]) -> (r: AmlStream<'a>)
        requires
            data@.len() <= u32::MAX,
        ensures
            r.wf(),
            r.bytes() == data@,
            r.pos() == 0,
    {
        AmlStream { data, offset: 0 }
    }

    /// The byte at the cursor, without moving it.
    pub fn peek(&mut self) -> (r: Result<u8, AmlError>)
        requires
            old(self).wf(),
        ensures
            *final(self) == *old(self),
            old(self).pos() < old(self).bytes().len() ==> r == Ok::<u8, AmlError>(
                old(self).bytes()[old(self).pos() as int],
            ),
            old(self).pos() >= old(self).bytes().len() ==> r == Err::<u8, AmlError>(
                AmlError::EndOfStream,
            ),
    {
        if self.offset >= self.len() {
            Err(AmlError::EndOfStream)
        } else {
            Ok(self.data[self.offset as usize])
        }
    }

    /// The byte at the cursor, moving past it.
    pub fn next(&mut self) -> (r: Result<u8, AmlError>)
        requires
            old(self).wf(),
        ensures
            final(self).wf(),
            final(self).bytes() == old(self).bytes(),
            match read_outcome(old(self).bytes(), old(self).pos(), 1) {
                Some((b, p)) => r == Ok::<u8, AmlError>(b[0]) && final(self).pos() == p,
                None => r == Err::<u8, AmlError>(AmlError::EndOfStream) && final(self).pos()
                    == old(self).pos(),
            },
    {
        let byte = self.peek()?;
        self.offset = self.offset + 1;
        Ok(byte)
    }

    /// Two bytes read little-endian.
    pub fn next_u16(&mut self) -> (r: Result<u16, AmlError>)
        requires
            old(self).wf(),
        ensures
            final(self).wf(),
            final(self).bytes() == old(self).bytes(),
            match read_outcome(old(self).bytes(), old(self).pos(), 2) {
                Some((b, p)) => r matches Ok(v) && v as nat == le_bytes(b) && final(self).pos()
                    == p,
                None => r == Err::<u16, AmlError>(AmlError::EndOfStream) && final(self).pos()
                    == old(self).pos(),
            },
    {
        if self.len() - self.offset < 2 {
            return Err(AmlError::EndOfStream);
        }
        let ghost start: int = self.pos() as int;
        let b0 = self.next()?;
        let b1 = self.next()?;
        proof {
            let s = self.bytes().subrange(start, start + 2);
            reveal_with_fuel(le_bytes, 3);
            assert(s.drop_first().drop_first().len() == 0);
        }
        Ok(b0 as u16 + (b1 as u16) * 256)
    }

    /// Four bytes read little-endian.
    pub fn next_u32(&mut self) -> (r: Result<u32, AmlError>)
        requires
            old(self).wf(),
        ensures
            final(self).wf(),
            final(self).bytes() == old(self).bytes(),
            match read_outcome(old(self).bytes(), old(self).pos(), 4) {
                Some((b, p)) => r matches Ok(v) && v as nat == le_bytes(b) && final(self).pos()
                    == p,
                None => r == Err::<u32, AmlError>(AmlError::EndOfStream) && final(self).pos()
                    == old(self).pos(),
            },
    {
        if self.len() - self.offset < 4 {
            return Err(AmlError::EndOfStream);
        }
        let ghost start: int = self.pos() as int;
        let b0 = self.next()?;
        let b1 = self.next()?;
        let b2 = self.next()?;
        let b3 = self.next()?;
        proof {
            let s = self.bytes().subrange(start, start + 4);
            reveal_with_fuel(le_bytes, 5);
            assert(s.drop_first().drop_first().drop_first().drop_first().len() == 0);
        }
        Ok(b0 as u32 + (b1 as u32) * 0x100 + (b2 as u32) * 0x1_0000 + (b3 as u32) * 0x100_0000)
    }

    /// Eight bytes read little-endian.
    pub fn next_u64(&mut self) -> (r: Result<u64, AmlError>)
        requires
            old(self).wf(),
        ensures
            final(self).wf(),
            final(self).bytes() == old(self).bytes(),
            match read_outcome(old(self).bytes(), old(self).pos(), 8) {
                Some((b, p)) => r matches Ok(v) && v as nat == le_bytes(b) && final(self).pos()
                    == p,
                None => r == Err::<u64, AmlError>(AmlError::EndOfStream) && final(self).pos()
                    == old(self).pos(),
            },
    {
        if self.len() - self.offset < 8 {
            return Err(AmlError::EndOfStream);
        }
        let ghost start: int = self.pos() as int;
        let lo = self.next_u32()?;
        let hi = self.next_u32()?;
        proof {
            let s = self.bytes().subrange(start, start + 8);
            let a = self.bytes().subrange(start, start + 4);
            let b = self.bytes().subrange(start + 4, start + 8);
            assert(a =~= s.subrange(0, 4));
            assert(b =~= s.subrange(4, 8));
            lemma_le_bytes_split4(s, a, b);
        }
        Ok(lo as u64 + (hi as u64) * 0x1_0000_0000)
    }

    /// Moves the cursor `amount` bytes back.
    pub fn backtrack(&mut self, amount: u32) -> (r: Result<(), AmlError>)
        requires
            old(self).wf(),
        ensures
            final(self).wf(),
            final(self).bytes() == old(self).bytes(),
            match backtrack_outcome(old(self).pos(), amount as nat) {
                Some(p) => r is Ok && final(self).pos() == p,
                None => r == Err::<(), AmlError>(AmlError::BacktrackedFromStart)
                    && final(self).pos() == old(self).pos(),
            },
    {
        match self.offset.checked_sub(amount) {
            Some(new_offset) => {
                self.offset = new_offset;
                Ok(())
            },
            None => Err(AmlError::BacktrackedFromStart),
        }
    }

    /// Whether the byte at the cursor is `byte`.
    pub fn at(&self, byte: u8) -> (r: bool)
        requires
            self.wf(),
        ensures
            r == (self.pos() < self.bytes().len() && self.bytes()[self.pos() as int] == byte),
    {
        self.offset < self.len() && self.data[self.offset as usize] == byte
    }

    /// The length of the whole slice.
    pub fn len(&self) -> (r: u32)
        requires
            self.wf(),
        ensures
            r as nat == self.bytes().len(),
    {
        self.data.len() as u32
    }

    /// The current offset into the stream.
    pub fn offset(&self) -> (r: u32)
        ensures
            r as nat == self.pos(),
    {
        self.offset
    }
}

/// Eight bytes read little-endian are the low four plus 2^32 times the high four.
proof fn lemma_le_bytes_split4(s: Seq<u8>, a: Seq<u8>, b: Seq<u8>)
    requires
        s.len() == 8,
        a == s.subrange(0, 4),
        b == s.subrange(4, 8),
    ensures
        le_bytes(s) == le_bytes(a) + 0x1_0000_0000 * le_bytes(b),
{
    reveal_with_fuel(le_bytes, 9);
    assert(s.drop_first().drop_first().drop_first().drop_first() =~= b);
    assert(a.drop_first().drop_first().drop_first().drop_first().len() == 0);
    assert(b.drop_first().drop_first().drop_first().drop_first().len() == 0);
}

} // verus!
