use vstd::prelude::*;

verus! {

/// Largest number of bytes that memory may grow to in one call frame.
pub const MEMORY_LIMIT: usize = 0x100_0000;

/// An error that may occur when accessing `Memory`.
#[derive(Debug, PartialEq, Eq, Structural, Clone, Copy)]
pub enum MemoryError {
    /// The access reaches past `MEMORY_LIMIT`.
    TooLarge,
}

/// `n` zero bytes.
pub open spec fn zeros(n: nat) -> Seq<u8> {
    Seq::new(n, |i: int| 0u8)
}

/// Words that an access of `len` bytes at `offset` needs: none when `len` is zero, else
/// `ceil((offset + len) / 32)`.
pub open spec fn words_needed(offset: int, len: int) -> nat {
    if len == 0 {
        0
    } else {
        ((offset + len + 31) / 32) as nat
    }
}

/// Whether an access of `len` bytes at `offset` stays within `MEMORY_LIMIT`.
pub open spec fn within_limit(offset: int, len: int) -> bool {
    len == 0 || offset + len <= MEMORY_LIMIT
}

/// The active words after an access of `len` bytes at `offset` on memory of `words` words.
pub open spec fn grown_words(words: nat, offset: int, len: int) -> nat {
    if words_needed(offset, len) > words {
        words_needed(offset, len)
    } else {
        words
    }
}

/// Memory `m` grown, zero-filled, to cover an access of `len` bytes at `offset`.
pub open spec fn grown(m: Seq<u8>, offset: int, len: int) -> Seq<u8> {
    m + zeros((grown_words(m.len() / 32, offset, len) * 32 - m.len()) as nat)
}

/// `m` with `data` written over it from `offset` on.
pub open spec fn written(m: Seq<u8>, offset: int, data: Seq<u8>) -> Seq<u8> {
    m.subrange(0, offset) + data + m.subrange(offset + data.len(), m.len() as int)
}

/// EVM memory: a byte buffer whose length is always a whole number of 32-byte words,
/// the active words.
pub struct Memory {
    bytes: Vec<u8>,
}

impl View for Memory {
    type V = Seq<u8>;

    closed spec fn view(&self) -> Seq<u8> {
        self.bytes@
    }
}

impl Memory {
    /// The buffer is made of whole words and stays within `MEMORY_LIMIT`.
    pub open spec fn wf(&self) -> bool {
        self@.len() % 32 == 0 && self@.len() <= MEMORY_LIMIT
    }

    /// Number of active words.
    pub open spec fn words(&self) -> nat {
        self@.len() / 32
    }

    /// Creates an empty memory.
    pub fn new() -> (r: Self)
        ensures
            r.wf(),
            r@ == Seq::<u8>::empty(),
    {
        Memory { bytes: Vec::new() }
    }

    /// Returns the number of active words.
    pub fn active_words(&self) -> (r: usize)
        requires
            self.wf(),
        ensures
            r == self.words(),
    {
        self.bytes.len() / 32
    }

    /// Grows memory, zero-filled, to cover `len` bytes at `offset` and returns by how many
    /// words it grew. Zero-length accesses never grow memory.
    pub fn expand(&mut self, offset: usize, len: usize) -> (r: Result<usize, MemoryError>)
        requires
            old(self).wf(),
        ensures
            final(self).wf(),
            !within_limit(offset as int, len as int) ==> r == Err::<usize, MemoryError>(
                MemoryError::TooLarge,
            ) && final(self)@ == old(self)@,
            within_limit(offset as int, len as int) ==> r == Ok::<usize, MemoryError>(
                (grown_words(old(self).words(), offset as int, len as int) - old(self).words()) as usize,
            ) && final(self)@ == grown(old(self)@, offset as int, len as int),
    {
        if len == 0 {
            assert(self@ =~= grown(self@, offset as int, len as int));
            return Ok(0);
        }
        if offset > MEMORY_LIMIT || len > MEMORY_LIMIT - offset {
            return Err(MemoryError::TooLarge);
        }
        let old_words: usize = self.bytes.len() / 32;
        let needed: usize = (offset + len + 31) / 32;
        if needed <= old_words {
            assert(self@ =~= grown(self@, offset as int, len as int));
            return Ok(0);
        }
        let target: usize = needed * 32;
        let ghost before = self@;
        while self.bytes.len() < target
            invariant
                before.len() <= self@.len() <= target,
                self@ == before + zeros((self@.len() - before.len()) as nat),
            decreases target - self@.len(),
        {
            self.bytes.push(0u8);
            assert(self@ =~= before + zeros((self@.len() - before.len()) as nat));
        }
        Ok(needed - old_words)
    }

    /// Reads `len` bytes at `offset`, growing memory first as `expand` does; returns the
    /// bytes and the growth in words.
    pub fn load(&mut self, offset: usize, len: usize) -> (r: Result<(Vec<u8>, usize), MemoryError>)
        requires
            old(self).wf(),
        ensures
            final(self).wf(),
            len == 0 ==> r is Ok && r->Ok_0.0@.len() == 0 && r->Ok_0.1 == 0 && final(self)@
                == old(self)@,
            len > 0 && !within_limit(offset as int, len as int) ==> r is Err && final(self)@
                == old(self)@,
            len > 0 && within_limit(offset as int, len as int) ==> r is Ok && final(self)@ == grown(
                old(self)@,
                offset as int,
                len as int,
            ) && r->Ok_0.0@ == final(self)@.subrange(offset as int, offset + len) && r->Ok_0.1
                == grown_words(old(self).words(), offset as int, len as int) - old(self).words(),
    {
        if len == 0 {
            return Ok((Vec::new(), 0));
        }
        let grew = match self.expand(offset, len) {
            Ok(n) => n,
            Err(e) => return Err(e),
        };
        let mut out: Vec<u8> = Vec::new();
        let mut i: usize = 0;
        while i < len
            invariant
                i <= len,
                self.wf(),
                offset + len <= self@.len(),
                out@ == self@.subrange(offset as int, offset + i),
            decreases len - i,
        {
            out.push(self.bytes[offset + i]);
            i = i + 1;
            assert(out@ =~= self@.subrange(offset as int, offset + i));
        }
        assert(out@ =~= self@.subrange(offset as int, offset + len));
        Ok((out, grew))
    }

    /// Writes `data` at `offset`, growing memory first as `expand` does; returns the growth
    /// in words.
    pub fn store(&mut self, offset: usize, data: &[u8]) -> (r: Result<usize, MemoryError>)
        requires
            old(self).wf(),
        ensures
            final(self).wf(),
            data@.len() == 0 ==> r == Ok::<usize, MemoryError>(0) && final(self)@ == old(self)@,
            data@.len() > 0 && !within_limit(offset as int, data@.len() as int) ==> r is Err
                && final(self)@ == old(self)@,
            data@.len() > 0 && within_limit(offset as int, data@.len() as int) ==> r == Ok::<
                usize,
                MemoryError,
            >(
                (grown_words(old(self).words(), offset as int, data@.len() as int) - old(self).words()) as usize,
            ) && final(self)@ == written(
                grown(old(self)@, offset as int, data@.len() as int),
                offset as int,
                data@,
            ),
    {
        if data.len() == 0 {
            return Ok(0);
        }
        let grew = match self.expand(offset, data.len()) {
            Ok(n) => n,
            Err(e) => return Err(e),
        };
        let ghost g = self@;
        let mut i: usize = 0;
        while i < data.len()
            invariant
                i <= data@.len(),
                self.wf(),
                g.len() == self@.len(),
                offset + data@.len() <= g.len(),
                self@ == g.subrange(0, offset as int) + data@.subrange(0, i as int) + g.subrange(
                    offset + i,
                    g.len() as int,
                ),
            decreases data@.len() - i,
        {
            self.bytes.set(offset + i, data[i]);
            i = i + 1;
            assert(self@ =~= g.subrange(0, offset as int) + data@.subrange(0, i as int)
                + g.subrange(offset + i, g.len() as int));
        }
        assert(data@.subrange(0, data@.len() as int) =~= data@);
        Ok(grew)
    }

    /// Writes one byte at `offset`, growing memory first as `expand` does; returns the
    /// growth in words.
    pub fn store_byte(&mut self, offset: usize, value: u8) -> (r: Result<usize, MemoryError>)
        requires
            old(self).wf(),
        ensures
            final(self).wf(),
            !within_limit(offset as int, 1) ==> r is Err && final(self)@ == old(self)@,
            within_limit(offset as int, 1) ==> r == Ok::<usize, MemoryError>(
                (grown_words(old(self).words(), offset as int, 1) - old(self).words()) as usize,
            ) && final(self)@ == grown(old(self)@, offset as int, 1).update(offset as int, value),
    {
        let grew = match self.expand(offset, 1) {
            Ok(n) => n,
            Err(e) => return Err(e),
        };
        self.bytes.set(offset, value);
        Ok(grew)
    }
}

/// Growing memory for an access keeps every byte already there, covers the accessed range
/// with whole words, and fills what it adds with zeros.
pub proof fn lemma_growth(m: Seq<u8>, offset: nat, len: nat)
    requires
        m.len() % 32 == 0,
    ensures
        grown(m, offset as int, len as int).len() % 32 == 0,
        grown(m, offset as int, len as int).len() >= m.len(),
        len > 0 ==> grown(m, offset as int, len as int).len() >= offset + len,
        grown(m, offset as int, len as int).subrange(0, m.len() as int) == m,
        forall|i: int|
            m.len() <= i < grown(m, offset as int, len as int).len() ==> grown(
                m,
                offset as int,
                len as int,
            )[i] == 0,
{
    let g = grown(m, offset as int, len as int);
    assert(g.subrange(0, m.len() as int) =~= m);
    if len > 0 {
        assert(words_needed(offset as int, len as int) * 32 >= offset + len);
    }
}

} // verus!
