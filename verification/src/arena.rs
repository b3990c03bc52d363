//! The chunk arena: append-only byte storage and non-owning slices into it.
//!
//! The arena has two regions.  The `input` region holds every byte the
//! caller has fed, in order, so a token that arrived split across several
//! `feed` calls is contiguous once complete.  The `copies` region holds the
//! few byte runs the scanner has to rewrite (quoted strings with escape
//! sequences); it is the only place where content is copied.

use vstd::prelude::*;

verus! {

/// A half-open byte range `[start, end)` locating an event in the input.
#[derive(Clone, Copy, PartialEq, Eq, Structural, Debug)]
pub struct Span {
    pub start: usize,
    pub end: usize,
}

/// A non-owning handle to a contiguous byte range inside the arena.
///
/// `in_copies` names the region (the chunk identity): `false` for the
/// input region, `true` for the copies region.
#[derive(Clone, Copy, PartialEq, Eq, Structural, Debug)]
pub struct ChunkSlice {
    pub in_copies: bool,
    pub start: usize,
    pub len: usize,
}

/// Append-only byte storage backing all `ChunkSlice` content.
pub struct ChunkArena {
    pub input: Vec<u8>,
    pub copies: Vec<u8>,
}

impl ChunkArena {
    /// The bytes a slice refers to, at the specification level.
    pub open spec fn region(&self, in_copies: bool) -> Seq<u8> {
        if in_copies {
            self.copies@
        } else {
            self.input@
        }
    }

    /// A slice is valid when it lies inside its region.
    pub open spec fn slice_valid(&self, s: ChunkSlice) -> bool {
        s.start + s.len <= self.region(s.in_copies).len()
    }

    /// The bytes a valid slice resolves to.
    pub open spec fn slice_bytes(&self, s: ChunkSlice) -> Seq<u8> {
        self.region(s.in_copies).subrange(s.start as int, s.start + s.len)
    }

    pub fn new() -> (a: ChunkArena)
        ensures
            a.input@ == Seq::<u8>::empty(),
            a.copies@ == Seq::<u8>::empty(),
    {
        ChunkArena { input: Vec::new(), copies: Vec::new() }
    }

    /// Appends raw input bytes; returns the base offset the new bytes
    /// start at, usable to build slices into them.  Never rejects input.
    pub fn append(&mut self, bytes: &[u8]) -> (base: usize)
        ensures
            final(self).input@ == old(self).input@ + bytes@,
            final(self).copies@ == old(self).copies@,
            base == old(self).input@.len(),
    {
        let base = self.input.len();
        let mut i: usize = 0;
        while i < bytes.len()
            invariant
                i <= bytes@.len(),
                self.input@ == old(self).input@ + bytes@.subrange(0, i as int),
                self.copies@ == old(self).copies@,
            decreases bytes@.len() - i,
        {
            self.input.push(bytes[i]);
            i = i + 1;
            proof {
                assert(bytes@.subrange(0, i as int)
                    == bytes@.subrange(0, i - 1) + seq![bytes@[i - 1]]);
            }
        }
        proof {
            assert(bytes@.subrange(0, bytes@.len() as int) == bytes@);
        }
        base
    }

    /// Appends bytes to the copies region; returns their base offset.
    /// Used only when rewriting escape sequences of a quoted string.
    pub fn append_copy(&mut self, bytes: &Vec<u8>) -> (base: usize)
        ensures
            final(self).copies@ == old(self).copies@ + bytes@,
            final(self).input@ == old(self).input@,
            base == old(self).copies@.len(),
    {
        let base = self.copies.len();
        let mut i: usize = 0;
        while i < bytes.len()
            invariant
                i <= bytes@.len(),
                self.copies@ == old(self).copies@ + bytes@.subrange(0, i as int),
                self.input@ == old(self).input@,
            decreases bytes@.len() - i,
        {
            self.copies.push(bytes[i]);
            i = i + 1;
            proof {
                assert(bytes@.subrange(0, i as int)
                    == bytes@.subrange(0, i - 1) + seq![bytes@[i - 1]]);
            }
        }
        proof {
            assert(bytes@.subrange(0, bytes@.len() as int) == bytes@);
        }
        base
    }

    /// Resolves a slice to its bytes: `Some` exactly when the handle lies
    /// inside its region, `None` for a stale or invalid handle — never a
    /// fault.
    pub fn resolve(&self, s: ChunkSlice) -> (r: Option<&[u8]>)
        ensures
            match r {
                Some(b) => self.slice_valid(s) && b@ == self.slice_bytes(s),
                None => !self.slice_valid(s),
            },
    {
        let region: &Vec<u8> = if s.in_copies { &self.copies } else { &self.input };
        if s.len <= region.len() && s.start <= region.len() - s.len {
            Some(vstd::slice::slice_subrange(region.as_slice(), s.start, s.start + s.len))
        } else {
            None
        }
    }
}

} // verus!
