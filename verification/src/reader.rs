//! A cursor over a borrowed slice of bytes.

use crate::wire;
use vstd::prelude::*;

verus! {

/// Reads a slice from front to back. Each read that succeeds takes its bytes off
/// the front; each read that fails leaves the reader as it was, except for
/// [`Reader::skip_var`], which may already have taken the length.
pub struct Reader<'a> {
    pub buf: &'a [u8],
}

impl<'a> View for Reader<'a> {
    type V = Seq<u8>;

    /// The bytes that are still to be read.
    open spec fn view(&self) -> Seq<u8> {
        self.buf@
    }
}

impl<'a> Reader<'a> {
    /// A reader at the start of `buf`.
    pub fn new(buf: &'a [u8]) -> (reader: Self)
        ensures
            reader@ == buf@,
    {
        Self { buf }
    }

    /// Whether nothing is left to read.
    pub fn empty(&self) -> (empty: bool)
        ensures
            empty == (self@.len() == 0),
    {
        self.buf.is_empty()
    }

    /// How many bytes are left to read.
    pub fn remaining(&self) -> (len: usize)
        ensures
            len == self@.len(),
    {
        self.buf.len()
    }

    /// Takes one byte. Fails when none is left.
    pub fn read_u8(&mut self) -> (value: Result<u8, ()>)
        ensures
            match value {
                Ok(byte) => {
                    &&& old(self)@.len() >= 1
                    &&& byte == old(self)@[0]
                    &&& final(self)@ == old(self)@.subrange(1, old(self)@.len() as int)
                },
                Err(_) => old(self)@.len() == 0 && final(self)@ == old(self)@,
            },
    {
        if self.buf.is_empty() {
            return Err(());
        }
        let byte = self.buf[0];
        self.buf = &self.buf[1..self.buf.len()];
        Ok(byte)
    }

    /// Takes a big-endian number of two bytes. Fails when fewer are left.
    pub fn read_u16(&mut self) -> (value: Result<u16, ()>)
        ensures
            match value {
                Ok(number) => {
                    &&& old(self)@.len() >= 2
                    &&& number == wire::u16_at(old(self)@, 0)
                    &&& number == 0x100 * old(self).buf@[0] + old(self).buf@[1]
                    &&& final(self)@ == old(self)@.subrange(2, old(self)@.len() as int)
                },
                Err(_) => old(self)@.len() < 2 && final(self)@ == old(self)@,
            },
    {
        if self.buf.len() < 2 {
            return Err(());
        }
        let high = self.buf[0];
        let low = self.buf[1];
        let number: u16 = ((high as u16) << 8) | (low as u16);
        proof {
            wire::lemma_u16_from_bytes(high, low);
        }
        self.buf = &self.buf[2..self.buf.len()];
        Ok(number)
    }

    /// Takes the next `n` bytes. Fails when fewer are left.
    pub fn take(&mut self, n: usize) -> (taken: Result<&'a [u8], ()>)
        ensures
            match taken {
                Ok(bytes) => {
                    &&& old(self)@.len() >= n
                    &&& bytes@ == old(self)@.subrange(0, n as int)
                    &&& final(self)@ == old(self)@.subrange(n as int, old(self)@.len() as int)
                },
                Err(_) => old(self)@.len() < n && final(self)@ == old(self)@,
            },
    {
        if self.buf.len() < n {
            return Err(());
        }
        let (taken, rest) = self.buf.split_at(n);
        self.buf = rest;
        Ok(taken)
    }

    /// Drops the next `n` bytes. Fails when fewer are left.
    pub fn skip(&mut self, n: usize) -> (skipped: Result<(), ()>)
        ensures
            match skipped {
                Ok(_) => {
                    &&& old(self)@.len() >= n
                    &&& final(self)@ == old(self)@.subrange(n as int, old(self)@.len() as int)
                },
                Err(_) => old(self)@.len() < n && final(self)@ == old(self)@,
            },
    {
        match self.take(n) {
            Ok(_) => Ok(()),
            Err(_) => Err(()),
        }
    }

    /// Drops a length-prefixed field whose length takes `len_bytes` bytes, one or
    /// two. Fails for any other width, and when the field is not whole; the
    /// length is then taken if it was there.
    pub fn skip_var(&mut self, len_bytes: usize) -> (skipped: Result<(), ()>)
        ensures
            skipped is Ok <==> (len_bytes == 1 || len_bytes == 2) && wire::has_field(
                old(self)@,
                len_bytes as int,
            ),
            skipped is Ok ==> final(self)@ == wire::after_field(old(self)@, len_bytes as int),
            len_bytes == 1 ==> {
                let b = old(self).buf@;
                &&& skipped is Ok <==> 1 <= b.len() && 1 + b[0] <= b.len()
                &&& skipped is Ok ==> final(self).buf@ == b.subrange(1 + b[0], b.len() as int)
            },
            len_bytes == 2 ==> {
                let b = old(self).buf@;
                &&& skipped is Ok <==> 2 <= b.len() && 2 + 0x100 * b[0] + b[1] <= b.len()
                &&& skipped is Ok ==> final(self).buf@ == b.subrange(
                    2 + 0x100 * b[0] + b[1],
                    b.len() as int,
                )
            },
            skipped is Err ==> final(self)@ == if (len_bytes == 1 || len_bytes == 2)
                && len_bytes <= old(self)@.len() {
                old(self)@.subrange(len_bytes as int, old(self)@.len() as int)
            } else {
                old(self)@
            },
    {
        let len: usize = match len_bytes {
            1 => match self.read_u8() {
                Ok(byte) => byte as usize,
                Err(_) => return Err(()),
            },
            2 => match self.read_u16() {
                Ok(number) => number as usize,
                Err(_) => return Err(()),
            },
            _ => return Err(()),
        };
        self.skip(len)
    }
}

/// A reader shows the bytes that it holds, in their order, and nothing else.
pub proof fn law_reader_shows_its_bytes(reader: Reader<'_>)
    ensures
        reader@ == reader.buf@,
{
}

} // verus!
