//! An in-memory byte stream with a read cursor.
//!
//! Every decode operation of the codec consumes bytes from a `ByteReader`.
//! Peeking never consumes: the connection-classification step relies on
//! the peeked byte still being present for the next read.

use vstd::prelude::*;

verus! {

/// A byte buffer together with a cursor marking how much has been consumed.
pub struct ByteReader {
    data: Vec<u8>,
    pos: usize,
}

impl ByteReader {
    /// The bytes not yet consumed.
    pub closed spec fn remaining(&self) -> Seq<u8> {
        self.data@.skip(self.pos as int)
    }

    /// The cursor never points past the end of the buffer.
    pub closed spec fn wf(&self) -> bool {
        self.pos <= self.data.len()
    }

    pub fn new(data: Vec<u8>) -> (r: Self)
        ensures
            r.wf(),
            r.remaining() == data@,
    {
        let r = Self { data, pos: 0 };
        proof {
            assert(r.remaining() =~= r.data@);
        }
        r
    }

    /// How many bytes are left to read.
    pub fn len(&self) -> (n: usize)
        requires
            self.wf(),
        ensures
            n == self.remaining().len(),
    {
        self.data.len() - self.pos
    }

    /// The next byte, without consuming it.
    pub fn peek(&self) -> (r: Option<u8>)
        requires
            self.wf(),
        ensures
            match r {
                Some(b) => self.remaining().len() > 0 && b == self.remaining()[0],
                None => self.remaining().len() == 0,
            },
    {
        if self.pos < self.data.len() {
            Some(self.data[self.pos])
        } else {
            None
        }
    }

    /// The next byte, consuming it.
    pub fn next(&mut self) -> (r: Option<u8>)
        requires
            old(self).wf(),
        ensures
            final(self).wf(),
            match r {
                Some(b) => {
                    &&& old(self).remaining().len() > 0
                    &&& b == old(self).remaining()[0]
                    &&& final(self).remaining() == old(self).remaining().skip(1)
                },
                None => {
                    &&& old(self).remaining().len() == 0
                    &&& final(self).remaining() == old(self).remaining()
                },
            },
    {
        if self.pos < self.data.len() {
            let b = self.data[self.pos];
            self.pos = self.pos + 1;
            proof {
                assert(self.remaining() =~= old(self).remaining().skip(1));
            }
            Some(b)
        } else {
            None
        }
    }

    /// Consumes and returns exactly `n` bytes, or consumes everything and
    /// fails when fewer than `n` remain.
    pub fn take(&mut self, n: usize) -> (r: Option<Vec<u8>>)
        requires
            old(self).wf(),
        ensures
            final(self).wf(),
            match r {
                Some(v) => {
                    &&& old(self).remaining().len() >= n
                    &&& v@ == old(self).remaining().take(n as int)
                    &&& final(self).remaining() == old(self).remaining().skip(n as int)
                },
                None => {
                    &&& old(self).remaining().len() < n
                    &&& final(self).remaining().len() == 0
                },
            },
    {
        if self.data.len() - self.pos < n {
            self.pos = self.data.len();
            return None;
        }
        let mut v: Vec<u8> = Vec::new();
        let mut i: usize = 0;
        while i < n
            invariant
                self.wf(),
                i <= n,
                self.data@ == old(self).data@,
                self.pos == old(self).pos + i,
                old(self).pos + n <= self.data.len(),
                v@ == old(self).remaining().take(n as int).take(i as int),
            decreases n - i,
        {
            let b = self.data[self.pos];
            proof {
                assert(old(self).remaining().take(n as int).take(i + 1)
                    =~= old(self).remaining().take(n as int).take(i as int).push(
                    old(self).remaining()[i as int],
                ));
                assert(old(self).remaining()[i as int] == self.data@[self.pos as int]);
            }
            v.push(b);
            self.pos = self.pos + 1;
            i = i + 1;
        }
        proof {
            assert(v@ =~= old(self).remaining().take(n as int));
            assert(self.remaining() =~= old(self).remaining().skip(n as int));
        }
        Some(v)
    }
}

} // verus!
