//! The bytes that a reader holds, and how far they have been scanned for a
//! line's delimiter.

use vstd::prelude::*;
use crate::line::{find_crlf, first_crlf_at, lemma_crlf_in_prefix, no_crlf_before, MAX_LINE_LEN};

verus! {

/// The index up to which `len` buffered bytes can be scanned for the start of
/// a delimiter that ends within the longest line.
pub open spec fn scan_end(len: nat) -> int {
    if len == 0 {
        0
    } else if len - 1 < MAX_LINE_LEN - 1 {
        len - 1
    } else {
        MAX_LINE_LEN - 1
    }
}

/// Buffered bytes, together with an index below which no delimiter starts
/// among them. The index is kept from one scan to the next, so that no index
/// is tried for a delimiter twice.
pub struct Window {
    buf: Vec<u8>,
    scanned: usize,
}

impl Window {
    /// Nothing below the index is the start of a delimiter, and the index
    /// lies within both the bytes and the longest line.
    #[verifier::type_invariant]
    closed spec fn scan_holds(&self) -> bool {
        &&& no_crlf_before(self.buf@, self.scanned as int)
        &&& self.scanned < MAX_LINE_LEN
        &&& self.scanned == 0 || self.scanned + 1 <= self.buf@.len()
    }

    /// The bytes held, oldest first.
    pub closed spec fn bytes(&self) -> Seq<u8> {
        self.buf@
    }

    /// The index below which the bytes held have been scanned and hold no
    /// start of a delimiter. The next scan begins here.
    pub closed spec fn scanned(&self) -> nat {
        self.scanned as nat
    }

    /// A window that holds nothing.
    pub fn new() -> (w: Window)
        ensures
            w.bytes() == Seq::<u8>::empty(),
            w.scanned() == 0,
    {
        Window { buf: Vec::new(), scanned: 0 }
    }

    /// The number of bytes held.
    pub fn len(&self) -> (n: usize)
        ensures
            n == self.bytes().len(),
    {
        self.buf.len()
    }

    /// The bytes held.
    pub fn as_slice(&self) -> (s: &[u8])
        ensures
            s@ == self.bytes(),
    {
        self.buf.as_slice()
    }

    /// Puts `chunk` behind the bytes held.
    pub fn append(&mut self, chunk: &[u8])
        ensures
            final(self).bytes() == old(self).bytes() + chunk@,
            final(self).scanned() == old(self).scanned(),
    {
        proof {
            use_type_invariant(&*self);
        }
        let scanned: usize = self.scanned;
        let ghost before = self.buf@;
        self.scanned = 0;
        let mut buf: Vec<u8> = Vec::new();
        std::mem::swap(&mut self.buf, &mut buf);
        buf.extend_from_slice(chunk);
        std::mem::swap(&mut self.buf, &mut buf);
        proof {
            assert(self.buf@ =~= before + chunk@);
            if scanned > 0 {
                lemma_crlf_in_prefix(before, chunk@, scanned as int);
            }
        }
        self.scanned = scanned;
    }

    /// Takes the first `len` bytes out of the window.
    pub fn take(&mut self, len: usize) -> (front: Vec<u8>)
        requires
            len <= old(self).bytes().len(),
        ensures
            front@ == old(self).bytes().take(len as int),
            final(self).bytes() == old(self).bytes().skip(len as int),
            final(self).scanned() == 0,
    {
        self.scanned = 0;
        let mut front: Vec<u8> = Vec::new();
        std::mem::swap(&mut self.buf, &mut front);
        let mut rest = front.split_off(len);
        std::mem::swap(&mut self.buf, &mut rest);
        front
    }

    /// Looks for the first delimiter among the bytes held that ends within
    /// the longest line, from where the last scan stopped. A scan that finds
    /// none moves the index to where it stopped; one that finds a delimiter
    /// changes nothing.
    pub fn find_line(&mut self) -> (r: Option<usize>)
        ensures
            final(self).bytes() == old(self).bytes(),
            match r {
                Some(i) => {
                    &&& first_crlf_at(old(self).bytes(), i as int)
                    &&& i + 2 <= MAX_LINE_LEN
                    &&& old(self).scanned() <= i
                    &&& *final(self) == *old(self)
                },
                None => {
                    &&& no_crlf_before(old(self).bytes(), scan_end(old(self).bytes().len()))
                    &&& final(self).scanned() == scan_end(old(self).bytes().len())
                },
            },
    {
        proof {
            use_type_invariant(&*self);
        }
        let len: usize = self.buf.len();
        if len == 0 {
            return None;
        }
        let end: usize = if len - 1 < MAX_LINE_LEN - 1 {
            len - 1
        } else {
            MAX_LINE_LEN - 1
        };
        let found = find_crlf(self.buf.as_slice(), self.scanned, end);
        if found.is_none() {
            self.scanned = end;
        }
        found
    }
}

} // verus!
