//! A fixed-capacity seed string held on the stack.

use vstd::prelude::*;

use crate::text::{bytes_as_chars, push_char};

verus! {

/// Up to `N` (and never more than 8) single-byte characters.
#[derive(Clone, Copy)]
pub struct String<const N: usize> {
    buf: [u8; 8],
    len: u8,
}

impl<const N: usize> View for String<N> {
    type V = Seq<u8>;

    /// The bytes held so far.
    closed spec fn view(&self) -> Seq<u8> {
        self.buf@.subrange(0, self.len as int)
    }
}

impl<const N: usize> String<N> {
    #[verifier::type_invariant]
    spec fn inv(self) -> bool {
        self.len <= 8
    }

    /// The empty string.
    pub fn new() -> (r: Self)
        ensures
            r@ == Seq::<u8>::empty(),
    {
        let r = Self { buf: [0;8], len: 0 };
        assert(r@ =~= Seq::<u8>::empty());
        r
    }

    /// Appends the low byte of `c`, or refuses with `Err` once `N` bytes are held.
    pub fn push(&mut self, c: char) -> (r: Result<(), ()>)
        requires
            !(old(self)@.len() < N && old(self)@.len() >= 8),
        ensures
            old(self)@.len() >= N ==> r is Err && final(self)@ == old(self)@,
            old(self)@.len() < N ==> r is Ok && final(self)@ == old(self)@.push(c as u8),
    {
        proof {
            use_type_invariant(&*self);
        }
        if self.len as usize >= N {
            return Err(());
        }
        let mut buf = self.buf;
        let l = self.len as usize;
        buf[l] = c as u8;
        let next = Self { buf, len: self.len + 1 };
        assert(next@ =~= self@.push(c as u8));
        *self = next;
        Ok(())
    }

    /// The held bytes as a `String`, one character per byte.
    pub fn as_str(&self) -> (r: std::string::String)
        ensures
            r@ == bytes_as_chars(self@),
    {
        proof {
            use_type_invariant(self);
        }
        let mut s = std::string::String::new();
        let n = self.len as usize;
        let mut i: usize = 0;
        while i < n
            invariant
                i <= n <= 8,
                n == self.len,
                n == self@.len(),
                s@ =~= bytes_as_chars(self@.subrange(0, i as int)),
            decreases n - i,
        {
            push_char(&mut s, self.buf[i] as char);
            assert(self@.subrange(0, i + 1) =~= self@.subrange(0, i as int).push(self.buf@[i as int]));
            i += 1;
        }
        assert(self@.subrange(0, n as int) =~= self@);
        s
    }
}

} // verus!
