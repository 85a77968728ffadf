use vstd::prelude::*;
use vstd::string::StringSliceAdditionalSpecFns;
use vstd::utf8::{
    encode_utf8, encode_utf8_valid_utf8, is_char_boundary, is_char_boundary_start_end_of_seq,
};

verus! {

/// The length of the longest prefix of `bytes` that is at most `n` long and
/// ends on a character boundary.
pub open spec fn fitted_len(bytes: Seq<u8>, n: nat) -> nat
    decreases n,
{
    if n >= bytes.len() {
        bytes.len()
    } else if n == 0 || is_char_boundary(bytes, n as int) {
        n
    } else {
        fitted_len(bytes, (n - 1) as nat)
    }
}

/// The UTF-8 bytes of `text` cut to at most `n`, at a character boundary.
pub open spec fn fitted(text: &str, n: nat) -> Seq<u8> {
    text.spec_bytes().subrange(0, fitted_len(text.spec_bytes(), n) as int)
}

/// A string of at most `N` bytes of UTF-8.
pub struct FixedString<const N: usize> {
    text: String,
}

impl<const N: usize> View for FixedString<N> {
    type V = Seq<u8>;

    /// The UTF-8 bytes of the string.
    closed spec fn view(&self) -> Seq<u8> {
        encode_utf8(self.text@)
    }
}

impl<const N: usize> FixedString<N> {
    #[verifier::type_invariant]
    closed spec fn fits(&self) -> bool {
        encode_utf8(self.text@).len() <= N
    }

    /// The empty string.
    pub fn new() -> (r: Self)
        ensures
            r@.len() == 0,
    {
        FixedString { text: String::new() }
    }

    /// The longest prefix of `text` that fits in `N` bytes without cutting
    /// a character.
    pub fn from_str(text: &str) -> (r: Self)
        ensures
            r@ == fitted(text, N as nat),
    {
        proof {
            encode_utf8_valid_utf8(text@);
            is_char_boundary_start_end_of_seq(text.spec_bytes());
        }
        let len = text.as_bytes().len();
        let mut k: usize = if len <= N {
            len
        } else {
            N
        };
        while k > 0 && !text.is_char_boundary(k)
            invariant
                k <= N,
                k <= len == text.spec_bytes().len(),
                is_char_boundary(text.spec_bytes(), 0),
                is_char_boundary(text.spec_bytes(), len as int),
                fitted_len(text.spec_bytes(), N as nat) == fitted_len(text.spec_bytes(), k as nat),
            decreases k,
        {
            k = k - 1;
        }
        assert(is_char_boundary(text.spec_bytes(), k as int));
        let (head, _) = text.split_at(k);
        FixedString { text: head.to_owned() }
    }

    /// The bytes held.
    pub fn as_bytes(&self) -> (r: &[u8])
        ensures
            r@ == self@,
    {
        self.text.as_str().as_bytes()
    }

    /// The text held.
    pub fn as_str(&self) -> (r: &str)
        ensures
            r.spec_bytes() == self@,
    {
        self.text.as_str()
    }

    /// The number of bytes held.
    pub fn len(&self) -> (r: usize)
        ensures
            r == self@.len(),
            r <= N,
    {
        proof {
            use_type_invariant(self);
        }
        self.text.as_str().len()
    }

    pub fn is_empty(&self) -> (r: bool)
        ensures
            r == (self@.len() == 0),
    {
        self.len() == 0
    }

    /// The most bytes the string can hold.
    pub fn capacity(&self) -> (r: usize)
        ensures
            r == N,
    {
        N
    }
}

} // verus!
