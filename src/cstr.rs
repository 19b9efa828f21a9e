//! NUL-terminated byte strings, with and without a bound on their length.

use vstd::prelude::*;

verus! {

/// Errors of the conversions into [`CStr`] and [`CBoundedStr`].
#[derive(Clone, Copy, Debug, PartialEq, Eq, Structural)]
pub enum CStrConvertError {
    /// The string, with its `NUL`, is longer than the bound.
    BoundExceeded,
    /// The bytes hold a `NUL` before the last one.
    InteriorNul,
    /// The bytes do not end with `NUL`.
    NotNulTerminated,
}

/// `bytes` ends with its only `NUL`.
pub open spec fn is_c_string(bytes: Seq<u8>) -> bool {
    &&& bytes.len() >= 1
    &&& bytes.last() == 0
    &&& forall|i: int| 0 <= i < bytes.len() - 1 ==> #[trigger] bytes[i] != 0
}

/// What converting `bytes` into a [`CStr`] gives.
pub open spec fn c_str_check(bytes: Seq<u8>) -> Result<(), CStrConvertError> {
    if bytes.len() == 0 || bytes.last() != 0 {
        Err(CStrConvertError::NotNulTerminated)
    } else if exists|i: int| 0 <= i < bytes.len() - 1 && bytes[i] == 0 {
        Err(CStrConvertError::InteriorNul)
    } else {
        Ok(())
    }
}

/// Kinds of index that select bytes of a [`CStr`] without its `NUL`.
pub trait CStrIndex {}

impl CStrIndex for usize {}

impl CStrIndex for std::ops::Range<usize> {}

/// A byte string that holds exactly one `NUL`, at its end.
#[derive(Clone, Copy)]
pub struct CStr<'a> {
    bytes: &'a [u8],
}

impl<'a> View for CStr<'a> {
    /// The bytes, with the `NUL`.
    type V = Seq<u8>;

    closed spec fn view(&self) -> Seq<u8> {
        self.bytes@
    }
}

impl<'a> CStr<'a> {
    /// Well-formedness: one `NUL`, at the end.
    pub open spec fn wf(&self) -> bool {
        is_c_string(self@)
    }

    /// Length without the `NUL`.
    pub fn len(&self) -> (r: usize)
        requires
            self.wf(),
        ensures
            r == self@.len() - 1,
    {
        self.len_with_nul() - 1
    }

    /// Length with the `NUL`.
    pub fn len_with_nul(&self) -> (r: usize)
        ensures
            r == self@.len(),
    {
        self.bytes.len()
    }

    /// `true` when the string holds only the `NUL`.
    pub fn is_empty(&self) -> (r: bool)
        requires
            self.wf(),
        ensures
            r == (self@.len() == 1),
    {
        self.len() == 0
    }

    /// Wraps `bytes`, which must end with `NUL` and hold no other.
    pub fn from_bytes_with_nul(bytes: &'a [u8]) -> (r: Result<CStr<'a>, CStrConvertError>)
        ensures
            match c_str_check(bytes@) {
                Ok(_) => r matches Ok(c) && c@ == bytes@ && c.wf(),
                Err(e) => r == Err::<CStr<'a>, CStrConvertError>(e),
            },
    {
        if bytes.len() == 0 {
            return Err(CStrConvertError::NotNulTerminated);
        }
        if bytes[bytes.len() - 1] != 0 {
            return Err(CStrConvertError::NotNulTerminated);
        }
        let mut i: usize = 0;
        while i < bytes.len() - 1
            invariant
                i < bytes@.len(),
                bytes@.last() == 0,
                forall|k: int| 0 <= k < i ==> #[trigger] bytes@[k] != 0,
            decreases bytes@.len() - i,
        {
            if bytes[i] == 0 {
                assert(bytes@[i as int] == 0);
                return Err(CStrConvertError::InteriorNul);
            }
            i += 1;
        }
        Ok(CStr { bytes })
    }

    /// Wraps `bytes`, which must end with `NUL` and hold no other.
    pub fn from_bytes_with_nul_unwrap(bytes: &'a [u8]) -> (r: CStr<'a>)
        requires
            is_c_string(bytes@),
        ensures
            r@ == bytes@,
            r.wf(),
    {
        match Self::from_bytes_with_nul(bytes) {
            Ok(v) => v,
            Err(_) => vstd::pervasive::unreached(),
        }
    }

    /// The bytes without the `NUL`.
    pub fn as_bytes(&self) -> (r: &'a [u8])
        requires
            self.wf(),
        ensures
            r@ == self@.drop_last(),
    {
        let n = self.len();
        let r = &self.bytes[0..n];
        assert(r@ =~= self@.drop_last());
        r
    }

    /// The bytes with the `NUL`.
    pub fn as_bytes_with_nul(&self) -> (r: &'a [u8])
        ensures
            r@ == self@,
    {
        self.bytes
    }
}

/// A C string of at most `N` bytes, its `NUL` included.
#[derive(Clone, Copy)]
pub struct CBoundedStr<'a, const N: usize> {
    s: CStr<'a>,
}

impl<'a, const N: usize> View for CBoundedStr<'a, N> {
    /// The bytes, with the `NUL`.
    type V = Seq<u8>;

    closed spec fn view(&self) -> Seq<u8> {
        self.s@
    }
}

impl<'a, const N: usize> CBoundedStr<'a, N> {
    /// Well-formedness: a C string within the bound.
    pub open spec fn wf(&self) -> bool {
        is_c_string(self@) && self@.len() <= N
    }

    /// Bounds `c_str` by `N`, failing when it is longer.
    pub fn from_c_str(c_str: CStr<'a>) -> (r: Result<CBoundedStr<'a, N>, CStrConvertError>)
        requires
            c_str.wf(),
        ensures
            c_str@.len() > N ==> r == Err::<CBoundedStr<'a, N>, CStrConvertError>(
                CStrConvertError::BoundExceeded,
            ),
            c_str@.len() <= N ==> (r matches Ok(b) && b@ == c_str@ && b.wf()),
    {
        if c_str.len_with_nul() > N {
            return Err(CStrConvertError::BoundExceeded);
        }
        Ok(CBoundedStr { s: c_str })
    }

    /// Wraps `bytes`, which must end with their only `NUL` and be at most `N`
    /// bytes long.
    pub fn from_bytes_with_nul(bytes: &'a [u8]) -> (r: Result<CBoundedStr<'a, N>, CStrConvertError>)
        ensures
            match c_str_check(bytes@) {
                Err(e) => r == Err::<CBoundedStr<'a, N>, CStrConvertError>(e),
                Ok(_) => if bytes@.len() > N {
                    r == Err::<CBoundedStr<'a, N>, CStrConvertError>(CStrConvertError::BoundExceeded)
                } else {
                    r matches Ok(b) && b@ == bytes@ && b.wf()
                },
            },
    {
        match CStr::from_bytes_with_nul(bytes) {
            Ok(c) => Self::from_c_str(c),
            Err(e) => Err(e),
        }
    }

    /// The string as an unbounded C string.
    pub fn as_c_str(&self) -> (r: CStr<'a>)
        ensures
            r@ == self@,
    {
        self.s
    }

    /// The same string under the larger bound `M`.
    pub fn relax_bound<const M: usize>(&self) -> (r: CBoundedStr<'a, M>)
        requires
            N <= M,
        ensures
            r@ == self@,
    {
        CBoundedStr { s: self.s }
    }

    /// The string as a `c_char` array of `N` entries, padded with zeros.
    pub fn to_char_array(&self) -> (r: [i8; N])
        requires
            self.wf(),
        ensures
            r@ == char_array(self@, N as nat),
    {
        let mut ret: [i8; N] = [0; N];
        let n = self.s.len_with_nul();
        let mut i: usize = 0;
        while i < n
            invariant
                n == self@.len(),
                n <= N,
                i <= n,
                ret@.len() == N,
                forall|k: int| 0 <= k < i ==> #[trigger] ret@[k] == self@[k] as i8,
                forall|k: int| i <= k < N ==> #[trigger] ret@[k] == 0,
            decreases n - i,
        {
            let b = self.s.bytes[i];
            ret[i] = b as i8;
            i += 1;
        }
        assert(ret@ =~= char_array(self@, N as nat));
        ret
    }

    /// The string as a `c_char` array of `M >= N` entries, padded with zeros.
    pub fn expand_to_char_array<const M: usize>(&self) -> (r: [i8; M])
        requires
            self.wf(),
            N <= M,
        ensures
            r@ == char_array(self@, M as nat),
    {
        self.relax_bound::<M>().to_char_array()
    }
}

/// `bytes` as `c_char`s, padded with zeros to `n` entries.
pub open spec fn char_array(bytes: Seq<u8>, n: nat) -> Seq<i8> {
    Seq::new(n, |i: int| if i < bytes.len() { bytes[i] as i8 } else { 0i8 })
}

} // verus!
