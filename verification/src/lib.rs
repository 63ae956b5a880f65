//! A fixed-capacity, zero-padded byte buffer for short ASCII text.
//!
//! `StringStruct` holds up to 80 bytes of text in a zero-filled buffer;
//! the logical content runs up to the first zero byte.  The `ToStr` trait
//! exposes that content as a read-only byte view, and `line_of` appends a
//! line terminator for printing.

use vstd::prelude::*;

verus! {

/// Number of bytes every buffer holds.
pub const CAPACITY: usize = 80;

/// Byte value that terminates a line of output.
pub const NEWLINE: u8 = 10;

/// Errors raised when building a buffer or extracting its text view.
#[derive(Clone, Copy, Debug, PartialEq, Eq, Structural)]
pub enum TextError {
    /// The input does not fit in the fixed buffer.
    InputTooLong,
    /// The bytes before the terminator are not valid ASCII text.
    InvalidEncoding,
}

/// Index of the first zero byte in `s`, or `s.len()` if there is none:
/// the logical length of a buffer.
pub open spec fn first_zero(s: Seq<u8>) -> int
    decreases s.len(),
{
    if s.len() == 0 {
        0
    } else if s[0] == 0 {
        0
    } else {
        1 + first_zero(s.skip(1))
    }
}

/// The logical text of a buffer: its bytes up to the first zero byte.
pub open spec fn text_of(s: Seq<u8>) -> Seq<u8> {
    s.subrange(0, first_zero(s))
}

/// `t` followed by zero bytes up to `CAPACITY`: the buffer built from `t`.
pub open spec fn padded(t: Seq<u8>) -> Seq<u8>
    recommends
        t.len() <= CAPACITY,
{
    t + Seq::new((CAPACITY - t.len()) as nat, |i: int| 0u8)
}

/// Every byte of `s` is valid ASCII.
pub open spec fn ascii_text(s: Seq<u8>) -> bool {
    forall|i: int| 0 <= i < s.len() ==> s[i] < 128
}

/// Every byte at or beyond the logical length is zero: the padding
/// invariant of a well-formed buffer.
pub open spec fn zero_padded(s: Seq<u8>) -> bool {
    forall|i: int| first_zero(s) <= i < s.len() ==> s[i] == 0
}

/// The logical length lies within the buffer, no content byte is zero,
/// and the byte at the logical length (if any) is zero.
pub proof fn lemma_first_zero_bounds(s: Seq<u8>)
    ensures
        0 <= first_zero(s) <= s.len(),
        forall|i: int| 0 <= i < first_zero(s) ==> s[i] != 0,
        first_zero(s) < s.len() ==> s[first_zero(s)] == 0,
    decreases s.len(),
{
    if s.len() == 0 {
    } else if s[0] == 0 {
    } else {
        lemma_first_zero_bounds(s.skip(1));
        assert forall|i: int| 0 <= i < first_zero(s) implies s[i] != 0 by {
            if i > 0 {
                assert(s.skip(1)[i - 1] != 0);
            }
        }
        if first_zero(s) < s.len() {
            assert(s.skip(1)[first_zero(s) - 1] == 0);
        }
    }
}

/// `first_zero` is pinned down by its characteristic properties: if the
/// first `n` bytes are nonzero and byte `n` (if present) is zero, then
/// the logical length is exactly `n`.
pub proof fn lemma_first_zero_is(s: Seq<u8>, n: int)
    requires
        0 <= n <= s.len(),
        forall|i: int| 0 <= i < n ==> s[i] != 0,
        n < s.len() ==> s[n] == 0,
    ensures
        first_zero(s) == n,
    decreases s.len(),
{
    if n == 0 {
    } else {
        assert(s[0] != 0);
        assert forall|i: int| 0 <= i < n - 1 implies s.skip(1)[i] != 0 by {
            assert(s[i + 1] != 0);
        }
        if n - 1 < s.skip(1).len() {
            assert(s.skip(1)[n - 1] == s[n]);
        }
        lemma_first_zero_is(s.skip(1), n - 1);
    }
}

/// Round-trip law: for any text that fits the buffer and holds no zero
/// byte, the logical text of the buffer built from it is the text itself.
pub proof fn lemma_round_trip(t: Seq<u8>)
    requires
        t.len() <= CAPACITY,
        forall|i: int| 0 <= i < t.len() ==> t[i] != 0,
    ensures
        text_of(padded(t)) == t,
{
    let s = padded(t);
    assert forall|i: int| 0 <= i < t.len() implies s[i] != 0 by {
        assert(s[i] == t[i]);
    }
    lemma_first_zero_is(s, t.len() as int);
    assert(text_of(s) =~= t);
}

/// Padding invariant: a buffer built from text that fits and holds no
/// zero byte has only zero bytes at and beyond its logical length.
pub proof fn lemma_padding_invariant(t: Seq<u8>)
    requires
        t.len() <= CAPACITY,
        forall|i: int| 0 <= i < t.len() ==> t[i] != 0,
    ensures
        zero_padded(padded(t)),
{
    let s = padded(t);
    assert forall|i: int| 0 <= i < t.len() implies s[i] != 0 by {
        assert(s[i] == t[i]);
    }
    lemma_first_zero_is(s, t.len() as int);
}

/// View bounds: the logical text of a buffer is never longer than the
/// buffer's capacity and never contains a zero byte.
pub proof fn lemma_text_view_bounds(s: Seq<u8>)
    requires
        s.len() <= CAPACITY,
    ensures
        text_of(s).len() <= CAPACITY,
        forall|i: int| 0 <= i < text_of(s).len() ==> text_of(s)[i] != 0,
{
    lemma_first_zero_bounds(s);
    assert forall|i: int| 0 <= i < text_of(s).len() implies text_of(s)[i] != 0 by {
        assert(text_of(s)[i] == s[i]);
    }
}

/// An 80-byte, zero-padded buffer holding short ASCII text.
#[derive(Debug)]
pub struct StringStruct {
    string: Vec<u8>,
}

impl View for StringStruct {
    type V = Seq<u8>;

    closed spec fn view(&self) -> Seq<u8> {
        self.string@
    }
}

impl StringStruct {
    /// The buffer always holds exactly `CAPACITY` bytes.
    pub open spec fn wf(&self) -> bool {
        self@.len() == CAPACITY
    }

    /// Builds a buffer from `val`: its bytes followed by zero padding.
    /// Fails with `InputTooLong` exactly when `val` exceeds the capacity.
    pub fn new(val: &[u8]) -> (r: Result<StringStruct, TextError>)
        ensures
            val@.len() <= CAPACITY ==> (r matches Ok(b) && b.wf() && b@ == padded(val@)),
            val@.len() > CAPACITY ==> (r matches Err(e) && e == TextError::InputTooLong),
    {
        if val.len() > CAPACITY {
            return Err(TextError::InputTooLong);
        }
        let mut string: Vec<u8> = Vec::new();
        let mut i: usize = 0;
        while i < CAPACITY
            invariant
                i == string@.len() <= CAPACITY,
                val@.len() <= CAPACITY,
                forall|j: int| 0 <= j < i && j < val@.len() ==> string@[j] == val@[j],
                forall|j: int| val@.len() <= j < i ==> string@[j] == 0,
            decreases CAPACITY - i,
        {
            if i < val.len() {
                string.push(val[i]);
            } else {
                string.push(0u8);
            }
            i = i + 1;
        }
        proof {
            assert(string@ =~= padded(val@));
        }
        Ok(StringStruct { string })
    }

    /// Logical length of the buffer: the number of bytes before the
    /// first zero byte, or the whole buffer if no byte is zero.
    pub fn len(&self) -> (n: usize)
        ensures
            n == first_zero(self@),
    {
        let mut n: usize = 0;
        while n < self.string.len() && self.string[n] != 0
            invariant
                0 <= n <= self.string@.len(),
                forall|i: int| 0 <= i < n ==> self.string@[i] != 0,
            decreases self.string@.len() - n,
        {
            n = n + 1;
        }
        proof {
            lemma_first_zero_is(self@, n as int);
        }
        n
    }

    /// The raw buffer: logical content followed by its padding.
    pub fn as_bytes(&self) -> (r: &[u8])
        ensures
            r@ == self@,
    {
        self.string.as_slice()
    }
}

/// The capability of exposing logical text content as a read-only byte
/// view that ends at the first zero byte.
pub trait ToStr {
    /// The raw bytes whose leading nonzero run is the logical text.
    spec fn buf(&self) -> Seq<u8>;

    /// Returns the logical text as a borrowed view, or `InvalidEncoding`
    /// exactly when some content byte is not valid ASCII.
    fn c_str<'a>(&'a self) -> (r: Result<&'a [u8], TextError>)
        ensures
            ascii_text(text_of(self.buf())) ==> (r matches Ok(v) && v@ == text_of(self.buf())),
            !ascii_text(text_of(self.buf())) ==> (r matches Err(e) && e
                == TextError::InvalidEncoding),
    ;
}

impl ToStr for StringStruct {
    open spec fn buf(&self) -> Seq<u8> {
        self@
    }

    fn c_str<'a>(&'a self) -> (r: Result<&'a [u8], TextError>) {
        let n = self.len();
        proof {
            lemma_first_zero_bounds(self@);
        }
        let mut i: usize = 0;
        while i < n
            invariant
                0 <= i <= n,
                n == first_zero(self.string@),
                n <= self.string@.len(),
                forall|j: int| 0 <= j < i ==> self.string@[j] < 128,
            decreases n - i,
        {
            if self.string[i] >= 128 {
                proof {
                    assert(text_of(self@)[i as int] >= 128);
                }
                return Err(TextError::InvalidEncoding);
            }
            i = i + 1;
        }
        proof {
            assert forall|j: int| 0 <= j < text_of(self@).len() implies text_of(self@)[j] < 128 by {
                assert(self.string@[j] < 128);
            }
        }
        Ok(vstd::slice::slice_subrange(self.string.as_slice(), 0, n))
    }
}

/// The logical text of `s` followed by a line terminator, ready to be
/// written out, or `InvalidEncoding` exactly when the text is not ASCII.
pub fn line_of<T: ToStr>(s: &T) -> (r: Result<Vec<u8>, TextError>)
    ensures
        ascii_text(text_of(s.buf())) ==> (r matches Ok(v) && v@ == text_of(s.buf()).push(NEWLINE)),
        !ascii_text(text_of(s.buf())) ==> (r matches Err(e) && e == TextError::InvalidEncoding),
{
    match s.c_str() {
        Ok(v) => {
            let mut out = vstd::slice::slice_to_vec(v);
            out.push(NEWLINE);
            Ok(out)
        },
        Err(e) => Err(e),
    }
}

} // verus!
