//! The buffer itself: storage, cursor, and the operations on them.
use core::fmt::Write;
use vstd::prelude::*;
use vstd::string::StringSliceAdditionalSpecFns;
use vstd::utf8::{decode_utf8, valid_utf8};

use crate::encoding::{lemma_decode_concat, lemma_decode_empty};

verus! {

broadcast use vstd::utf8::group_utf8_lib;

/// Returned when a fragment does not fit in the space that is left.
#[derive(Clone, Copy, Debug, PartialEq, Eq, Structural)]
pub struct CapacityExceeded;

/// A buffer of `N` bytes that text is appended to.
///
/// The first `len` bytes of the storage are the text written so far; the
/// rest is never read.
#[derive(Clone, Copy, Debug)]
pub struct StrBuf<const N: usize> {
    bytes: [u8; N],
    len: usize,
}

impl<const N: usize> View for StrBuf<N> {
    type V = Seq<char>;

    /// The text written so far.
    closed spec fn view(&self) -> Seq<char> {
        decode_utf8(self.written())
    }
}

impl<const N: usize> StrBuf<N> {
    /// The cursor stays within the storage, and what it covers is valid UTF-8.
    #[verifier::type_invariant]
    spec fn inv(self) -> bool {
        &&& self.len <= N
        &&& valid_utf8(self.bytes@.subrange(0, self.len as int))
    }

    /// The bytes written so far.
    pub closed spec fn written(&self) -> Seq<u8> {
        self.bytes@.subrange(0, self.len as int)
    }

    /// What one append of the bytes `s` to the bytes `before` gives: `after`
    /// is what the buffer then holds and `ok` whether the append was taken.
    /// It is taken exactly when it fits in `N` bytes; otherwise nothing changes.
    pub open spec fn append_outcome(before: Seq<u8>, s: Seq<u8>, after: Seq<u8>, ok: bool) -> bool {
        if before.len() + s.len() <= N {
            ok && after == before + s
        } else {
            !ok && after == before
        }
    }

    /// An empty buffer.
    pub fn new() -> (r: Self)
        ensures
            r.written() == Seq::<u8>::empty(),
            r@ == Seq::<char>::empty(),
    {
        let r = StrBuf { bytes: [0u8; N], len: 0 };
        proof {
            lemma_decode_empty();
            assert(r.written() =~= Seq::<u8>::empty());
        }
        r
    }

    /// Appends `s` if it fits in the space that is left; otherwise leaves the
    /// buffer as it is and reports `CapacityExceeded`.
    pub fn append(&mut self, s: &str) -> (r: Result<(), CapacityExceeded>)
        ensures
            Self::append_outcome(old(self).written(), s.spec_bytes(), final(self).written(), r is Ok),
            r is Ok ==> final(self)@ == old(self)@ + s@,
            r is Err ==> *final(self) == *old(self),
    {
        proof {
            use_type_invariant(&*self);
        }
        let src = s.as_bytes();
        let start = self.len;
        if src.len() > N - start {
            return Err(CapacityExceeded);
        }
        let ghost old_written = self.written();
        copy_at(&mut self.bytes, start, src, src.len());
        proof {
            assert(self.bytes@.subrange(0, (start + src.len()) as int) =~= old_written + src@);
            lemma_decode_concat(old_written, src@);
        }
        self.len = start + src.len();
        Ok(())
    }

    /// The text written so far. Whatever was appended, it is valid UTF-8
    /// and at most `N` bytes long.
    pub fn as_str(&self) -> (r: &str)
        ensures
            r.spec_bytes() == self.written(),
            r@ == self@,
            valid_utf8(self.written()),
            self.written().len() <= N,
    {
        proof {
            use_type_invariant(self);
        }
        let written = &self.bytes[0..self.len];
        match str_from_utf8(written) {
            Some(t) => t,
            None => {
                proof {
                    assert(false);
                }
                ""
            },
        }
    }
}

/// The number of bytes in all of `parts` together.
pub open spec fn total_bytes(parts: Seq<&str>) -> nat
    decreases parts.len(),
{
    if parts.len() == 0 {
        0
    } else {
        total_bytes(parts.drop_last()) + parts.last().spec_bytes().len()
    }
}

/// The text of all of `parts`, one after the other.
pub open spec fn joined(parts: Seq<&str>) -> Seq<char>
    decreases parts.len(),
{
    if parts.len() == 0 {
        Seq::empty()
    } else {
        joined(parts.drop_last()) + parts.last()@
    }
}

/// The bytes of all of `parts`, one after the other.
pub open spec fn joined_bytes(parts: Seq<&str>) -> Seq<u8>
    decreases parts.len(),
{
    if parts.len() == 0 {
        Seq::empty()
    } else {
        joined_bytes(parts.drop_last()) + parts.last().spec_bytes()
    }
}

/// A prefix of the parts has no more bytes than all of them.
proof fn lemma_total_bytes_prefix(parts: Seq<&str>, i: int)
    requires
        0 <= i <= parts.len(),
    ensures
        total_bytes(parts.subrange(0, i)) <= total_bytes(parts),
    decreases parts.len(),
{
    if i < parts.len() {
        assert(parts.drop_last().subrange(0, i) =~= parts.subrange(0, i));
        lemma_total_bytes_prefix(parts.drop_last(), i);
    } else {
        assert(parts.subrange(0, i) =~= parts);
    }
}

impl<const N: usize> StrBuf<N> {
    /// A buffer holding `parts` appended in order, as a renderer emits them,
    /// or `CapacityExceeded` when they do not all fit in `N` bytes.
    pub fn from_fragments(parts: &[&str]) -> (r: Result<StrBuf<N>, CapacityExceeded>)
        ensures
            r is Ok <==> total_bytes(parts@) <= N,
            r matches Ok(b) ==> b@ == joined(parts@) && b.written() == joined_bytes(parts@),
    {
        let mut buf = Self::new();
        let mut i: usize = 0;
        while i < parts.len()
            invariant
                i <= parts@.len(),
                total_bytes(parts@.subrange(0, i as int)) <= N,
                buf.written().len() == total_bytes(parts@.subrange(0, i as int)),
                buf.written() == joined_bytes(parts@.subrange(0, i as int)),
                buf@ == joined(parts@.subrange(0, i as int)),
            decreases parts@.len() - i,
        {
            let ghost before = parts@.subrange(0, i as int);
            let ghost after = parts@.subrange(0, i + 1);
            proof {
                assert(after.drop_last() =~= before);
                assert(after.last() == parts@[i as int]);
                assert(total_bytes(after) == total_bytes(before) + parts@[i as int].spec_bytes().len());
            }
            match buf.append(parts[i]) {
                Ok(()) => {},
                Err(e) => {
                    proof {
                        lemma_total_bytes_prefix(parts@, i + 1);
                    }
                    return Err(e);
                },
            }
            i += 1;
        }
        proof {
            assert(parts@.subrange(0, i as int) =~= parts@);
        }
        Ok(buf)
    }
}

impl<const N: usize> Default for StrBuf<N> {
    fn default() -> (r: Self)
        ensures
            r.written() == Seq::<u8>::empty(),
            r@ == Seq::<char>::empty(),
    {
        Self::new()
    }
}

impl<const N: usize> core::ops::Deref for StrBuf<N> {
    type Target = str;

    fn deref(&self) -> (r: &str)
        ensures
            r@ == self@,
    {
        self.as_str()
    }
}

impl<const N: usize> AsRef<str> for StrBuf<N> {
    fn as_ref(&self) -> (r: &str)
        ensures
            r@ == self@,
    {
        self.as_str()
    }
}

impl<const N: usize> Write for StrBuf<N> {
    /// The sink that formatting writes through: each fragment is appended
    /// whole, or the write fails and the buffer is left as it was.
    fn write_str(&mut self, s: &str) -> (r: core::fmt::Result)
        ensures
            Self::append_outcome(old(self).written(), s.spec_bytes(), final(self).written(), r is Ok),
            r is Ok ==> final(self)@ == old(self)@ + s@,
            r is Err ==> *final(self) == *old(self),
    {
        match self.append(s) {
            Ok(()) => Ok(()),
            Err(_) => Err(core::fmt::Error::default()),
        }
    }
}

impl<const N: usize> StrBuf<N> {
    /// A buffer holding the text that `value`'s `Display` impl renders, or an
    /// error if that text does not fit in `N` bytes or the rendering fails.
    /// A buffer that was partly filled when the error came is dropped.
    pub fn display<T: core::fmt::Display>(value: T) -> (r: Result<StrBuf<N>, core::fmt::Error>)
        ensures
            r matches Ok(b) ==> b.written().len() <= N && valid_utf8(b.written()),
    {
        let mut buf = Self::new();
        match write_display(&mut buf, &value) {
            Ok(()) => {
                proof {
                    use_type_invariant(&buf);
                }
                Ok(buf)
            },
            Err(e) => Err(e),
        }
    }

    /// A buffer holding the text of the formatting arguments `args`, or an
    /// error if that text does not fit in `N` bytes or the rendering fails.
    /// A buffer that was partly filled when the error came is dropped.
    pub fn format(args: core::fmt::Arguments<'_>) -> (r: Result<StrBuf<N>, core::fmt::Error>)
        ensures
            r matches Ok(b) ==> b.written().len() <= N && valid_utf8(b.written()),
    {
        let mut buf = Self::new();
        match write_arguments(&mut buf, args) {
            Ok(()) => {
                proof {
                    use_type_invariant(&buf);
                }
                Ok(buf)
            },
            Err(e) => Err(e),
        }
    }
}

/// `core::fmt::Error`, the error of a failed write while formatting; carried
/// through as it is.
#[verifier::external_type_specification]
#[verifier::external_body]
pub struct ExFmtError(core::fmt::Error);

/// `core::fmt::Arguments`, a prepared format string with its arguments;
/// carried through to the formatter as it is.
#[verifier::external_type_specification]
#[verifier::external_body]
pub struct ExArguments<'a>(core::fmt::Arguments<'a>);

/// Relies on `Default` for `core::fmt::Error`, the unit error of formatting.
pub assume_specification[ <core::fmt::Error as core::default::Default>::default ]() -> core::fmt::Error;

/// Relies on `write!` (`core::fmt::Write::write_fmt`): `value`'s `Display`
/// impl reaches `buf` only through `StrBuf::write_str`, fragment by fragment,
/// and each such write only appends; so what `buf` held stays in front.
#[verifier::external_body]
fn write_display<T: core::fmt::Display, const N: usize>(buf: &mut StrBuf<N>, value: &T) -> (r: core::fmt::Result)
    ensures
        old(buf).written().is_prefix_of(final(buf).written()),
{
    write!(buf, "{}", value)
}

/// Relies on `core::fmt::Write::write_fmt`: the arguments reach `buf` only
/// through `StrBuf::write_str`, fragment by fragment, and each such write only
/// appends; so what `buf` held stays in front.
#[verifier::external_body]
fn write_arguments<const N: usize>(buf: &mut StrBuf<N>, args: core::fmt::Arguments<'_>) -> (r: core::fmt::Result)
    ensures
        old(buf).written().is_prefix_of(final(buf).written()),
{
    buf.write_fmt(args)
}

/// Copies `src`, which is `n` bytes long, into `dst` from index `at` on;
/// the bytes before `at` stay as they were.
fn copy_at<const N: usize>(dst: &mut [u8; N], at: usize, src: &[u8], n: usize)
    requires
        n == src@.len(),
        at + n <= N,
    ensures
        final(dst)@.subrange(0, at as int) == old(dst)@.subrange(0, at as int),
        final(dst)@.subrange(0, at + src@.len()) == old(dst)@.subrange(0, at as int) + src@,
    no_unwind
{
    let mut i: usize = 0;
    while i < n
        invariant
            n == src@.len(),
            at + n <= N,
            dst@.len() == N,
            i <= src@.len(),
            forall|j: int| 0 <= j < at ==> dst@[j] == old(dst)@[j],
            forall|j: int| 0 <= j < i ==> dst@[at + j] == src@[j],
        decreases src@.len() - i,
    {
        dst[at + i] = src[i];
        i += 1;
    }
    assert(dst@.subrange(0, at as int) =~= old(dst)@.subrange(0, at as int));
    assert(dst@.subrange(0, at + src@.len()) =~= old(dst)@.subrange(0, at as int) + src@);
}

/// Relies on `core::str::from_utf8`: it accepts exactly the byte sequences
/// that are valid UTF-8, and the text it returns has those same bytes.
#[verifier::external_body]
fn str_from_utf8<'a>(v: &'a [u8]) -> (r: Option<&'a str>)
    ensures
        r is Some <==> valid_utf8(v@),
        r matches Some(t) ==> t.spec_bytes() == v@,
{
    core::str::from_utf8(v).ok()
}

} // verus!
