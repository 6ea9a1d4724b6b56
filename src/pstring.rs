use vstd::prelude::*;
use vstd::string::StringSliceAdditionalSpecFns;
use vstd::utf8::{decode_utf8, valid_utf8};

use crate::error::Error;

verus! {

/// Byte-lexicographic strict order: a proper prefix comes first.
pub open spec fn lex_lt(a: Seq<u8>, b: Seq<u8>) -> bool
    decreases a.len(),
{
    if a.len() == 0 {
        b.len() > 0
    } else if b.len() == 0 {
        false
    } else if a[0] < b[0] {
        true
    } else if a[0] > b[0] {
        false
    } else {
        lex_lt(a.drop_first(), b.drop_first())
    }
}

pub proof fn lemma_lex_irreflexive(a: Seq<u8>)
    ensures
        !lex_lt(a, a),
    decreases a.len(),
{
    if a.len() > 0 {
        lemma_lex_irreflexive(a.drop_first());
    }
}

pub proof fn lemma_lex_transitive(a: Seq<u8>, b: Seq<u8>, c: Seq<u8>)
    requires
        lex_lt(a, b),
        lex_lt(b, c),
    ensures
        lex_lt(a, c),
    decreases a.len(),
{
    if a.len() > 0 && b.len() > 0 && c.len() > 0 && a[0] == b[0] && b[0] == c[0] {
        lemma_lex_transitive(a.drop_first(), b.drop_first(), c.drop_first());
    }
}

/// Two distinct byte strings are ordered one way or the other.
pub proof fn lemma_lex_total(a: Seq<u8>, b: Seq<u8>)
    requires
        a != b,
    ensures
        lex_lt(a, b) || lex_lt(b, a),
    decreases a.len(),
{
    if a.len() > 0 && b.len() > 0 && a[0] == b[0] {
        if a.drop_first() == b.drop_first() {
            assert(a =~= seq![a[0]] + a.drop_first());
            assert(b =~= seq![b[0]] + b.drop_first());
        }
        lemma_lex_total(a.drop_first(), b.drop_first());
    } else if a.len() == 0 && b.len() == 0 {
        assert(a =~= b);
    }
}

/// Lexicographic comparison of two byte strings.
pub fn bytes_lt(a: &[u8], b: &[u8]) -> (r: bool)
    ensures
        r == lex_lt(a@, b@),
{
    let mut i: usize = 0;
    assert(a@.subrange(0, a@.len() as int) =~= a@);
    assert(b@.subrange(0, b@.len() as int) =~= b@);
    while i < a.len() && i < b.len()
        invariant
            i <= a@.len(),
            i <= b@.len(),
            lex_lt(a@, b@) == lex_lt(a@.subrange(i as int, a@.len() as int), b@.subrange(i as int, b@.len() as int)),
        decreases a@.len() - i,
    {
        let x = a[i];
        let y = b[i];
        if x < y {
            return true;
        }
        if x > y {
            return false;
        }
        let ghost sa = a@.subrange(i as int, a@.len() as int);
        let ghost sb = b@.subrange(i as int, b@.len() as int);
        assert(sa.drop_first() =~= a@.subrange(i + 1, a@.len() as int));
        assert(sb.drop_first() =~= b@.subrange(i + 1, b@.len() as int));
        i = i + 1;
    }
    i < b.len()
}

/// The text of raw path bytes, which must be valid UTF-8.
pub fn os_to_utf(bytes: &[u8]) -> (r: Result<String, Error>)
    ensures
        r is Ok <==> valid_utf8(bytes@),
        r matches Ok(s) ==> s@ == decode_utf8(bytes@),
        r matches Err(e) ==> e == Error::InvalidData,
{
    match core::str::from_utf8(bytes) {
        Ok(s) => Ok(s.to_owned()),
        Err(_) => Err(Error::InvalidData),
    }
}

/// `base` followed directly by `relpath`.
pub fn joinpath(base: &[u8], relpath: &[u8]) -> (r: Vec<u8>)
    ensures
        r@ == base@ + relpath@,
{
    let mut out: Vec<u8> = Vec::new();
    let mut i: usize = 0;
    while i < base.len()
        invariant
            i <= base@.len(),
            out@ == base@.subrange(0, i as int),
        decreases base@.len() - i,
    {
        out.push(base[i]);
        i = i + 1;
    }
    let mut j: usize = 0;
    while j < relpath.len()
        invariant
            j <= relpath@.len(),
            out@ == base@ + relpath@.subrange(0, j as int),
        decreases relpath@.len() - j,
    {
        out.push(relpath[j]);
        j = j + 1;
    }
    assert(base@.subrange(0, base@.len() as int) =~= base@);
    assert(relpath@.subrange(0, relpath@.len() as int) =~= relpath@);
    out
}

/// An owned path, or path fragment, stored with a terminating NUL byte that its
/// view leaves out.
pub struct PString {
    buf: Vec<u8>,
}

/// `base` followed by `name`, with a `/` between them unless `base` already ends
/// with one.
pub open spec fn joined(base: Seq<u8>, name: Seq<u8>) -> Seq<u8> {
    if base.len() > 0 && base.last() == 0x2fu8 {
        base + name
    } else {
        base.push(0x2fu8) + name
    }
}

impl View for PString {
    type V = Seq<u8>;

    closed spec fn view(&self) -> Seq<u8> {
        self.buf@.drop_last()
    }
}

impl PString {
    #[verifier::type_invariant]
    spec fn nul_terminated(self) -> bool {
        self.buf@.len() >= 1 && self.buf@.last() == 0u8
    }

    /// Builds a path from raw bytes, which are kept as they are.
    pub fn from_cstring_unchecked(bytes: &[u8]) -> (r: PString)
        ensures
            r@ == bytes@,
    {
        let mut buf: Vec<u8> = Vec::new();
        let mut i: usize = 0;
        while i < bytes.len()
            invariant
                i <= bytes@.len(),
                buf@ == bytes@.subrange(0, i as int),
            decreases bytes@.len() - i,
        {
            buf.push(bytes[i]);
            i = i + 1;
        }
        assert(buf@ =~= bytes@);
        buf.push(0u8);
        let r = PString { buf };
        assert(r.buf@.drop_last() =~= bytes@);
        r
    }

    /// Builds a path from raw bytes that must be valid UTF-8.
    pub fn from_cstring(bytes: &[u8]) -> (r: Result<PString, Error>)
        ensures
            r is Ok <==> valid_utf8(bytes@),
            r matches Ok(p) ==> p@ == bytes@,
            r matches Err(e) ==> e == Error::InvalidData,
    {
        match core::str::from_utf8(bytes) {
            Ok(_) => Ok(PString::from_cstring_unchecked(bytes)),
            Err(_) => Err(Error::InvalidData),
        }
    }

    /// Builds a path from text.
    pub fn from_str(s: &str) -> (r: PString)
        ensures
            r@ == s.spec_bytes(),
    {
        PString::from_cstring_unchecked(s.as_bytes())
    }

    /// The number of bytes, the terminator left out.
    pub fn len(&self) -> (r: usize)
        ensures
            r == self@.len(),
    {
        proof { use_type_invariant(self); }
        self.buf.len() - 1
    }

    /// The bytes followed by the terminating NUL.
    pub fn as_bytes_with_nul(&self) -> (r: &[u8])
        ensures
            r@ == self@.push(0u8),
    {
        proof {
            use_type_invariant(self);
            assert(self.buf@ =~= self.buf@.drop_last().push(0u8));
        }
        self.buf.as_slice()
    }

    /// A view of the bytes, the terminator left out.
    pub fn as_bytes(&self) -> (r: &[u8])
        ensures
            r@ == self@,
    {
        proof { use_type_invariant(self); }
        let n = self.buf.len() - 1;
        vstd::slice::slice_subrange(self.buf.as_slice(), 0, n)
    }

    /// A copy of the bytes, the terminator left out.
    pub fn to_bytes(&self) -> (r: Vec<u8>)
        ensures
            r@ == self@,
    {
        proof { use_type_invariant(self); }
        let n = self.buf.len() - 1;
        let mut out: Vec<u8> = Vec::with_capacity(n);
        let mut i: usize = 0;
        while i < n
            invariant
                n == self.buf@.len() - 1,
                i <= n,
                out@ == self@.subrange(0, i as int),
            decreases n - i,
        {
            out.push(self.buf[i]);
            i = i + 1;
        }
        assert(out@ =~= self@);
        out
    }

    /// Whether this path orders before `other`, byte by byte.
    pub fn lt(&self, other: &PString) -> (r: bool)
        ensures
            r == lex_lt(self@, other@),
    {
        bytes_lt(self.as_bytes(), other.as_bytes())
    }

    /// This path followed directly by `rhs`.
    pub fn concat(&self, rhs: &PString) -> (r: PString)
        ensures
            r@ == self@ + rhs@,
    {
        let mut buf = self.to_bytes();
        let tail = rhs.to_bytes();
        let mut i: usize = 0;
        while i < tail.len()
            invariant
                i <= tail@.len(),
                buf@ == self@ + tail@.subrange(0, i as int),
            decreases tail@.len() - i,
        {
            buf.push(tail[i]);
            i = i + 1;
        }
        assert(tail@.subrange(0, tail@.len() as int) =~= tail@);
        buf.push(0u8);
        let r = PString { buf };
        assert(r.buf@.drop_last() =~= self@ + rhs@);
        r
    }

    /// The path of the child `filename` of this directory: a `/` goes between
    /// them unless this path already ends with one.
    pub fn append_path(&self, filename: &[u8]) -> (r: PString)
        ensures
            r@ == joined(self@, filename@),
    {
        let mut buf = self.to_bytes();
        let n = buf.len();
        if n == 0 || buf[n - 1] != 0x2fu8 {
            buf.push(0x2fu8);
        }
        let ghost base = buf@;
        assert(base == joined(self@, Seq::<u8>::empty()));
        let mut i: usize = 0;
        while i < filename.len()
            invariant
                i <= filename@.len(),
                buf@ == base + filename@.subrange(0, i as int),
            decreases filename@.len() - i,
        {
            buf.push(filename[i]);
            i = i + 1;
        }
        assert(filename@.subrange(0, filename@.len() as int) =~= filename@);
        buf.push(0u8);
        let r = PString { buf };
        assert(r.buf@.drop_last() =~= joined(self@, filename@));
        r
    }
}

} // verus!
