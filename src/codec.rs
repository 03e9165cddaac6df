//! The wire format: one codec per supported type, all meeting one contract.
use vstd::prelude::*;
use crate::error::InternalError;
use crate::buffer::{append_range, Buffer};
use vstd::utf8::{decode_utf8, encode_utf8, valid_utf8, decode_utf8_encode_utf8, encode_utf8_decode_utf8, encode_utf8_valid_utf8};
use crate::wire::{
    be_bytes, pow256, push_be, read_be, lemma_pow256_u64, lemma_be_bytes_len, lemma_be_value_bound,
    lemma_be_bytes_injective, lemma_be_value_bytes,
};

verus! {

/// `w` sits in `buf` at `offset`.
pub open spec fn at(buf: Seq<u8>, offset: int, w: Seq<u8>) -> bool {
    &&& 0 <= offset
    &&& offset + w.len() <= buf.len()
    &&& buf.subrange(offset, offset + w.len()) == w
}

/// The serialize/deserialize contract shared by every codec. `model` is the
/// mathematical value a host value stands for, `wire` its bytes, and
/// `encodable` says whether those bytes can be written (length prefixes are
/// signed 32-bit).
pub trait FfiConverter: Sized {
    type Model;

    spec fn model(&self) -> Self::Model;

    spec fn encodable(m: Self::Model) -> bool;

    spec fn wire(m: Self::Model) -> Seq<u8>;

    /// The number of bytes `write` appends.
    fn size(&self) -> (r: usize)
        requires
            Self::encodable(self.model()),
            Self::wire(self.model()).len() <= usize::MAX,
        ensures
            r == Self::wire(self.model()).len(),
    ;

    /// Appends the value's bytes to `buf`.
    fn write(&self, buf: &mut Vec<u8>)
        requires
            Self::encodable(self.model()),
        ensures
            final(buf)@ == old(buf)@ + Self::wire(self.model()),
    ;

    /// Reads one value at `offset`, returning it with the number of bytes
    /// consumed. It succeeds exactly when the bytes at `offset` start with
    /// the encoding of some value, and then returns that value.
    fn read(buf: &[u8], offset: usize) -> (r: Result<(Self, usize), InternalError>)
        requires
            offset <= buf@.len(),
        ensures
            r matches Ok((v, n)) ==> Self::encodable(v.model()) && n == Self::wire(v.model()).len()
                && at(buf@, offset as int, Self::wire(v.model())),
            forall|m: Self::Model|
                Self::encodable(m) && #[trigger] at(buf@, offset as int, Self::wire(m)) ==> (r matches Ok(
                    (v, n),
                ) && v.model() == m && n == Self::wire(m).len()),
    ;
}

/// Reads a `w`-byte big-endian number at `offset`.
fn read_uint(buf: &[u8], offset: usize, w: usize) -> (r: Result<u64, InternalError>)
    requires
        1 <= w <= 8,
        offset <= buf@.len(),
    ensures
        r matches Ok(x) ==> (x as nat) < pow256(w as nat) && at(buf@, offset as int, be_bytes(x as nat, w as nat)),
        forall|y: nat|
            y < pow256(w as nat) && #[trigger] at(buf@, offset as int, be_bytes(y, w as nat)) ==> r == Ok::<
                u64,
                InternalError,
            >(y as u64),
        r is Err <==> offset + w > buf@.len(),
        r matches Err(e) ==> e == InternalError::IncompleteData,
{
    if buf.len() - offset < w {
        proof {
            assert forall|y: nat| y < pow256(w as nat) implies !at(buf@, offset as int, be_bytes(y, w as nat)) by {
                lemma_be_bytes_len(y, w as nat);
            }
        }
        return Err(InternalError::IncompleteData);
    }
    let x = read_be(buf, offset, w);
    proof {
        let s = buf@.subrange(offset as int, offset + w);
        lemma_be_value_bound(s);
        lemma_be_value_bytes(s);
        lemma_be_bytes_len(x as nat, w as nat);
        assert forall|y: nat| y < pow256(w as nat) && #[trigger] at(buf@, offset as int, be_bytes(y, w as nat)) implies y == x by {
            lemma_be_bytes_len(y, w as nat);
            lemma_be_bytes_injective(y, x as nat, w as nat);
        }
    }
    Ok(x)
}

impl FfiConverter for u8 {
    type Model = u8;

    open spec fn model(&self) -> u8 {
        *self
    }

    open spec fn encodable(m: u8) -> bool {
        true
    }

    open spec fn wire(m: u8) -> Seq<u8> {
        be_bytes(m as nat, 1)
    }

    fn size(&self) -> (r: usize) {
        proof {
            lemma_be_bytes_len(*self as nat, 1);
        }
        1
    }

    fn write(&self, buf: &mut Vec<u8>) {
        push_be(*self as u64, 1, buf);
    }

    fn read(buf: &[u8], offset: usize) -> (r: Result<(u8, usize), InternalError>) {
        proof {
            lemma_pow256_u64();
        }
        match read_uint(buf, offset, 1) {
            Ok(x) => {
                proof {
                    lemma_be_bytes_len(x as nat, 1);
                    assert forall|m: u8| #[trigger] at(buf@, offset as int, Self::wire(m)) implies x as u8 == m by {
                        assert((m as nat) < pow256(1));
                    }
                }
                Ok((x as u8, 1))
            },
            Err(e) => {
                proof {
                    assert forall|m: u8| !#[trigger] at(buf@, offset as int, Self::wire(m)) by {
                        assert((m as nat) < pow256(1));
                    }
                }
                Err(e)
            },
        }
    }
}

impl FfiConverter for u16 {
    type Model = u16;

    open spec fn model(&self) -> u16 {
        *self
    }

    open spec fn encodable(m: u16) -> bool {
        true
    }

    open spec fn wire(m: u16) -> Seq<u8> {
        be_bytes(m as nat, 2)
    }

    fn size(&self) -> (r: usize) {
        proof {
            lemma_be_bytes_len(*self as nat, 2);
        }
        2
    }

    fn write(&self, buf: &mut Vec<u8>) {
        push_be(*self as u64, 2, buf);
    }

    fn read(buf: &[u8], offset: usize) -> (r: Result<(u16, usize), InternalError>) {
        proof {
            lemma_pow256_u64();
        }
        match read_uint(buf, offset, 2) {
            Ok(x) => {
                proof {
                    lemma_be_bytes_len(x as nat, 2);
                    assert forall|m: u16| #[trigger] at(buf@, offset as int, Self::wire(m)) implies x as u16 == m by {
                        assert((m as nat) < pow256(2));
                    }
                }
                Ok((x as u16, 2))
            },
            Err(e) => {
                proof {
                    assert forall|m: u16| !#[trigger] at(buf@, offset as int, Self::wire(m)) by {
                        assert((m as nat) < pow256(2));
                    }
                }
                Err(e)
            },
        }
    }
}

impl FfiConverter for u32 {
    type Model = u32;

    open spec fn model(&self) -> u32 {
        *self
    }

    open spec fn encodable(m: u32) -> bool {
        true
    }

    open spec fn wire(m: u32) -> Seq<u8> {
        be_bytes(m as nat, 4)
    }

    fn size(&self) -> (r: usize) {
        proof {
            lemma_be_bytes_len(*self as nat, 4);
        }
        4
    }

    fn write(&self, buf: &mut Vec<u8>) {
        push_be(*self as u64, 4, buf);
    }

    fn read(buf: &[u8], offset: usize) -> (r: Result<(u32, usize), InternalError>) {
        proof {
            lemma_pow256_u64();
        }
        match read_uint(buf, offset, 4) {
            Ok(x) => {
                proof {
                    lemma_be_bytes_len(x as nat, 4);
                    assert forall|m: u32| #[trigger] at(buf@, offset as int, Self::wire(m)) implies x as u32 == m by {
                        assert((m as nat) < pow256(4));
                    }
                }
                Ok((x as u32, 4))
            },
            Err(e) => {
                proof {
                    assert forall|m: u32| !#[trigger] at(buf@, offset as int, Self::wire(m)) by {
                        assert((m as nat) < pow256(4));
                    }
                }
                Err(e)
            },
        }
    }
}

impl FfiConverter for u64 {
    type Model = u64;

    open spec fn model(&self) -> u64 {
        *self
    }

    open spec fn encodable(m: u64) -> bool {
        true
    }

    open spec fn wire(m: u64) -> Seq<u8> {
        be_bytes(m as nat, 8)
    }

    fn size(&self) -> (r: usize) {
        proof {
            lemma_be_bytes_len(*self as nat, 8);
        }
        8
    }

    fn write(&self, buf: &mut Vec<u8>) {
        push_be(*self as u64, 8, buf);
    }

    fn read(buf: &[u8], offset: usize) -> (r: Result<(u64, usize), InternalError>) {
        proof {
            lemma_pow256_u64();
        }
        match read_uint(buf, offset, 8) {
            Ok(x) => {
                proof {
                    lemma_be_bytes_len(x as nat, 8);
                    assert forall|m: u64| #[trigger] at(buf@, offset as int, Self::wire(m)) implies x as u64 == m by {
                        assert((m as nat) < pow256(8));
                    }
                }
                Ok((x as u64, 8))
            },
            Err(e) => {
                proof {
                    assert forall|m: u64| !#[trigger] at(buf@, offset as int, Self::wire(m)) by {
                        assert((m as nat) < pow256(8));
                    }
                }
                Err(e)
            },
        }
    }
}

impl FfiConverter for i8 {
    type Model = i8;

    open spec fn model(&self) -> i8 {
        *self
    }

    open spec fn encodable(m: i8) -> bool {
        true
    }

    open spec fn wire(m: i8) -> Seq<u8> {
        be_bytes((m as u8) as nat, 1)
    }

    fn size(&self) -> (r: usize) {
        proof {
            lemma_be_bytes_len((*self as u8) as nat, 1);
        }
        1
    }

    fn write(&self, buf: &mut Vec<u8>) {
        push_be((*self as u8) as u64, 1, buf);
    }

    fn read(buf: &[u8], offset: usize) -> (r: Result<(i8, usize), InternalError>) {
        proof {
            lemma_pow256_u64();
        }
        match read_uint(buf, offset, 1) {
            Ok(x) => {
                proof {
                    lemma_be_bytes_len(x as nat, 1);
            assert forall|m: i8| #[trigger] (((m as u8) as u64) as u8) as i8 == m by {
                assert((((m as u8) as u64) as u8) as i8 == m) by (bit_vector);
            }
            assert((((x as u8) as i8) as u8) as u64 == x) by (bit_vector)
                requires
                    x < 0x100,
            ;
                    assert forall|m: i8| #[trigger] at(buf@, offset as int, Self::wire(m)) implies (x as u8) as i8 == m by {
                        assert(((m as u8) as nat) < pow256(1));
                    }
                }
                Ok(((x as u8) as i8, 1))
            },
            Err(e) => {
                proof {
                    assert forall|m: i8| !#[trigger] at(buf@, offset as int, Self::wire(m)) by {
                        assert(((m as u8) as nat) < pow256(1));
                    }
                }
                Err(e)
            },
        }
    }
}

impl FfiConverter for i16 {
    type Model = i16;

    open spec fn model(&self) -> i16 {
        *self
    }

    open spec fn encodable(m: i16) -> bool {
        true
    }

    open spec fn wire(m: i16) -> Seq<u8> {
        be_bytes((m as u16) as nat, 2)
    }

    fn size(&self) -> (r: usize) {
        proof {
            lemma_be_bytes_len((*self as u16) as nat, 2);
        }
        2
    }

    fn write(&self, buf: &mut Vec<u8>) {
        push_be((*self as u16) as u64, 2, buf);
    }

    fn read(buf: &[u8], offset: usize) -> (r: Result<(i16, usize), InternalError>) {
        proof {
            lemma_pow256_u64();
        }
        match read_uint(buf, offset, 2) {
            Ok(x) => {
                proof {
                    lemma_be_bytes_len(x as nat, 2);
            assert forall|m: i16| #[trigger] (((m as u16) as u64) as u16) as i16 == m by {
                assert((((m as u16) as u64) as u16) as i16 == m) by (bit_vector);
            }
            assert((((x as u16) as i16) as u16) as u64 == x) by (bit_vector)
                requires
                    x < 0x10000,
            ;
                    assert forall|m: i16| #[trigger] at(buf@, offset as int, Self::wire(m)) implies (x as u16) as i16 == m by {
                        assert(((m as u16) as nat) < pow256(2));
                    }
                }
                Ok(((x as u16) as i16, 2))
            },
            Err(e) => {
                proof {
                    assert forall|m: i16| !#[trigger] at(buf@, offset as int, Self::wire(m)) by {
                        assert(((m as u16) as nat) < pow256(2));
                    }
                }
                Err(e)
            },
        }
    }
}

impl FfiConverter for i32 {
    type Model = i32;

    open spec fn model(&self) -> i32 {
        *self
    }

    open spec fn encodable(m: i32) -> bool {
        true
    }

    open spec fn wire(m: i32) -> Seq<u8> {
        be_bytes((m as u32) as nat, 4)
    }

    fn size(&self) -> (r: usize) {
        proof {
            lemma_be_bytes_len((*self as u32) as nat, 4);
        }
        4
    }

    fn write(&self, buf: &mut Vec<u8>) {
        push_be((*self as u32) as u64, 4, buf);
    }

    fn read(buf: &[u8], offset: usize) -> (r: Result<(i32, usize), InternalError>) {
        proof {
            lemma_pow256_u64();
        }
        match read_uint(buf, offset, 4) {
            Ok(x) => {
                proof {
                    lemma_be_bytes_len(x as nat, 4);
            assert forall|m: i32| #[trigger] (((m as u32) as u64) as u32) as i32 == m by {
                assert((((m as u32) as u64) as u32) as i32 == m) by (bit_vector);
            }
            assert((((x as u32) as i32) as u32) as u64 == x) by (bit_vector)
                requires
                    x < 0x100000000,
            ;
                    assert forall|m: i32| #[trigger] at(buf@, offset as int, Self::wire(m)) implies (x as u32) as i32 == m by {
                        assert(((m as u32) as nat) < pow256(4));
                    }
                }
                Ok(((x as u32) as i32, 4))
            },
            Err(e) => {
                proof {
                    assert forall|m: i32| !#[trigger] at(buf@, offset as int, Self::wire(m)) by {
                        assert(((m as u32) as nat) < pow256(4));
                    }
                }
                Err(e)
            },
        }
    }
}

impl FfiConverter for i64 {
    type Model = i64;

    open spec fn model(&self) -> i64 {
        *self
    }

    open spec fn encodable(m: i64) -> bool {
        true
    }

    open spec fn wire(m: i64) -> Seq<u8> {
        be_bytes((m as u64) as nat, 8)
    }

    fn size(&self) -> (r: usize) {
        proof {
            lemma_be_bytes_len((*self as u64) as nat, 8);
        }
        8
    }

    fn write(&self, buf: &mut Vec<u8>) {
        push_be((*self as u64) as u64, 8, buf);
    }

    fn read(buf: &[u8], offset: usize) -> (r: Result<(i64, usize), InternalError>) {
        proof {
            lemma_pow256_u64();
        }
        match read_uint(buf, offset, 8) {
            Ok(x) => {
                proof {
                    lemma_be_bytes_len(x as nat, 8);
            assert forall|m: i64| #[trigger] (((m as u64) as u64) as u64) as i64 == m by {
                assert((((m as u64) as u64) as u64) as i64 == m) by (bit_vector);
            }
            assert((((x as u64) as i64) as u64) as u64 == x) by (bit_vector)
                requires
                    x < 0x10000000000000000,
            ;
                    assert forall|m: i64| #[trigger] at(buf@, offset as int, Self::wire(m)) implies (x as u64) as i64 == m by {
                        assert(((m as u64) as nat) < pow256(8));
                    }
                }
                Ok(((x as u64) as i64, 8))
            },
            Err(e) => {
                proof {
                    assert forall|m: i64| !#[trigger] at(buf@, offset as int, Self::wire(m)) by {
                        assert(((m as u64) as nat) < pow256(8));
                    }
                }
                Err(e)
            },
        }
    }
}

/// `a + b` sits at `o` exactly when `a` does and `b` follows it.
pub proof fn lemma_at_concat(buf: Seq<u8>, o: int, a: Seq<u8>, b: Seq<u8>)
    ensures
        at(buf, o, a + b) <==> at(buf, o, a) && at(buf, o + a.len(), b),
{
    if 0 <= o && o + a.len() + b.len() <= buf.len() {
        let s = buf.subrange(o, o + a.len() + b.len());
        assert(s.subrange(0, a.len() as int) =~= buf.subrange(o, o + a.len()));
        assert(s.subrange(a.len() as int, s.len() as int) =~= buf.subrange(
            o + a.len(),
            o + a.len() + b.len(),
        ));
        assert((a + b).subrange(0, a.len() as int) =~= a);
        assert((a + b).subrange(a.len() as int, (a + b).len() as int) =~= b);
        if at(buf, o, a) && at(buf, o + a.len(), b) {
            assert(s =~= a + b);
        }
    }
}

impl FfiConverter for bool {
    type Model = bool;

    open spec fn model(&self) -> bool {
        *self
    }

    open spec fn encodable(m: bool) -> bool {
        true
    }

    open spec fn wire(m: bool) -> Seq<u8> {
        if m {
            seq![1u8]
        } else {
            seq![0u8]
        }
    }

    fn size(&self) -> (r: usize) {
        1
    }

    fn write(&self, buf: &mut Vec<u8>) {
        if *self {
            buf.push(1u8);
        } else {
            buf.push(0u8);
        }
    }

    fn read(buf: &[u8], offset: usize) -> (r: Result<(bool, usize), InternalError>) {
        if offset >= buf.len() {
            return Err(InternalError::IncompleteData);
        }
        let byte = buf[offset];
        proof {
            assert(buf@.subrange(offset as int, offset + 1) =~= seq![byte]);
            assert(at(buf@, offset as int, seq![byte]));
            assert forall|m: bool| #[trigger] at(buf@, offset as int, Self::wire(m)) implies byte == (if m {
                1u8
            } else {
                0u8
            }) by {
                assert(seq![byte][0] == byte);
            }
        }
        if byte == 0 {
            Ok((false, 1))
        } else if byte == 1 {
            Ok((true, 1))
        } else {
            Err(InternalError::MalformedValue)
        }
    }
}

/// Relies on `String::from_utf8`: it succeeds exactly on well-formed UTF-8,
/// and the string then holds the characters those bytes encode.
#[verifier::external_body]
fn string_from_utf8(bytes: Vec<u8>) -> (r: Option<String>)
    ensures
        r is Some <==> valid_utf8(bytes@),
        r matches Some(s) ==> s@ == decode_utf8(bytes@),
{
    match String::from_utf8(bytes) {
        Ok(s) => Some(s),
        Err(_) => None,
    }
}

/// The largest length a signed 32-bit prefix can carry.
pub const MAX_PREFIXED_LEN: u64 = 0x7fff_ffff;

impl FfiConverter for String {
    type Model = Seq<char>;

    open spec fn model(&self) -> Seq<char> {
        self@
    }

    open spec fn encodable(m: Seq<char>) -> bool {
        encode_utf8(m).len() <= MAX_PREFIXED_LEN
    }

    open spec fn wire(m: Seq<char>) -> Seq<u8> {
        be_bytes(encode_utf8(m).len(), 4) + encode_utf8(m)
    }

    fn size(&self) -> (r: usize) {
        proof {
            lemma_be_bytes_len(encode_utf8(self@).len(), 4);
        }
        4 + self.as_str().len()
    }

    fn write(&self, buf: &mut Vec<u8>) {
        let bytes = self.as_str().as_bytes();
        push_be(bytes.len() as u64, 4, buf);
        append_range(buf, bytes, 0, bytes.len());
        assert(bytes@.subrange(0, bytes@.len() as int) =~= bytes@);
        assert(final(buf)@ =~= old(buf)@ + Self::wire(self.model()));
    }

    fn read(buf: &[u8], offset: usize) -> (r: Result<(String, usize), InternalError>) {
        proof {
            lemma_pow256_u64();
            broadcast use encode_utf8_valid_utf8, encode_utf8_decode_utf8;
            assert forall|m: Seq<char>| #[trigger] at(buf@, offset as int, Self::wire(m)) implies
                at(buf@, offset as int, be_bytes(encode_utf8(m).len(), 4)) && at(buf@, offset + 4, encode_utf8(m)) by {
                lemma_at_concat(buf@, offset as int, be_bytes(encode_utf8(m).len(), 4), encode_utf8(m));
                lemma_be_bytes_len(encode_utf8(m).len(), 4);
            }
        }
        let n = match read_uint(buf, offset, 4) {
            Ok(n) => n,
            Err(e) => {
                return Err(e);
            },
        };
        proof {
            lemma_be_bytes_len(n as nat, 4);
        }
        if n > MAX_PREFIXED_LEN {
            return Err(InternalError::MalformedValue);
        }
        let blen: usize = buf.len();
        let start = offset + 4;
        let len = n as usize;
        if len > buf.len() - start {
            return Err(InternalError::IncompleteData);
        }
        let mut bytes: Vec<u8> = Vec::new();
        append_range(&mut bytes, buf, start, start + len);
        let ghost b = bytes@;
        match string_from_utf8(bytes) {
            Some(s) => {
                proof {
                    decode_utf8_encode_utf8(b);
                    assert(b =~= buf@.subrange(start as int, start + len));
                    lemma_at_concat(buf@, offset as int, be_bytes(n as nat, 4), b);
                }
                Ok((s, 4 + len))
            },
            None => {
                Err(InternalError::MalformedValue)
            },
        }
    }
}

impl<T: FfiConverter> FfiConverter for Option<T> {
    type Model = Option<T::Model>;

    open spec fn model(&self) -> Option<T::Model> {
        match self {
            Some(v) => Some(v.model()),
            None => None,
        }
    }

    open spec fn encodable(m: Option<T::Model>) -> bool {
        match m {
            Some(x) => T::encodable(x),
            None => true,
        }
    }

    open spec fn wire(m: Option<T::Model>) -> Seq<u8> {
        match m {
            Some(x) => seq![1u8] + T::wire(x),
            None => seq![0u8],
        }
    }

    fn size(&self) -> (r: usize) {
        match self {
            Some(v) => 1 + v.size(),
            None => 1,
        }
    }

    fn write(&self, buf: &mut Vec<u8>) {
        match self {
            Some(v) => {
                buf.push(1u8);
                v.write(buf);
                assert(final(buf)@ =~= old(buf)@ + Self::wire(self.model()));
            },
            None => {
                buf.push(0u8);
                assert(final(buf)@ =~= old(buf)@ + Self::wire(self.model()));
            },
        }
    }

    fn read(buf: &[u8], offset: usize) -> (r: Result<(Option<T>, usize), InternalError>) {
        if offset >= buf.len() {
            return Err(InternalError::IncompleteData);
        }
        let tag = buf[offset];
        proof {
            assert(buf@.subrange(offset as int, offset + 1) =~= seq![tag]);
            assert(at(buf@, offset as int, seq![tag]));
            assert forall|x: T::Model| #[trigger] at(buf@, offset as int, seq![1u8] + T::wire(x)) implies
                tag == 1 && at(buf@, offset + 1, T::wire(x)) by {
                lemma_at_concat(buf@, offset as int, seq![1u8], T::wire(x));
                assert(seq![tag][0] == tag);
            }
            if at(buf@, offset as int, seq![0u8]) {
                assert(seq![tag][0] == tag);
            }
        }
        if tag == 0 {
            Ok((None, 1))
        } else if tag == 1 {
            match T::read(buf, offset + 1) {
                Ok((v, n)) => {
                    proof {
                        lemma_at_concat(buf@, offset as int, seq![1u8], T::wire(v.model()));
                    }
                    Ok((Some(v), n + 1))
                },
                Err(e) => Err(e),
            }
        } else {
            Err(InternalError::UnexpectedOptionalTag)
        }
    }
}

/// A record of two fields: the fields' encodings in declaration order.
impl<A: FfiConverter, B: FfiConverter> FfiConverter for (A, B) {
    type Model = (A::Model, B::Model);

    open spec fn model(&self) -> (A::Model, B::Model) {
        (self.0.model(), self.1.model())
    }

    open spec fn encodable(m: (A::Model, B::Model)) -> bool {
        A::encodable(m.0) && B::encodable(m.1)
    }

    open spec fn wire(m: (A::Model, B::Model)) -> Seq<u8> {
        A::wire(m.0) + B::wire(m.1)
    }

    fn size(&self) -> (r: usize) {
        self.0.size() + self.1.size()
    }

    fn write(&self, buf: &mut Vec<u8>) {
        self.0.write(buf);
        self.1.write(buf);
        assert(final(buf)@ =~= old(buf)@ + Self::wire(self.model()));
    }

    fn read(buf: &[u8], offset: usize) -> (r: Result<((A, B), usize), InternalError>) {
        proof {
            assert forall|m: (A::Model, B::Model)| #[trigger] at(buf@, offset as int, Self::wire(m)) implies at(
                buf@,
                offset as int,
                A::wire(m.0),
            ) && at(buf@, offset + A::wire(m.0).len(), B::wire(m.1)) by {
                lemma_at_concat(buf@, offset as int, A::wire(m.0), B::wire(m.1));
            }
        }
        let (a, na) = match A::read(buf, offset) {
            Ok(x) => x,
            Err(e) => {
                return Err(e);
            },
        };
        let blen: usize = buf.len();
        let (b, nb) = match B::read(buf, offset + na) {
            Ok(x) => x,
            Err(e) => {
                return Err(e);
            },
        };
        proof {
            lemma_at_concat(buf@, offset as int, A::wire(a.model()), B::wire(b.model()));
        }
        Ok(((a, b), na + nb))
    }
}

/// The tag of an enum variant on the wire, written before its fields: the
/// variant's index counted from 1, as a 32-bit big-endian number.
pub open spec fn variant_tag_wire(index: nat) -> Seq<u8> {
    be_bytes(index + 1, 4)
}

/// Appends the tag of the variant at `index`.
pub fn write_variant_tag(index: u32, buf: &mut Vec<u8>)
    requires
        index < MAX_PREFIXED_LEN,
    ensures
        final(buf)@ == old(buf)@ + variant_tag_wire(index as nat),
{
    push_be(index as u64 + 1, 4, buf);
}

/// Reads the tag of an enum with `variant_count` variants at `offset` and
/// returns the variant's index.
pub fn read_variant_tag(buf: &[u8], offset: usize, variant_count: u32) -> (r: Result<u32, InternalError>)
    requires
        offset <= buf@.len(),
    ensures
        r matches Ok(i) ==> i < variant_count && at(buf@, offset as int, variant_tag_wire(i as nat)),
        forall|i: nat|
            i < variant_count && #[trigger] at(buf@, offset as int, variant_tag_wire(i)) ==> r == Ok::<
                u32,
                InternalError,
            >(i as u32),
        offset + 4 > buf@.len() ==> r == Err::<u32, InternalError>(InternalError::IncompleteData),
        offset + 4 <= buf@.len() && r is Err ==> r == Err::<u32, InternalError>(InternalError::UnexpectedEnumCase),
{
    proof {
        lemma_pow256_u64();
    }
    let x = match read_uint(buf, offset, 4) {
        Ok(x) => x,
        Err(e) => {
            proof {
                assert forall|i: nat| i < variant_count implies !#[trigger] at(buf@, offset as int, variant_tag_wire(i)) by {
                    lemma_be_bytes_len(i + 1, 4);
                }
            }
            return Err(e);
        },
    };
    proof {
        assert forall|i: nat| i < variant_count && #[trigger] at(buf@, offset as int, variant_tag_wire(i)) implies x
            == i + 1 by {
            assert(i + 1 < pow256(4));
        }
    }
    if x == 0 || x > variant_count as u64 {
        Err(InternalError::UnexpectedEnumCase)
    } else {
        Ok((x - 1) as u32)
    }
}

/// The encodings of `ms`, one after another.
pub open spec fn wire_all<T: FfiConverter>(ms: Seq<T::Model>) -> Seq<u8>
    decreases ms.len(),
{
    if ms.len() == 0 {
        seq![]
    } else {
        wire_all::<T>(ms.drop_last()) + T::wire(ms.last())
    }
}

/// The models of the values `vs`, in order.
pub open spec fn models<T: FfiConverter>(vs: Seq<T>) -> Seq<T::Model> {
    vs.map_values(|v: T| v.model())
}

pub proof fn lemma_wire_all_concat<T: FfiConverter>(a: Seq<T::Model>, b: Seq<T::Model>)
    ensures
        wire_all::<T>(a + b) == wire_all::<T>(a) + wire_all::<T>(b),
    decreases b.len(),
{
    if b.len() == 0 {
        assert(a + b =~= a);
        assert(wire_all::<T>(a) + wire_all::<T>(b) =~= wire_all::<T>(a));
    } else {
        assert((a + b).drop_last() =~= a + b.drop_last());
        lemma_wire_all_concat::<T>(a, b.drop_last());
        assert(wire_all::<T>(a + b) =~= wire_all::<T>(a) + wire_all::<T>(b));
    }
}

/// The encoding of element `i` follows those of the elements before it.
pub proof fn lemma_wire_all_split<T: FfiConverter>(m: Seq<T::Model>, i: int)
    requires
        0 <= i < m.len(),
    ensures
        wire_all::<T>(m) == wire_all::<T>(m.take(i)) + T::wire(m[i]) + wire_all::<T>(m.skip(i + 1)),
        wire_all::<T>(m.take(i + 1)) == wire_all::<T>(m.take(i)) + T::wire(m[i]),
{
    assert(m.take(i + 1).drop_last() =~= m.take(i));
    assert(m =~= m.take(i + 1) + m.skip(i + 1));
    lemma_wire_all_concat::<T>(m.take(i + 1), m.skip(i + 1));
}

impl<T: FfiConverter> FfiConverter for Vec<T> {
    type Model = Seq<T::Model>;

    open spec fn model(&self) -> Seq<T::Model> {
        models::<T>(self@)
    }

    open spec fn encodable(m: Seq<T::Model>) -> bool {
        &&& m.len() <= MAX_PREFIXED_LEN
        &&& forall|i: int| 0 <= i < m.len() ==> T::encodable(#[trigger] m[i])
    }

    open spec fn wire(m: Seq<T::Model>) -> Seq<u8> {
        be_bytes(m.len(), 4) + wire_all::<T>(m)
    }

    fn size(&self) -> (r: usize) {
        let ghost m = self.model();
        proof {
            lemma_be_bytes_len(m.len(), 4);
        }
        let mut total: usize = 4;
        let mut i: usize = 0;
        while i < self.len()
            invariant
                m == self.model(),
                Self::encodable(m),
                Self::wire(m).len() <= usize::MAX,
                be_bytes(m.len(), 4).len() == 4,
                i <= m.len() == self@.len(),
                total == 4 + wire_all::<T>(m.take(i as int)).len(),
            decreases self@.len() - i,
        {
            proof {
                lemma_wire_all_split::<T>(m, i as int);
                assert(wire_all::<T>(m.take(i + 1)).len() <= wire_all::<T>(m).len());
            }
            assert(self@[i as int].model() == m[i as int]);
            let k = self[i].size();
            total = total + k;
            i = i + 1;
        }
        assert(m.take(i as int) =~= m);
        total
    }

    fn write(&self, buf: &mut Vec<u8>) {
        let ghost m = self.model();
        push_be(self.len() as u64, 4, buf);
        let mut i: usize = 0;
        assert(m.take(0) =~= Seq::<T::Model>::empty());
        assert(buf@ =~= old(buf)@ + be_bytes(m.len(), 4) + wire_all::<T>(m.take(0)));
        while i < self.len()
            invariant
                m == self.model(),
                Self::encodable(m),
                i <= m.len() == self@.len(),
                buf@ == old(buf)@ + be_bytes(m.len(), 4) + wire_all::<T>(m.take(i as int)),
            decreases self@.len() - i,
        {
            proof {
                lemma_wire_all_split::<T>(m, i as int);
            }
            assert(self@[i as int].model() == m[i as int]);
            self[i].write(buf);
            i = i + 1;
            assert(buf@ =~= old(buf)@ + be_bytes(m.len(), 4) + wire_all::<T>(m.take(i as int)));
        }
        assert(m.take(i as int) =~= m);
        assert(buf@ =~= old(buf)@ + Self::wire(m));
    }

    fn read(buf: &[u8], offset: usize) -> (r: Result<(Vec<T>, usize), InternalError>) {
        proof {
            lemma_pow256_u64();
            assert forall|m: Seq<T::Model>| #[trigger] at(buf@, offset as int, Self::wire(m)) implies at(
                buf@,
                offset as int,
                be_bytes(m.len(), 4),
            ) && at(buf@, offset + 4, wire_all::<T>(m)) by {
                lemma_at_concat(buf@, offset as int, be_bytes(m.len(), 4), wire_all::<T>(m));
                lemma_be_bytes_len(m.len(), 4);
            }
        }
        let n = match read_uint(buf, offset, 4) {
            Ok(n) => n,
            Err(e) => {
                return Err(e);
            },
        };
        proof {
            lemma_be_bytes_len(n as nat, 4);
        }
        if n > MAX_PREFIXED_LEN {
            return Err(InternalError::MalformedValue);
        }
        let count = n as usize;
        let blen: usize = buf.len();
        let mut pos: usize = offset + 4;
        let mut out: Vec<T> = Vec::new();
        let mut i: usize = 0;
        assert(models::<T>(out@) =~= Seq::<T::Model>::empty());
        assert(buf@.subrange(offset + 4, offset + 4) =~= Seq::<u8>::empty());
        while i < count
            invariant
                blen == buf@.len(),
                offset + 4 <= pos <= blen,
                i <= count <= MAX_PREFIXED_LEN,
                count == n,
                at(buf@, offset as int, be_bytes(n as nat, 4)),
                forall|m: Seq<T::Model>| #[trigger]
                    at(buf@, offset as int, Self::wire(m)) ==> at(buf@, offset + 4, wire_all::<T>(m)),
                out@.len() == i,
                forall|j: int| 0 <= j < i ==> T::encodable(#[trigger] models::<T>(out@)[j]),
                at(buf@, offset + 4, wire_all::<T>(models::<T>(out@))),
                pos == offset + 4 + wire_all::<T>(models::<T>(out@)).len(),
                forall|m: Seq<T::Model>|
                    Self::encodable(m) && #[trigger] at(buf@, offset as int, Self::wire(m)) ==> m.len()
                        == count && models::<T>(out@) == m.take(i as int),
            decreases count - i,
        {
            proof {
                assert forall|m: Seq<T::Model>|
                    Self::encodable(m) && #[trigger] at(buf@, offset as int, Self::wire(m)) implies at(
                    buf@,
                    pos as int,
                    T::wire(m[i as int]),
                ) && T::encodable(m[i as int]) by {
                    lemma_wire_all_split::<T>(m, i as int);
                    lemma_at_concat(
                        buf@,
                        offset + 4,
                        wire_all::<T>(m.take(i as int)) + T::wire(m[i as int]),
                        wire_all::<T>(m.skip(i + 1)),
                    );
                    lemma_at_concat(
                        buf@,
                        offset + 4,
                        wire_all::<T>(m.take(i as int)),
                        T::wire(m[i as int]),
                    );
                }
            }
            match T::read(buf, pos) {
                Ok((v, k)) => {
                    let ghost before = models::<T>(out@);
                    proof {
                        assert(before.push(v.model()).drop_last() =~= before);
                        lemma_at_concat(buf@, offset + 4, wire_all::<T>(before), T::wire(v.model()));
                        assert forall|m: Seq<T::Model>|
                            Self::encodable(m) && #[trigger] at(buf@, offset as int, Self::wire(m)) implies
                            before.push(v.model()) == m.take(i + 1) by {
                            lemma_wire_all_split::<T>(m, i as int);
                            assert(before.push(v.model()) =~= m.take(i + 1));
                        }
                    }
                    out.push(v);
                    assert(models::<T>(out@) =~= before.push(v.model()));
                    pos = pos + k;
                    i = i + 1;
                },
                Err(e) => {
                    return Err(e);
                },
            }
        }
        proof {
            lemma_at_concat(buf@, offset as int, be_bytes(n as nat, 4), wire_all::<T>(models::<T>(out@)));
            assert forall|m: Seq<T::Model>|
                Self::encodable(m) && #[trigger] at(buf@, offset as int, Self::wire(m)) implies models::<T>(out@) == m by {
                assert(m.take(i as int) =~= m);
            }
        }
        Ok((out, pos - offset))
    }
}

/// Serializes `v` into a new buffer.
pub fn lower<T: FfiConverter>(v: &T) -> (r: Buffer)
    requires
        T::encodable(v.model()),
    ensures
        r.wf(),
        r@ == T::wire(v.model()),
{
    let mut data: Vec<u8> = Vec::new();
    v.write(&mut data);
    assert(data@ =~= T::wire(v.model()));
    Buffer::from_vec(data)
}

/// Deserializes a buffer that holds exactly one encoded value: it succeeds
/// exactly when the buffer's bytes are the encoding of some value.
pub fn lift<T: FfiConverter>(b: &Buffer) -> (r: Result<T, InternalError>)
    ensures
        r matches Ok(v) ==> T::encodable(v.model()) && b@ == T::wire(v.model()),
        forall|m: T::Model|
            T::encodable(m) && b@ == #[trigger] T::wire(m) ==> (r matches Ok(v) && v.model() == m),
{
    let bytes = b.as_bytes();
    assert(bytes@.subrange(0, bytes@.len() as int) =~= bytes@);
    assert forall|m: T::Model| b@ == #[trigger] T::wire(m) implies at(bytes@, 0, T::wire(m)) by {}
    match T::read(bytes, 0) {
        Ok((v, n)) => {
            if n == bytes.len() {
                assert(bytes@.subrange(0, n as int) =~= bytes@);
                Ok(v)
            } else {
                Err(InternalError::MalformedValue)
            }
        },
        Err(e) => Err(e),
    }
}

/// A string as a whole buffer: its UTF-8 bytes, with no length prefix.
pub fn lower_string(s: &str) -> (r: Buffer)
    ensures
        r.wf(),
        r@ == encode_utf8(s@),
{
    Buffer::from_bytes(s.as_bytes())
}

/// Reads a whole buffer as UTF-8 text.
pub fn lift_string(b: &Buffer) -> (r: Result<String, InternalError>)
    ensures
        r is Ok <==> valid_utf8(b@),
        r matches Ok(s) ==> s@ == decode_utf8(b@),
        r matches Err(e) ==> e == InternalError::MalformedValue,
{
    let bytes = b.as_bytes();
    let mut data: Vec<u8> = Vec::new();
    append_range(&mut data, bytes, 0, bytes.len());
    assert(data@ =~= b@);
    match string_from_utf8(data) {
        Some(s) => Ok(s),
        None => Err(InternalError::MalformedValue),
    }
}

/// Round trip through a stream: once `write` has appended the encoding of `m`
/// to any bytes `before`, and whatever `after` follows, the encoding sits at
/// offset `before.len()`, which is where `read` then finds `m` again and
/// consumes `wire(m).len()` bytes, the count that `size` returns. Reading at
/// that offset can find no other value.
pub proof fn lemma_write_read_round_trip<T: FfiConverter>(
    m: T::Model,
    before: Seq<u8>,
    after: Seq<u8>,
)
    requires
        T::encodable(m),
    ensures
        at(before + T::wire(m) + after, before.len() as int, T::wire(m)),
{
    let buf = before + T::wire(m) + after;
    assert(buf.subrange(before.len() as int, (before.len() + T::wire(m).len()) as int) =~= T::wire(m));
}

/// Whole-buffer round trip: lifting the buffer that `lower` made of `v`
/// gives back a value with the model of `v`.
pub proof fn lemma_lift_lower_round_trip<T: FfiConverter>(v: &T, b: Buffer, r: Result<T, InternalError>)
    requires
        T::encodable(v.model()),
        call_ensures(lower::<T>, (v,), b),
        call_ensures(lift::<T>, (&b,), r),
    ensures
        r matches Ok(w) && w.model() == v.model(),
{
}

/// Text round trip: a string's UTF-8 bytes, the bytes `lower_string` puts in
/// a buffer, are valid UTF-8 and decode to the same characters, so
/// `lift_string` returns the string.
pub proof fn lemma_string_round_trip(text: Seq<char>)
    ensures
        valid_utf8(encode_utf8(text)),
        decode_utf8(encode_utf8(text)) == text,
{
    encode_utf8_valid_utf8(text);
    encode_utf8_decode_utf8(text);
}

/// A sequence is encoded as its element count, then each element in order,
/// so the model read back, a `Seq`, has the same elements in the same order.
/// The empty sequence is encodable and is four zero bytes.
pub proof fn lemma_sequence_encoding<T: FfiConverter>(ms: Seq<T::Model>, x: T::Model)
    requires
        <Vec<T> as FfiConverter>::encodable(ms),
        ms.len() < MAX_PREFIXED_LEN,
        T::encodable(x),
    ensures
        <Vec<T> as FfiConverter>::encodable(Seq::<T::Model>::empty()),
        <Vec<T> as FfiConverter>::wire(Seq::<T::Model>::empty()) == seq![0u8, 0u8, 0u8, 0u8],
        <Vec<T> as FfiConverter>::encodable(ms.push(x)),
        wire_all::<T>(ms.push(x)) == wire_all::<T>(ms) + T::wire(x),
{
    reveal_with_fuel(be_bytes, 5);
    assert(ms.push(x).drop_last() =~= ms);
    assert(<Vec<T> as FfiConverter>::wire(Seq::<T::Model>::empty()) =~= seq![0u8, 0u8, 0u8, 0u8]);
    assert forall|i: int| 0 <= i < ms.push(x).len() implies T::encodable(#[trigger] ms.push(x)[i]) by {
        if i < ms.len() {
            assert(ms.push(x)[i] == ms[i]);
        }
    }
}

} // verus!
