//! Primitive marshaling: foreign strings and byte buffers as they stand at
//! the boundary, and the codecs between them and owned native values.
//!
//! Inbound decoding never transfers ownership and treats a null pointer as
//! "field not supplied"; outbound encoding allocates a fresh foreign-owned
//! value whose ownership passes to the caller in full.

use vstd::prelude::*;

verus! {

use vstd::utf8::{valid_utf8, decode_utf8, encode_utf8};
use vstd::utf8::{encode_utf8_valid_utf8, encode_utf8_decode_utf8};
use vstd::string::StrSliceExecFns;

/// A C string as it stands at the boundary: either the null pointer, or the
/// owned bytes that precede the terminator.
pub enum CText {
    Null,
    Bytes(Vec<u8>),
}

impl View for CText {
    type V = Option<Seq<u8>>;

    open spec fn view(&self) -> Option<Seq<u8>> {
        match self {
            CText::Null => None,
            CText::Bytes(v) => Some(v@),
        }
    }
}

impl DeepView for CText {
    type V = Option<Seq<u8>>;

    open spec fn deep_view(&self) -> Option<Seq<u8>> {
        self.view()
    }
}

impl CText {
    /// A C string's bytes never contain the terminator itself.
    pub open spec fn wf(&self) -> bool {
        match self@ {
            None => true,
            Some(b) => !b.contains(0u8),
        }
    }
}

/// A foreign byte buffer: either the null pointer, or the owned bytes of the
/// allocation together with their extent.
pub enum CBuf {
    Null,
    Buf(Vec<u8>),
}

impl View for CBuf {
    type V = Option<Seq<u8>>;

    open spec fn view(&self) -> Option<Seq<u8>> {
        match self {
            CBuf::Null => None,
            CBuf::Buf(v) => Some(v@),
        }
    }
}

impl DeepView for CBuf {
    type V = Option<Seq<u8>>;

    open spec fn deep_view(&self) -> Option<Seq<u8>> {
        self.view()
    }
}

/// A foreign array of C strings: either the null pointer, or its elements.
pub enum CArray {
    Null,
    Items(Vec<CText>),
}

impl View for CArray {
    type V = Option<Seq<Option<Seq<u8>>>>;

    open spec fn view(&self) -> Option<Seq<Option<Seq<u8>>>> {
        match self {
            CArray::Null => None,
            CArray::Items(v) => Some(v.deep_view()),
        }
    }
}

/// Text that can cross the boundary as a C string: its encoding holds no
/// interior nul and its extent stays within pointer-arithmetic limits.
pub open spec fn representable(s: Seq<char>) -> bool {
    &&& encode_utf8(s).len() <= isize::MAX as usize
    &&& !encode_utf8(s).contains(0u8)
}

/// The foreign string a native text encodes to: its UTF-8 bytes, or the null
/// pointer when the text cannot be represented.
pub open spec fn encoded_text(s: Seq<char>) -> Option<Seq<u8>> {
    if representable(s) {
        Some(encode_utf8(s))
    } else {
        None
    }
}

/// The native text a foreign string decodes to: absent when null, its
/// characters when the bytes are valid UTF-8 of a permissible extent, and
/// nothing otherwise.
pub open spec fn decoded_text(t: Option<Seq<u8>>) -> Option<Seq<char>> {
    match t {
        None => None,
        Some(b) => if b.len() <= isize::MAX as usize && valid_utf8(b) {
            Some(decode_utf8(b))
        } else {
            None
        },
    }
}

/// The native bytes a foreign buffer decodes to: absent when null, rejected
/// without a copy when the extent exceeds the maximum signed size.
pub open spec fn decoded_bytes(t: Option<Seq<u8>>) -> Option<Seq<u8>> {
    match t {
        None => None,
        Some(b) => if b.len() <= isize::MAX as usize {
            Some(b)
        } else {
            None
        },
    }
}

/// A representable text decodes back to itself: the decoder accepts exactly
/// what the encoder emits.
pub proof fn lemma_encoded_text_decodes(s: Seq<char>)
    ensures
        representable(s) ==> decoded_text(encoded_text(s)) == Some(s),
{
    if representable(s) {
        encode_utf8_valid_utf8(s);
        encode_utf8_decode_utf8(s);
    }
}

/// Relies on `String::from_utf8`: it returns `Ok` exactly when the bytes are
/// valid UTF-8, and the string it returns is their decoding.
#[verifier::external_body]
fn string_from_utf8(bytes: Vec<u8>) -> (r: Option<String>)
    ensures
        r is Some <==> valid_utf8(bytes@),
        r matches Some(s) ==> s@ == decode_utf8(bytes@),
{
    String::from_utf8(bytes).ok()
}

/// Copies a byte buffer into a fresh owned vector.
fn clone_bytes(v: &Vec<u8>) -> (r: Vec<u8>)
    ensures
        r@ == v@,
{
    let mut r: Vec<u8> = Vec::new();
    let mut i: usize = 0;
    while i < v.len()
        invariant
            i <= v@.len(),
            r@ == v@.subrange(0, i as int),
        decreases v@.len() - i,
    {
        r.push(v[i]);
        proof {
            assert(r@ =~= v@.subrange(0, i + 1 as int));
        }
        i += 1;
    }
    proof {
        assert(r@ =~= v@);
    }
    r
}

/// Decodes a foreign string into owned native text: `None` when the pointer
/// is null, when the extent exceeds the maximum signed size, or when the
/// bytes are not valid UTF-8.
pub fn cstr_to_rust(cstr: &CText) -> (r: Option<String>)
    ensures
        match r {
            Some(s) => decoded_text(cstr@) == Some(s@),
            None => decoded_text(cstr@) is None,
        },
{
    match cstr {
        CText::Null => None,
        CText::Bytes(v) => {
            if v.len() > isize::MAX as usize {
                None
            } else {
                string_from_utf8(clone_bytes(v))
            }
        },
    }
}

/// Encodes owned native text as a freshly allocated foreign string, whose
/// ownership transfers to the caller: null when the text cannot be
/// represented (an interior nul, or an extent beyond the maximum signed
/// size), otherwise exactly its UTF-8 bytes.
pub fn rust_to_cstr(rstr: String) -> (r: CText)
    ensures
        r@ == encoded_text(rstr@),
        r.wf(),
{
    let bytes = rstr.as_str().as_bytes_vec();
    if bytes.len() > isize::MAX as usize {
        return CText::Null;
    }
    let mut i: usize = 0;
    while i < bytes.len()
        invariant
            i <= bytes@.len(),
            bytes@ == encode_utf8(rstr@),
            bytes@.len() <= isize::MAX as usize,
            forall|j: int| 0 <= j < i ==> bytes@[j] != 0u8,
        decreases bytes@.len() - i,
    {
        if bytes[i] == 0 {
            proof {
                assert(encode_utf8(rstr@).contains(0u8)) by {
                    assert(encode_utf8(rstr@)[i as int] == 0u8);
                }
            }
            return CText::Null;
        }
        i += 1;
    }
    proof {
        assert(!bytes@.contains(0u8)) by {
            assert(forall|j: int| 0 <= j < bytes@.len() ==> bytes@[j] != 0u8);
        }
    }
    CText::Bytes(bytes)
}

/// Decodes a foreign buffer into owned native bytes: `None` when the pointer
/// is null; an extent beyond the maximum signed size is rejected before any
/// copy occurs.
pub fn cbytes_to_rust(data: &CBuf) -> (r: Option<Vec<u8>>)
    ensures
        match r {
            Some(v) => decoded_bytes(data@) == Some(v@),
            None => decoded_bytes(data@) is None,
        },
{
    match data {
        CBuf::Null => None,
        CBuf::Buf(v) => {
            if v.len() > isize::MAX as usize {
                None
            } else {
                Some(clone_bytes(v))
            }
        },
    }
}

/// Encodes owned native bytes as a freshly allocated foreign buffer plus its
/// extent; ownership transfers to the caller.
pub fn rust_to_cbytes(data: Vec<u8>) -> (r: (CBuf, usize))
    ensures
        r.0@ == Some(data@),
        r.1 == data@.len(),
{
    let len = data.len();
    (CBuf::Buf(data), len)
}

/// Reclaims a native value whose ownership has come back across the
/// boundary.
pub fn free<T>(x: T) {
    let _ = x;
}

/// Releases a marshaled string the caller hands back; the string must not be
/// used again afterwards.
pub fn ngenrs_free_cstr(s: CText) {
    free(s);
}

/// Releases a marshaled buffer the caller hands back, together with the
/// extent that was handed out beside it.
pub fn ngenrs_free_bytes(buf: CBuf, len: usize)
    requires
        buf@ matches Some(b) ==> len == b.len(),
{
    free(buf);
}

} // verus!
