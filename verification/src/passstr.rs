//! A byte container for secret data.
//!
//! The container never stores the characters that were typed: every append
//! replaces the content with the hexadecimal SHA-512 digest of the old
//! content followed by the new character's UTF-8 bytes, so the final value is
//! a running hash chain, not the literal input. Equality is constant time,
//! textual rendering is always a fixed placeholder, and the content can be
//! overwritten with zeros in place.
use vstd::prelude::*;

verus! {

/// What hashing a byte sequence with SHA-512 and writing the 64-byte digest
/// as lowercase hexadecimal returns; named after rust-crypto's `Sha512`.
pub uninterp spec fn sha512_hex(bytes: Seq<u8>) -> Seq<u8>;

/// The UTF-8 encoding of one character.
pub open spec fn utf8_bytes_of(c: char) -> Seq<u8> {
    let v = c as int;
    if v < 0x80 {
        seq![v as u8]
    } else if v < 0x800 {
        seq![(0xC0 + v / 0x40) as u8, (0x80 + v % 0x40) as u8]
    } else if v < 0x10000 {
        seq![
            (0xE0 + v / 0x1000) as u8,
            (0x80 + (v / 0x40) % 0x40) as u8,
            (0x80 + v % 0x40) as u8,
        ]
    } else {
        seq![
            (0xF0 + v / 0x40000) as u8,
            (0x80 + (v / 0x1000) % 0x40) as u8,
            (0x80 + (v / 0x40) % 0x40) as u8,
            (0x80 + v % 0x40) as u8,
        ]
    }
}

/// The content of a buffer after one fold-on-append step: the hexadecimal
/// digest of the old content followed by the character's UTF-8 bytes.
pub open spec fn push_digest(content: Seq<u8>, c: char) -> Seq<u8> {
    sha512_hex(content + utf8_bytes_of(c))
}

/// Encode one character as its UTF-8 bytes.
pub fn encode_char(c: char) -> (r: Vec<u8>)
    ensures
        r@ == utf8_bytes_of(c),
{
    let v = c as u32;
    let mut out: Vec<u8> = Vec::new();
    if v < 0x80 {
        out.push(v as u8);
    } else if v < 0x800 {
        out.push((0xC0 + v / 0x40) as u8);
        out.push((0x80 + v % 0x40) as u8);
    } else if v < 0x10000 {
        out.push((0xE0 + v / 0x1000) as u8);
        out.push((0x80 + (v / 0x40) % 0x40) as u8);
        out.push((0x80 + v % 0x40) as u8);
    } else {
        out.push((0xF0 + v / 0x40000) as u8);
        out.push((0x80 + (v / 0x1000) % 0x40) as u8);
        out.push((0x80 + (v / 0x40) % 0x40) as u8);
        out.push((0x80 + v % 0x40) as u8);
    }
    proof {
        assert(out@ =~= utf8_bytes_of(c));
    }
    out
}

/// Relies on rust-crypto's `Sha512` with `Digest::input` and
/// `Digest::result_str`: the digest depends on the input bytes alone, and
/// `result_str` writes the 64-byte SHA-512 digest as 128 lowercase
/// hexadecimal characters.
#[verifier::external_body]
fn sha512_hex_bytes(input: &Vec<u8>) -> (r: Vec<u8>)
    ensures
        r@ == sha512_hex(input@),
        r@.len() == 128,
{
    let mut hasher = crypto::sha2::Sha512::new();
    crypto::digest::Digest::input(&mut hasher, input.as_slice());
    crypto::digest::Digest::result_str(&mut hasher).into_bytes()
}

/// A secret held as the running digest chain of the appended characters.
#[derive(Hash)]
pub struct SecStr {
    content: Vec<u8>,
}

impl View for SecStr {
    type V = Seq<u8>;

    closed spec fn view(&self) -> Seq<u8> {
        self.content@
    }
}

impl SecStr {
    /// An empty buffer.
    pub fn new() -> (r: SecStr)
        ensures
            r@ == Seq::<u8>::empty(),
    {
        SecStr { content: Vec::new() }
    }

    /// Borrow the contents of the string.
    pub fn unsecure(&self) -> (r: &[u8])
        ensures
            r@ == self@,
    {
        self.content.as_slice()
    }

    /// Mutably borrow the contents of the string.
    pub fn unsecure_mut(&mut self) -> (r: &mut [u8])
        ensures
            r@ == old(self)@,
            final(r)@ == final(self)@,
    {
        self.content.as_mut_slice()
    }

    /// Append one character, then fold: the new content is the hexadecimal
    /// SHA-512 digest of the old content followed by the character's UTF-8
    /// bytes, so the raw input is never stored contiguously.
    pub fn push(&mut self, c: char)
        ensures
            final(self)@ == push_digest(old(self)@, c),
            final(self)@.len() == 128,
    {
        let mut encoded = encode_char(c);
        self.content.append(&mut encoded);
        self.content = sha512_hex_bytes(&self.content);
    }

    /// Overwrite the content with zeros in place; idempotent, and what the
    /// owner must do before the buffer is released.
    pub fn zero_out(&mut self)
        ensures
            final(self)@.len() == old(self)@.len(),
            forall|i: int| 0 <= i < final(self)@.len() ==> final(self)@[i] == 0,
    {
        let n = self.content.len();
        let mut i: usize = 0;
        while i < n
            invariant
                n == self.content.len(),
                0 <= i <= n,
                forall|j: int| 0 <= j < i ==> self.content@[j] == 0,
            decreases n - i,
        {
            self.content[i] = 0;
            i = i + 1;
        }
    }

    /// An independent copy of the contents.
    pub fn get_vec(&self) -> (r: Vec<u8>)
        ensures
            r@ == self@,
    {
        let r = self.content.clone();
        proof {
            assert(r@ =~= self.content@);
        }
        r
    }
}

impl SecStr {
    /// Compare in constant time: walk both contents to the end whatever the
    /// bytes hold, accumulating the bytewise differences with or, and report
    /// equality only from the accumulated value. Only a length mismatch
    /// returns early, which leaks the length but no content.
    pub fn constant_time_eq(&self, other: &SecStr) -> (r: bool)
        ensures
            r == (self@ == other@),
    {
        let us = self.content.as_slice();
        let them = other.content.as_slice();
        if us.len() != them.len() {
            proof {
                assert(self@ != other@);
            }
            return false;
        }
        let n = us.len();
        let mut acc: u8 = 0;
        let mut i: usize = 0;
        while i < n
            invariant
                n == us@.len() == them@.len(),
                0 <= i <= n,
                (acc == 0) <==> (forall|j: int| 0 <= j < i ==> us@[j] == them@[j]),
            decreases n - i,
        {
            let a = us[i];
            let b = them[i];
            proof {
                lemma_or_xor_zero(acc, a, b);
            }
            acc = acc | (a ^ b);
            i = i + 1;
        }
        proof {
            if acc == 0 {
                assert(self@ =~= other@);
            }
        }
        acc == 0
    }

    /// What any textual rendering of the buffer shows: a fixed placeholder,
    /// whatever the content holds.
    pub fn redacted(&self) -> (r: String)
        ensures
            r@ == "***SECRET***"@,
    {
        String::from_str("***SECRET***")
    }
}

/// Accumulating one more bytewise difference with or keeps the accumulator
/// zero exactly when it was zero and the two bytes are equal.
proof fn lemma_or_xor_zero(acc: u8, a: u8, b: u8)
    ensures
        (acc | (a ^ b)) == 0 <==> (acc == 0 && a == b),
{
    assert((acc | (a ^ b)) == 0 <==> (acc == 0 && a == b)) by (bit_vector);
}

impl PartialEq for SecStr {
    fn eq(&self, other: &SecStr) -> (r: bool) {
        self.constant_time_eq(other)
    }
}

impl vstd::std_specs::cmp::PartialEqSpecImpl for SecStr {
    open spec fn obeys_eq_spec() -> bool {
        true
    }

    open spec fn eq_spec(&self, other: &SecStr) -> bool {
        self@ == other@
    }
}

impl From<Vec<u8>> for SecStr {
    /// Take ownership of an externally supplied byte sequence.
    fn from(bytes: Vec<u8>) -> (r: SecStr) {
        SecStr { content: bytes }
    }
}

impl vstd::std_specs::convert::FromSpecImpl<Vec<u8>> for SecStr {
    open spec fn obeys_from_spec() -> bool {
        true
    }

    closed spec fn from_spec(bytes: Vec<u8>) -> SecStr {
        SecStr { content: bytes }
    }
}

/// A buffer made from an externally supplied byte sequence holds exactly
/// those bytes.
pub proof fn law_from_bytes(bytes: Vec<u8>)
    ensures
        (<SecStr as vstd::std_specs::convert::FromSpec<Vec<u8>>>::from_spec(bytes))@ == bytes@,
{
}

/// Equality of byte contents is decided by length and bytes alone: contents
/// of different lengths are never equal, and contents of one length are
/// equal exactly when every byte pair matches.
pub proof fn law_equals(a: Seq<u8>, b: Seq<u8>)
    ensures
        a.len() != b.len() ==> a != b,
        a.len() == b.len() ==> ((a == b) <==> (forall|i: int| 0 <= i < a.len() ==> a[i] == b[i])),
{
    if a.len() == b.len() {
        if forall|i: int| 0 <= i < a.len() ==> a[i] == b[i] {
            assert(a =~= b);
        }
    }
}

/// The digest chain over a whole character sequence: fold each character in
/// turn through `push_digest`, starting from empty content.
pub open spec fn chain_digest(chars: Seq<char>) -> Seq<u8>
    decreases chars.len(),
{
    if chars.len() == 0 {
        Seq::<u8>::empty()
    } else {
        push_digest(chain_digest(chars.drop_last()), chars.last())
    }
}

/// Appending one more character to a buffer that holds the digest chain of
/// some character sequence yields the digest chain of the extended sequence:
/// the final content of a buffer is determined by the appended characters
/// alone.
pub proof fn law_fold_chain(chars: Seq<char>, c: char)
    ensures
        push_digest(chain_digest(chars), c) == chain_digest(chars.push(c)),
{
    assert(chars.push(c).drop_last() =~= chars);
    assert(chars.push(c).last() == c);
}

} // verus!
