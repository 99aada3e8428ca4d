use vstd::prelude::*;
use zeroize::Zeroize;
use vstd::string::*;
use vstd::utf8::*;
use crate::text::{decimal, push_decimal, string_into_bytes, utf8_text};

verus! {

/// Owns a secret value. Its bytes are wiped from memory when it is dropped.
pub struct SecretValue(Vec<u8>);

impl View for SecretValue {
    type V = Seq<u8>;

    open spec fn view(&self) -> Seq<u8> {
        self.bytes()
    }
}

impl SecretValue {
    /// The bytes held.
    pub closed spec fn bytes(&self) -> Seq<u8> {
        self.0@
    }

    pub fn new(bytes: Vec<u8>) -> (s: Self)
        ensures
            s@ == bytes@,
    {
        SecretValue(bytes)
    }

    /// A secret holding the UTF-8 encoding of `s`.
    pub fn from_string(s: String) -> (r: Self)
        ensures
            r@ == encode_utf8(s@),
    {
        SecretValue(string_into_bytes(s))
    }

    pub fn expose(&self) -> (b: &[u8])
        ensures
            b@ == self@,
    {
        self.0.as_slice()
    }

    pub fn len(&self) -> (n: usize)
        ensures
            n == self@.len(),
    {
        self.0.len()
    }

    pub fn is_empty(&self) -> (b: bool)
        ensures
            b == (self@.len() == 0),
    {
        self.0.len() == 0
    }

    /// A second secret holding the same bytes.
    pub fn duplicate(&self) -> (r: Self)
        ensures
            r@ == self@,
    {
        let mut v: Vec<u8> = Vec::new();
        let mut i: usize = 0;
        while i < self.0.len()
            invariant
                i <= self.0.len(),
                v@ == self.0@.take(i as int),
            decreases self.0.len() - i,
        {
            v.push(self.0[i]);
            assert(self.0@.take(i + 1) =~= self.0@.take(i as int).push(self.0@[i as int]));
            i = i + 1;
        }
        assert(self.0@.take(self.0.len() as int) =~= self.0@);
        SecretValue(v)
    }

    /// The secret as text, when its bytes are valid UTF-8.
    pub fn to_utf8(&self) -> (t: Option<String>)
        ensures
            t is Some <==> valid_utf8(self@),
            t matches Some(s) ==> s@ == decode_utf8(self@),
    {
        utf8_text(self.0.as_slice())
    }

    /// The text a secret of `len` bytes is shown as: its length, never its bytes.
    pub open spec fn redacted_text(len: nat) -> Seq<char> {
        "<redacted: "@ + decimal(len) + " bytes>"@
    }

    /// How the secret is displayed: `<redacted: N bytes>`.
    pub fn redacted(&self) -> (r: String)
        ensures
            r@ == Self::redacted_text(self@.len()),
    {
        let mut r = String::new();
        r.append("<redacted: ");
        push_decimal(&mut r, self.0.len() as u64);
        r.append(" bytes>");
        r
    }
}


/// A secret made from a string gives back that string: its bytes are valid UTF-8
/// and decode to the string's characters.
pub proof fn lemma_from_string_round_trips(s: Seq<char>)
    ensures
        valid_utf8(encode_utf8(s)),
        decode_utf8(encode_utf8(s)) == s,
{
    encode_utf8_valid_utf8(s);
    encode_utf8_decode_utf8(s);
}

/// The displayed text of two secrets of the same length is the same, whatever
/// their bytes: the display reveals the length and nothing else.
pub proof fn lemma_redacted_depends_only_on_length(a: SecretValue, b: SecretValue)
    requires
        a@.len() == b@.len(),
    ensures
        SecretValue::redacted_text(a@.len()) == SecretValue::redacted_text(b@.len()),
{
}

/// Overwrites every byte of `bytes` with zero (`zeroize::Zeroize::zeroize` on a `Vec<u8>`,
/// which also clears the vector).
#[verifier::external_body]
fn zeroize_bytes(bytes: &mut Vec<u8>)
    ensures
        final(bytes)@.len() == 0,
    opens_invariants none
    no_unwind
{
    bytes.zeroize();
}

impl Drop for SecretValue {
    fn drop(&mut self)
        opens_invariants none
        no_unwind
    {
        zeroize_bytes(&mut self.0);
    }
}

} // verus!
