//! UTF-8 strings as the virtual machine stores them, with their hash.
use vstd::prelude::*;
use vstd::std_specs::cmp::PartialEqSpecImpl;
use vstd::utf8::{decode_utf8, encode_utf8, valid_utf8};

verus! {

/// One step of the string hash: `hash * 11 + character`, wrapping at 64 bits.
pub open spec fn hash_step(hash: u64, character: u32) -> u64 {
    hash.wrapping_mul(11).wrapping_add(character as u64)
}

/// The hash of `chars`, started from `seed` and folded from the left.
pub open spec fn hash_fold(seed: u64, chars: Seq<u32>) -> u64
    decreases chars.len(),
{
    if chars.len() == 0 {
        seed
    } else {
        hash_step(hash_fold(seed, chars.drop_last()), chars.last())
    }
}

/// The bytes of a string, each widened to a `u32`.
pub open spec fn widen_bytes(bytes: Seq<u8>) -> Seq<u32> {
    bytes.map_values(|b: u8| b as u32)
}

/// The hash of a byte sequence: seeded with its length.
pub open spec fn hash_of_bytes(bytes: Seq<u8>) -> u64 {
    hash_fold(bytes.len() as u64, widen_bytes(bytes))
}

/// The hash of a string: the hash of its UTF-8 bytes.
pub open spec fn hash_of_chars(chars: Seq<char>) -> u64 {
    hash_of_bytes(encode_utf8(chars))
}

/// Hashes `chars`, seeding the hash with `length`: each character `c` turns
/// the hash `h` into `h * 11 + c` (modulo 2^64).
pub fn hash_chars(length: usize, chars: &[u32]) -> (res: u64)
    ensures
        res == hash_fold(length as u64, chars@),
{
    let mut hash: u64 = length as u64;
    let mut i: usize = 0;
    while i < chars.len()
        invariant
            0 <= i <= chars@.len(),
            hash == hash_fold(length as u64, chars@.take(i as int)),
        decreases chars@.len() - i,
    {
        assert(chars@.take(i + 1).drop_last() =~= chars@.take(i as int));
        hash = hash.wrapping_mul(11).wrapping_add(chars[i] as u64);
        i = i + 1;
    }
    assert(chars@.take(i as int) =~= chars@);
    hash
}

/// Hashes the UTF-8 bytes of `string`, seeded with its length in bytes.
pub fn hash_string(string: &str) -> (res: u64)
    ensures
        res == hash_of_chars(string@),
{
    let bytes = string.as_bytes();
    let ghost widened = widen_bytes(bytes@);
    let mut hash: u64 = bytes.len() as u64;
    let mut i: usize = 0;
    while i < bytes.len()
        invariant
            0 <= i <= bytes@.len(),
            bytes@ == encode_utf8(string@),
            widened == widen_bytes(bytes@),
            hash == hash_fold(bytes@.len() as u64, widened.take(i as int)),
        decreases bytes@.len() - i,
    {
        assert(widened.take(i + 1).drop_last() =~= widened.take(i as int));
        hash = hash.wrapping_mul(11).wrapping_add(bytes[i] as u64);
        i = i + 1;
    }
    assert(widened.take(i as int) =~= widened);
    hash
}

/// Converts bytes to a `String` when they are valid UTF-8.
///
/// Trusted: calls `String::from_utf8`, which std documents as returning the
/// string whose bytes are `bytes` when they are valid UTF-8, and an error
/// otherwise.
#[verifier::external_body]
pub(crate) fn string_from_utf8(bytes: Vec<u8>) -> (res: Option<String>)
    ensures
        res is Some <==> valid_utf8(bytes@),
        res matches Some(s) ==> s@ == decode_utf8(bytes@),
{
    String::from_utf8(bytes).ok()
}

/// Appends one character to a `String`.
///
/// Trusted: calls `String::push`, which std documents as appending the
/// character to the end of the string.
#[verifier::external_body]
pub(crate) fn string_push(string: &mut String, c: char)
    ensures
        final(string)@ == old(string)@.push(c),
{
    string.push(c);
}

/// A UTF-8 string together with its precomputed hash.
#[derive(Debug, Hash)]
pub struct JvmString {
    hash: u64,
    contents: String,
}

impl View for JvmString {
    type V = Seq<char>;

    closed spec fn view(&self) -> Seq<char> {
        self.contents@
    }
}

impl JvmString {
    #[verifier::type_invariant]
    closed spec fn hash_matches(self) -> bool {
        self.hash == hash_of_chars(self.contents@)
    }

    /// Wraps `string`, computing its hash.
    pub fn new(string: String) -> (res: Self)
        ensures
            res@ == string@,
    {
        let hash = hash_string(string.as_str());
        JvmString { hash, contents: string }
    }

    /// Wraps a copy of `string`.
    pub fn from_str(string: &str) -> (res: Self)
        ensures
            res@ == string@,
    {
        Self::new(String::from_str(string))
    }

    /// The wrapped string.
    pub fn to_string(&self) -> (res: &String)
        ensures
            res@ == self@,
    {
        &self.contents
    }

    /// The wrapped string as a slice.
    pub fn as_str(&self) -> (res: &str)
        ensures
            res@ == self@,
    {
        self.contents.as_str()
    }

    /// The stored hash, which is that of the string's UTF-8 bytes.
    pub fn hash_value(&self) -> (res: u64)
        ensures
            res == hash_of_chars(self@),
    {
        proof {
            use_type_invariant(self);
        }
        self.hash
    }

    /// The number of UTF-8 bytes in the string.
    pub fn len(&self) -> (res: usize)
        ensures
            res == encode_utf8(self@).len(),
    {
        self.contents.as_str().as_bytes().len()
    }

    /// A second string equal to this one.
    pub fn duplicate(&self) -> (res: Self)
        ensures
            res@ == self@,
    {
        proof {
            use_type_invariant(self);
        }
        JvmString { hash: self.hash, contents: self.contents.clone() }
    }

    /// Whether the string equals the literal-like `other`.
    pub fn eq_str(&self, other: &str) -> (res: bool)
        ensures
            res == (self@ == other@),
    {
        let mine = self.contents.as_str();
        str_eq(mine, other)
    }
}

/// Whether two string slices hold the same characters.
pub(crate) fn str_eq(a: &str, b: &str) -> (res: bool)
    ensures
        res == (a@ == b@),
{
    let n = a.unicode_len();
    if n != b.unicode_len() {
        return false;
    }
    let mut i: usize = 0;
    while i < n
        invariant
            n == a@.len(),
            n == b@.len(),
            i <= n,
            a@.take(i as int) == b@.take(i as int),
        decreases n - i,
    {
        if a.get_char(i) != b.get_char(i) {
            assert(a@[i as int] != b@[i as int]);
            return false;
        }
        assert(a@.take(i + 1) =~= a@.take(i as int).push(a@[i as int]));
        assert(b@.take(i + 1) =~= b@.take(i as int).push(b@[i as int]));
        i = i + 1;
    }
    assert(a@.take(n as int) =~= a@);
    assert(b@.take(n as int) =~= b@);
    true
}

impl PartialEq for JvmString {
    fn eq(&self, other: &Self) -> (res: bool) {
        self.contents == other.contents
    }
}

impl PartialEqSpecImpl for JvmString {
    open spec fn obeys_eq_spec() -> bool {
        true
    }

    open spec fn eq_spec(&self, other: &Self) -> bool {
        self@ == other@
    }
}

impl Eq for JvmString {

}

impl Clone for JvmString {
    fn clone(&self) -> (res: Self)
        ensures
            res@ == self@,
    {
        self.duplicate()
    }
}

} // verus!
