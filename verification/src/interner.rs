//! Interning strings: the interner keeps one `JvmString` for each distinct
//! string it was given, found again by the string's UTF-8 bytes.
use vstd::prelude::*;
use vstd::utf8::{decode_utf8, encode_utf8, valid_utf8};

use crate::index_table::{name_table_contents, name_table_get, name_table_insert, name_table_new, NameTable};
use crate::string::{string_from_utf8, JvmString};

verus! {

broadcast use vstd::utf8::encode_utf8_decode_utf8, vstd::utf8::encode_utf8_valid_utf8;

/// The strings an interner holds, each once, with their index by bytes.
pub struct JvmStringInterner {
    strings: Vec<JvmString>,
    index: NameTable,
}

/// The values of a list of strings.
pub open spec fn strings_of(strings: Seq<JvmString>) -> Seq<Seq<char>> {
    strings.map_values(|s: JvmString| s@)
}

impl View for JvmStringInterner {
    type V = Set<Seq<char>>;

    /// The strings interned so far.
    closed spec fn view(&self) -> Set<Seq<char>> {
        strings_of(self.strings@).to_set()
    }
}

impl JvmStringInterner {
    /// Every string is indexed by its bytes, and the index holds nothing
    /// else.
    #[verifier::type_invariant]
    closed spec fn indexed(self) -> bool {
        let ss = strings_of(self.strings@);
        let m = name_table_contents(self.index);
        &&& forall|i: int| 0 <= i < ss.len() ==> #[trigger] m.contains_key(encode_utf8(ss[i])) && m[encode_utf8(ss[i])] == i
        &&& forall|b: Seq<u8>| #[trigger] m.contains_key(b) ==> m[b] < ss.len() && encode_utf8(ss[m[b] as int]) == b
    }

    /// An interner holding no strings.
    pub fn new() -> (res: Self)
        ensures
            res@ == Set::<Seq<char>>::empty(),
    {
        let res = JvmStringInterner { strings: Vec::new(), index: name_table_new() };
        assert(strings_of(res.strings@) =~= Seq::<Seq<char>>::empty());
        assert(res@ =~= Set::<Seq<char>>::empty());
        res
    }

    /// The number of strings interned.
    pub fn len(&self) -> (res: usize)
        ensures
            res == self@.len(),
    {
        proof {
            use_type_invariant(self);
            let ss = strings_of(self.strings@);
            let m = name_table_contents(self.index);
            assert forall|i: int, j: int| 0 <= i < ss.len() && 0 <= j < ss.len() && i != j implies ss[i] != ss[j] by {
                assert(m.contains_key(encode_utf8(ss[i])));
                assert(m.contains_key(encode_utf8(ss[j])));
            }
            ss.unique_seq_to_set();
        }
        self.strings.len()
    }

    /// The interned string equal to `string`, which is interned first if it
    /// was not.
    pub fn get_or_alloc(&mut self, string: String) -> (res: JvmString)
        ensures
            res@ == string@,
            final(self)@ == old(self)@.insert(string@),
    {
        let bytes = string.as_str().as_bytes();
        let ghost key = encode_utf8(string@);
        match self.find(bytes) {
            Some(s) => {
                proof {
                    assert(decode_utf8(encode_utf8(s@)) == decode_utf8(encode_utf8(string@)));
                    assert(s@ == string@);
                    assert(old(self)@.insert(string@) =~= old(self)@);
                }
                s
            },
            None => {
                let s = JvmString::new(string);
                self.add(s.duplicate());
                s
            },
        }
    }

    /// The interned string whose UTF-8 encoding is `bytes`, interned first
    /// if it was not; `Err` where `bytes` are not UTF-8.
    pub fn get_or_alloc_bytes(&mut self, bytes: &[u8]) -> (res: Result<JvmString, ()>)
        ensures
            match res {
                Ok(s) => valid_utf8(bytes@) && s@ == decode_utf8(bytes@) && final(self)@ == old(self)@.insert(s@),
                Err(_) => !valid_utf8(bytes@) && final(self)@ == old(self)@,
            },
    {
        match self.find(bytes) {
            Some(s) => {
                proof {
                    assert(decode_utf8(encode_utf8(s@)) == s@);
                    assert(valid_utf8(encode_utf8(s@)));
                    assert(old(self)@.insert(s@) =~= old(self)@);
                }
                Ok(s)
            },
            None => {
                let string = match string_from_utf8(vstd::slice::slice_to_vec(bytes)) {
                    Some(string) => string,
                    None => return Err(()),
                };
                proof {
                    vstd::utf8::decode_utf8_encode_utf8(bytes@);
                }
                let s = JvmString::new(string);
                self.add(s.duplicate());
                Ok(s)
            },
        }
    }

    /// The interned string whose UTF-8 encoding is `bytes`, if there is one.
    fn find(&self, bytes: &[u8]) -> (res: Option<JvmString>)
        ensures
            match res {
                Some(s) => encode_utf8(s@) == bytes@ && self@.contains(s@),
                None => forall|t: Seq<char>| #[trigger] self@.contains(t) ==> encode_utf8(t) != bytes@,
            },
    {
        proof {
            use_type_invariant(self);
        }
        let ghost ss = strings_of(self.strings@);
        match name_table_get(&self.index, bytes) {
            Some(i) => {
                assert(ss[i as int] == self.strings@[i as int]@);
                assert(ss.contains(ss[i as int]));
                Some(self.strings[i].duplicate())
            },
            None => {
                assert forall|t: Seq<char>| #[trigger] self@.contains(t) implies encode_utf8(t) != bytes@ by {
                    let i = choose|i: int| 0 <= i < ss.len() && ss[i] == t;
                    assert(name_table_contents(self.index).contains_key(encode_utf8(ss[i])));
                }
                None
            },
        }
    }

    /// Adds `s`, which the interner does not hold.
    fn add(&mut self, s: JvmString)
        requires
            forall|t: Seq<char>| #[trigger] old(self)@.contains(t) ==> encode_utf8(t) != encode_utf8(s@),
        ensures
            final(self)@ == old(self)@.insert(s@),
    {
        proof {
            use_type_invariant(&*self);
        }
        let mut taken = JvmStringInterner::new();
        std::mem::swap(self, &mut taken);
        let JvmStringInterner { mut strings, mut index } = taken;
        let ghost ss = strings_of(strings@);
        let ghost m = name_table_contents(index);
        let ghost n = strings@.len();
        let bytes = vstd::slice::slice_to_vec(s.as_str().as_bytes());
        let ghost key = bytes@;
        assert(key == encode_utf8(s@));
        assert(ss == strings_of(old(self).strings@));
        assert(!m.contains_key(key)) by {
            if m.contains_key(key) {
                let t = ss[m[key] as int];
                assert(ss.contains(t));
                assert(old(self)@.contains(t));
            }
        }
        name_table_insert(&mut index, bytes, strings.len());
        strings.push(s);
        let ghost ss2 = strings_of(strings@);
        assert(ss2 =~= ss.push(s@));
        let ghost m2 = name_table_contents(index);
        assert forall|i: int| 0 <= i < ss2.len() implies #[trigger] m2.contains_key(encode_utf8(ss2[i])) && m2[encode_utf8(
            ss2[i],
        )] == i by {
            if i < n {
                assert(ss2[i] == ss[i]);
                assert(ss.contains(ss[i]));
                assert(encode_utf8(ss[i]) != key);
            }
        }
        assert forall|b: Seq<u8>| #[trigger] m2.contains_key(b) implies m2[b] < ss2.len() && encode_utf8(ss2[m2[b] as int]) == b by {
            if b != key {
                assert(m.contains_key(b));
            }
        }
        *self = JvmStringInterner { strings, index };
        assert(strings_of(self.strings@) == ss.push(s@));
        proof {
            ss.lemma_push_to_set_commute(s@);
        }
    }
}

} // verus!
