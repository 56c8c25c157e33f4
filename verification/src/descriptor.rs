//! Field and method descriptors: parsing them from their string form and
//! printing them back.
use vstd::prelude::*;
use vstd::utf8::{
    encode_scalar, encode_utf8, has_width_1_encoding, has_width_2_encoding, has_width_3_encoding, is_ascii_chars,
    is_ascii_chars_encode_utf8, leading_byte_width_2, leading_byte_width_3, leading_byte_width_4,
};

use crate::classfile::constant_pool::{clinit_chars, init_chars};

use crate::string::{string_push, JvmString};

verus! {

/// The value of a descriptor.
pub enum SpecDescriptor {
    Class(Seq<char>),
    Array(Box<SpecDescriptor>),
    Boolean,
    Byte,
    Character,
    Double,
    Float,
    Integer,
    Long,
    Short,
    Void,
}

/// Bytes widened one for one into characters (each byte read as a code
/// point below 256).
pub open spec fn widen_to_chars(b: Seq<u8>) -> Seq<char> {
    b.map_values(|x: u8| x as char)
}

/// The index of the first `;` at or after `from`.
pub open spec fn spec_find_semicolon(b: Seq<u8>, from: int) -> Option<int>
    decreases b.len() - from,
{
    if from < 0 || from >= b.len() {
        None
    } else if b[from] == 59u8 {
        Some(from)
    } else {
        spec_find_semicolon(b, from + 1)
    }
}

/// Whether every byte is an ASCII byte (below 0x80).
pub open spec fn spec_ascii_bytes(b: Seq<u8>) -> bool {
    forall|i: int| 0 <= i < b.len() ==> #[trigger] b[i] < 128u8
}

/// Parsing one descriptor that starts at `start`: the descriptor and the
/// number of bytes it takes up. `V` is accepted only when `void_allowed`,
/// and a class name must be ASCII.
pub open spec fn spec_parse_at(b: Seq<u8>, start: int, void_allowed: bool) -> Option<(SpecDescriptor, int)>
    decreases b.len() - start,
{
    if start < 0 || start >= b.len() {
        None
    } else {
        let c = b[start];
        if c == 76u8 {
            match spec_find_semicolon(b, start + 1) {
                None => None,
                Some(k) => if spec_ascii_bytes(b.subrange(start + 1, k)) {
                    Some((SpecDescriptor::Class(widen_to_chars(b.subrange(start + 1, k))), k + 1 - start))
                } else {
                    None
                },
            }
        } else if c == 66u8 {
            Some((SpecDescriptor::Byte, 1))
        } else if c == 67u8 {
            Some((SpecDescriptor::Character, 1))
        } else if c == 68u8 {
            Some((SpecDescriptor::Double, 1))
        } else if c == 70u8 {
            Some((SpecDescriptor::Float, 1))
        } else if c == 73u8 {
            Some((SpecDescriptor::Integer, 1))
        } else if c == 74u8 {
            Some((SpecDescriptor::Long, 1))
        } else if c == 83u8 {
            Some((SpecDescriptor::Short, 1))
        } else if c == 90u8 {
            Some((SpecDescriptor::Boolean, 1))
        } else if c == 86u8 && void_allowed {
            Some((SpecDescriptor::Void, 1))
        } else if c == 91u8 {
            match spec_parse_at(b, start + 1, false) {
                None => None,
                Some((inner, n)) => Some((SpecDescriptor::Array(Box::new(inner)), n + 1)),
            }
        } else {
            None
        }
    }
}

/// The descriptor a whole string stands for, if it is one descriptor with
/// nothing after it. `V` is not accepted.
pub open spec fn spec_try_from_string(s: Seq<char>) -> Option<SpecDescriptor> {
    match spec_parse_at(encode_utf8(s), 0, false) {
        Some((d, n)) => if n == encode_utf8(s).len() {
            Some(d)
        } else {
            None
        },
        None => None,
    }
}

/// The string form of a descriptor.
pub open spec fn spec_descriptor_chars(d: SpecDescriptor) -> Seq<char>
    decreases d,
{
    match d {
        SpecDescriptor::Class(name) => seq!['L'] + name + seq![';'],
        SpecDescriptor::Array(inner) => seq!['['] + spec_descriptor_chars(*inner),
        SpecDescriptor::Byte => seq!['B'],
        SpecDescriptor::Character => seq!['C'],
        SpecDescriptor::Double => seq!['D'],
        SpecDescriptor::Float => seq!['F'],
        SpecDescriptor::Integer => seq!['I'],
        SpecDescriptor::Long => seq!['J'],
        SpecDescriptor::Short => seq!['S'],
        SpecDescriptor::Boolean => seq!['Z'],
        SpecDescriptor::Void => seq!['V'],
    }
}

/// Longs and doubles take two slots.
pub open spec fn spec_is_wide(d: SpecDescriptor) -> bool {
    d is Double || d is Long
}

/// A parsed descriptor.
#[derive(Debug)]
pub enum Descriptor {
    Class(JvmString),
    Array(Box<Descriptor>),
    Boolean,
    Byte,
    Character,
    Double,
    Float,
    Integer,
    Long,
    Short,
    Void,
}

impl View for Descriptor {
    type V = SpecDescriptor;

    open spec fn view(&self) -> SpecDescriptor
        decreases self,
    {
        match self {
            Descriptor::Class(name) => SpecDescriptor::Class(name@),
            Descriptor::Array(inner) => SpecDescriptor::Array(Box::new((**inner)@)),
            Descriptor::Boolean => SpecDescriptor::Boolean,
            Descriptor::Byte => SpecDescriptor::Byte,
            Descriptor::Character => SpecDescriptor::Character,
            Descriptor::Double => SpecDescriptor::Double,
            Descriptor::Float => SpecDescriptor::Float,
            Descriptor::Integer => SpecDescriptor::Integer,
            Descriptor::Long => SpecDescriptor::Long,
            Descriptor::Short => SpecDescriptor::Short,
            Descriptor::Void => SpecDescriptor::Void,
        }
    }
}

impl Descriptor {
    /// Parses one descriptor starting at `start`; returns it with the number
    /// of bytes it takes up.
    fn from_data_counting_at(descriptor: &[u8], start: usize, void_allowed: bool) -> (res: Option<(Descriptor, usize)>)
        ensures
            match res {
                Some((d, n)) => spec_parse_at(descriptor@, start as int, void_allowed) == Some((d@, n as int))
                    && 1 <= n <= descriptor@.len() - start,
                None => spec_parse_at(descriptor@, start as int, void_allowed) is None,
            },
        decreases descriptor@.len() - start,
    {
        if start >= descriptor.len() {
            return None;
        }
        let mut consumed_bytes: usize = 1;
        let c = descriptor[start];
        let result = if c == 76u8 /* 'L' */ {
            let mut class_name = String::new();
            let mut pos: usize = start + 1;
            loop
                invariant
                    start < descriptor@.len(),
                    descriptor@[start as int] == 76u8,
                    start + 1 <= pos <= descriptor@.len(),
                    class_name@ == widen_to_chars(descriptor@.subrange(start + 1, pos as int)),
                    spec_ascii_bytes(descriptor@.subrange(start + 1, pos as int)),
                    spec_find_semicolon(descriptor@, start + 1) == spec_find_semicolon(descriptor@, pos as int),
                ensures
                    pos < descriptor@.len(),
                    descriptor@[pos as int] == 59u8,
                    class_name@ == widen_to_chars(descriptor@.subrange(start + 1, pos as int)),
                    spec_ascii_bytes(descriptor@.subrange(start + 1, pos as int)),
                    spec_find_semicolon(descriptor@, start + 1) == Some(pos as int),
                decreases descriptor@.len() - pos,
            {
                if pos >= descriptor.len() {
                    return None;
                }
                if descriptor[pos] == 59u8 /* ';' */ {
                    break;
                }
                if descriptor[pos] >= 128u8 {
                    proof {
                        let b = descriptor@;
                        if let Some(k) = spec_find_semicolon(b, pos as int) {
                            lemma_find_semicolon(b, pos as int);
                            assert(b.subrange(start + 1, k)[pos - start - 1] == b[pos as int]);
                        }
                    }
                    return None;
                }
                let ghost before = class_name@;
                string_push(&mut class_name, descriptor[pos] as char);
                assert(descriptor@.subrange(start + 1, pos + 1) =~= descriptor@.subrange(start + 1, pos as int).push(descriptor@[pos as int]));
                assert(class_name@ =~= widen_to_chars(descriptor@.subrange(start + 1, pos + 1)));
                pos = pos + 1;
            }
            consumed_bytes = pos + 1 - start;
            Descriptor::Class(JvmString::new(class_name))
        } else if c == 66u8 /* 'B' */ {
            Descriptor::Byte
        } else if c == 67u8 /* 'C' */ {
            Descriptor::Character
        } else if c == 68u8 /* 'D' */ {
            Descriptor::Double
        } else if c == 70u8 /* 'F' */ {
            Descriptor::Float
        } else if c == 73u8 /* 'I' */ {
            Descriptor::Integer
        } else if c == 74u8 /* 'J' */ {
            Descriptor::Long
        } else if c == 83u8 /* 'S' */ {
            Descriptor::Short
        } else if c == 90u8 /* 'Z' */ {
            Descriptor::Boolean
        } else if c == 86u8 /* 'V' */ && void_allowed {
            Descriptor::Void
        } else if c == 91u8 /* '[' */ {
            let inner = Descriptor::from_data_counting_at(descriptor, start + 1, false);
            match inner {
                None => return None,
                Some((inner_desc, n)) => {
                    consumed_bytes = n + 1;
                    Descriptor::Array(Box::new(inner_desc))
                },
            }
        } else {
            return None;
        };
        Some((result, consumed_bytes))
    }

    /// Parses one descriptor at the start of `descriptor`; returns it with the
    /// number of bytes it takes up. `V` is accepted only when `void_allowed`.
    pub fn from_data_counting(descriptor: &[u8], void_allowed: bool) -> (res: Option<(Descriptor, usize)>)
        ensures
            match res {
                Some((d, n)) => spec_parse_at(descriptor@, 0, void_allowed) == Some((d@, n as int)),
                None => spec_parse_at(descriptor@, 0, void_allowed) is None,
            },
    {
        Descriptor::from_data_counting_at(descriptor, 0, void_allowed)
    }

    /// Parses the descriptor that the whole of `descriptor` spells; `None`
    /// when it is not a descriptor, has bytes after one, is `V`, or names a
    /// class whose name is not ASCII.
    pub fn try_from_string(descriptor: &JvmString) -> (res: Option<Descriptor>)
        ensures
            match res {
                Some(d) => spec_try_from_string(descriptor@) == Some(d@),
                None => spec_try_from_string(descriptor@) is None,
            },
            res matches Some(d) ==> spec_descriptor_chars(d@) == descriptor@,
    {
        proof {
            if spec_try_from_string(descriptor@) is Some {
                lemma_to_string_of_parsed(descriptor@);
            }
        }
        let bytes = descriptor.as_str().as_bytes();
        match Descriptor::from_data_counting_at(bytes, 0, false) {
            Some((d, n)) => if n == bytes.len() {
                Some(d)
            } else {
                None
            },
            None => None,
        }
    }

    /// The string form of this descriptor.
    pub fn to_string(&self) -> (res: String)
        ensures
            res@ == spec_descriptor_chars(self@),
        decreases self,
    {
        let mut result = String::new();
        match self {
            Descriptor::Class(class_name) => {
                string_push(&mut result, 'L');
                result.append(class_name.as_str());
                string_push(&mut result, ';');
            },
            Descriptor::Array(inner) => {
                string_push(&mut result, '[');
                let inner_string = inner.to_string();
                result.append(inner_string.as_str());
            },
            Descriptor::Byte => string_push(&mut result, 'B'),
            Descriptor::Character => string_push(&mut result, 'C'),
            Descriptor::Double => string_push(&mut result, 'D'),
            Descriptor::Float => string_push(&mut result, 'F'),
            Descriptor::Integer => string_push(&mut result, 'I'),
            Descriptor::Long => string_push(&mut result, 'J'),
            Descriptor::Short => string_push(&mut result, 'S'),
            Descriptor::Boolean => string_push(&mut result, 'Z'),
            Descriptor::Void => string_push(&mut result, 'V'),
        }
        assert(result@ =~= spec_descriptor_chars(self@));
        result
    }

    /// Whether this is a long or a double, which take two slots.
    pub fn is_wide(&self) -> (res: bool)
        ensures
            res == spec_is_wide(self@),
    {
        match self {
            Descriptor::Double | Descriptor::Long => true,
            _ => false,
        }
    }
}

/// What a parsed descriptor prints as is exactly the bytes it was parsed
/// from, each byte read as a character; those bytes are all ASCII.
pub proof fn lemma_parse_prints_back(b: Seq<u8>, start: int, void_allowed: bool)
    requires
        spec_parse_at(b, start, void_allowed) is Some,
    ensures
        ({
            let (d, n) = spec_parse_at(b, start, void_allowed).unwrap();
            &&& 0 <= start
            &&& 1 <= n <= b.len() - start
            &&& spec_descriptor_chars(d) == widen_to_chars(b.subrange(start, start + n))
            &&& spec_ascii_bytes(b.subrange(start, start + n))
        }),
    decreases b.len() - start,
{
    let c = b[start];
    let (d, n) = spec_parse_at(b, start, void_allowed).unwrap();
    if c == 76u8 {
        let k = spec_find_semicolon(b, start + 1).unwrap();
        lemma_find_semicolon(b, start + 1);
        assert((76u8 as char) == 'L');
        assert((59u8 as char) == ';');
        assert(widen_to_chars(b.subrange(start, k + 1)) =~= seq!['L'] + widen_to_chars(
            b.subrange(start + 1, k),
        ) + seq![';']);
        let name = b.subrange(start + 1, k);
        assert forall|i: int| 0 <= i < k + 1 - start implies #[trigger] b.subrange(start, k + 1)[i] < 128u8 by {
            if 1 <= i < k - start {
                assert(b.subrange(start, k + 1)[i] == name[i - 1]);
            }
        }
    } else if c == 91u8 {
        lemma_parse_prints_back(b, start + 1, false);
        let (inner, m) = spec_parse_at(b, start + 1, false).unwrap();
        assert((91u8 as char) == '[');
        assert(widen_to_chars(b.subrange(start, start + m + 1)) =~= seq!['['] + widen_to_chars(
            b.subrange(start + 1, start + 1 + m),
        ));
        let rest = b.subrange(start + 1, start + 1 + m);
        assert forall|i: int| 0 <= i < m + 1 implies #[trigger] b.subrange(start, start + m + 1)[i] < 128u8 by {
            if 1 <= i {
                assert(b.subrange(start, start + m + 1)[i] == rest[i - 1]);
            }
        }
    } else {
        assert((66u8 as char) == 'B');
        assert((67u8 as char) == 'C');
        assert((68u8 as char) == 'D');
        assert((70u8 as char) == 'F');
        assert((73u8 as char) == 'I');
        assert((74u8 as char) == 'J');
        assert((83u8 as char) == 'S');
        assert((90u8 as char) == 'Z');
        assert((86u8 as char) == 'V');
        assert(widen_to_chars(b.subrange(start, start + 1)) =~= seq![c as char]);
        assert(b.subrange(start, start + 1)[0] == c);
    }
}

/// A character whose number is at most 0x7f is ASCII.
proof fn lemma_ascii_char(ch: char)
    requires
        (ch as u32) <= 0x7fu32,
    ensures
        '\0' <= ch <= '\u{7f}',
{
}

/// A string whose UTF-8 encoding is all ASCII bytes is an ASCII string:
/// every other character encodes with a first byte of 0x80 or more.
pub proof fn lemma_ascii_encoding(s: Seq<char>)
    requires
        spec_ascii_bytes(encode_utf8(s)),
    ensures
        is_ascii_chars(s),
    decreases s.len(),
{
    if s.len() > 0 {
        let c = s[0] as u32;
        let e = encode_scalar(c);
        let rest = encode_utf8(s.drop_first());
        assert(encode_utf8(s) == e + rest);
        assert(encode_utf8(s)[0] == e[0]);
        if !has_width_1_encoding(c) {
            if has_width_2_encoding(c) {
                assert(leading_byte_width_2(c) >= 128u8) by (bit_vector);
            } else if has_width_3_encoding(c) {
                assert(leading_byte_width_3(c) >= 128u8) by (bit_vector);
            } else {
                assert(leading_byte_width_4(c) >= 128u8) by (bit_vector);
            }
            assert(false);
        }
        assert(e.len() == 1);
        assert forall|i: int| 0 <= i < rest.len() implies #[trigger] rest[i] < 128u8 by {
            assert(encode_utf8(s)[i + 1] == rest[i]);
        }
        lemma_ascii_encoding(s.drop_first());
        assert forall|i: int| 0 <= i < s.len() implies '\0' <= #[trigger] s[i] <= '\u{7f}' by {
            if i > 0 {
                assert(s[i] == s.drop_first()[i - 1]);
                assert('\0' <= s.drop_first()[i - 1] <= '\u{7f}');
            } else {
                lemma_ascii_char(s[0]);
            }
        }
    }
}

/// Where the search for `;` lands.
pub proof fn lemma_find_semicolon(b: Seq<u8>, from: int)
    requires
        spec_find_semicolon(b, from) is Some,
    ensures
        from <= spec_find_semicolon(b, from).unwrap() < b.len(),
        b[spec_find_semicolon(b, from).unwrap()] == 59u8,
    decreases b.len() - from,
{
    if b[from] != 59u8 {
        lemma_find_semicolon(b, from + 1);
    }
}

/// Printing a descriptor parsed from a string gives back that string: a
/// descriptor has only one string form.
pub proof fn lemma_to_string_of_parsed(s: Seq<char>)
    requires
        spec_try_from_string(s) is Some,
    ensures
        spec_descriptor_chars(spec_try_from_string(s).unwrap()) == s,
{
    let b = encode_utf8(s);
    lemma_parse_prints_back(b, 0, false);
    assert(b.subrange(0, b.len() as int) =~= b);
    lemma_ascii_encoding(s);
    is_ascii_chars_encode_utf8(s);
    assert forall|i: int| 0 <= i < s.len() implies #[trigger] widen_to_chars(b)[i] == s[i] by {
        assert(s[i] as u8 == b[i]);
        assert(s[i] as u32 <= 0x7f);
    }
    assert(widen_to_chars(b) =~= s);
}

/// A descriptor that has a string form parsing gives back: class names
/// are ASCII without `;`, and `V` stands only at the top, where allowed.
pub open spec fn spec_wf_descriptor(d: SpecDescriptor, void_allowed: bool) -> bool
    decreases d,
{
    match d {
        SpecDescriptor::Class(name) => is_ascii_chars(name) && !name.contains(';'),
        SpecDescriptor::Array(inner) => spec_wf_descriptor(*inner, false),
        SpecDescriptor::Void => void_allowed,
        _ => true,
    }
}

/// Characters narrowed one for one into bytes.
pub open spec fn narrow_to_bytes(cs: Seq<char>) -> Seq<u8> {
    cs.map_values(|c: char| c as u8)
}

/// The string form of a well-formed descriptor is ASCII.
pub proof fn lemma_descriptor_chars_ascii(d: SpecDescriptor, void_allowed: bool)
    requires
        spec_wf_descriptor(d, void_allowed),
    ensures
        is_ascii_chars(spec_descriptor_chars(d)),
    decreases d,
{
    let cs = spec_descriptor_chars(d);
    match d {
        SpecDescriptor::Class(name) => {
            assert forall|i: int| 0 <= i < cs.len() implies '\0' <= #[trigger] cs[i] <= '\u{7f}' by {
                if 1 <= i < cs.len() - 1 {
                    assert(cs[i] == name[i - 1]);
                }
            }
        },
        SpecDescriptor::Array(inner) => {
            lemma_descriptor_chars_ascii(*inner, false);
            let ic = spec_descriptor_chars(*inner);
            assert forall|i: int| 0 <= i < cs.len() implies '\0' <= #[trigger] cs[i] <= '\u{7f}' by {
                if 1 <= i {
                    assert(cs[i] == ic[i - 1]);
                }
            }
        },
        _ => {},
    }
}

/// The search for `;` skips bytes that are not `;`.
pub proof fn lemma_find_semicolon_skips(b: Seq<u8>, from: int, to: int)
    requires
        0 <= from <= to < b.len(),
        b[to] == 59u8,
        forall|j: int| from <= j < to ==> b[j] != 59u8,
    ensures
        spec_find_semicolon(b, from) == Some(to),
    decreases to - from,
{
    if from < to {
        lemma_find_semicolon_skips(b, from + 1, to);
    }
}

/// Parsing the string form of a well-formed descriptor, wherever it stands
/// and whatever follows it, gives back the descriptor and the length of its
/// string form.
pub proof fn lemma_parse_of_printed(d: SpecDescriptor, void_allowed: bool, prefix: Seq<u8>, rest: Seq<u8>)
    requires
        spec_wf_descriptor(d, void_allowed),
    ensures
        spec_parse_at(
            prefix + narrow_to_bytes(spec_descriptor_chars(d)) + rest,
            prefix.len() as int,
            void_allowed,
        ) == Some((d, spec_descriptor_chars(d).len() as int)),
    decreases d,
{
    let cs = spec_descriptor_chars(d);
    let b = prefix + narrow_to_bytes(cs) + rest;
    let s = prefix.len() as int;
    assert(b[s] == cs[0] as u8);
    match d {
        SpecDescriptor::Class(name) => {
            let k = s + 1 + name.len();
            assert(b[k] == cs[name.len() + 1int] as u8);
            assert(';' as u8 == 59u8);
            assert forall|j: int| s + 1 <= j < k implies b[j] != 59u8 by {
                assert(b[j] == name[j - s - 1] as u8);
                assert(name[j - s - 1] != ';');
                assert('\0' <= name[j - s - 1] <= '\u{7f}');
            }
            lemma_find_semicolon_skips(b, s + 1, k);
            assert forall|i: int| 0 <= i < name.len() implies #[trigger] widen_to_chars(b.subrange(s + 1, k))[i] == name[i] by {
                assert(b[s + 1 + i] == name[i] as u8);
                assert('\0' <= name[i] <= '\u{7f}');
            }
            assert(widen_to_chars(b.subrange(s + 1, k)) =~= name);
            assert forall|i: int| 0 <= i < name.len() implies #[trigger] b.subrange(s + 1, k)[i] < 128u8 by {
                assert(b[s + 1 + i] == name[i] as u8);
                assert('\0' <= name[i] <= '\u{7f}');
            }
        },
        SpecDescriptor::Array(inner) => {
            let ic = spec_descriptor_chars(*inner);
            assert(b =~= prefix.push(91u8) + narrow_to_bytes(ic) + rest);
            lemma_parse_of_printed(*inner, false, prefix.push(91u8), rest);
        },
        _ => {},
    }
}

/// Parsing the string form of a well-formed descriptor gives the
/// descriptor back: a descriptor has only one string form.
pub proof fn lemma_parse_of_to_string(d: SpecDescriptor)
    requires
        spec_wf_descriptor(d, false),
    ensures
        spec_try_from_string(spec_descriptor_chars(d)) == Some(d),
{
    let cs = spec_descriptor_chars(d);
    lemma_descriptor_chars_ascii(d, false);
    is_ascii_chars_encode_utf8(cs);
    assert(encode_utf8(cs) =~= narrow_to_bytes(cs));
    lemma_parse_of_printed(d, false, Seq::empty(), Seq::empty());
    assert(Seq::<u8>::empty() + narrow_to_bytes(cs) + Seq::<u8>::empty() =~= narrow_to_bytes(cs));
}

// ---------------------------------------------------------------------------
// Method descriptors
// ---------------------------------------------------------------------------

/// The value of a method descriptor.
pub struct SpecMethodDescriptor {
    pub args: Seq<SpecDescriptor>,
    pub physical_arg_count: nat,
    pub return_type: SpecDescriptor,
}

/// The number of slots a list of arguments takes: two for each long or
/// double, one for each other argument.
pub open spec fn spec_physical_count(args: Seq<SpecDescriptor>) -> nat
    decreases args.len(),
{
    if args.len() == 0 {
        0
    } else {
        spec_physical_count(args.drop_last()) + if spec_is_wide(args.last()) {
            2nat
        } else {
            1nat
        }
    }
}

/// Parsing the argument list of a method descriptor from `i` on, after the
/// arguments `args` already read, up to and including the return type;
/// `None` for a string that is not a method descriptor.
pub open spec fn spec_method_args(b: Seq<u8>, i: int, args: Seq<SpecDescriptor>) -> Option<
    (Seq<SpecDescriptor>, SpecDescriptor),
>
    decreases b.len() - i,
{
    if i < 0 || i >= b.len() {
        None
    } else if b[i] == 41u8 {
        match spec_parse_at(b, i + 1, true) {
            None => None,
            Some((r, n)) => if i + 1 + n != b.len() {
                None
            } else {
                Some((args, r))
            },
        }
    } else {
        match spec_parse_at(b, i, false) {
            None => None,
            Some((a, n)) => {
                proof {
                    lemma_parse_prints_back(b, i, false);
                }
                spec_method_args(b, i + n, args.push(a))
            },
        }
    }
}

/// The method descriptor a string spells: `(`, the arguments, `)`, the
/// return type (which may be `V`), and nothing after it.
pub open spec fn spec_method_descriptor(s: Seq<char>) -> Option<SpecMethodDescriptor> {
    let b = encode_utf8(s);
    if b.len() == 0 || b[0] != 40u8 {
        None
    } else {
        match spec_method_args(b, 1, Seq::empty()) {
            None => None,
            Some((args, r)) => Some(
                SpecMethodDescriptor { args, physical_arg_count: spec_physical_count(args), return_type: r },
            ),
        }
    }
}

/// The slots of a list of arguments are between one and two for each
/// argument.
pub proof fn lemma_physical_count_bounds(args: Seq<SpecDescriptor>)
    ensures
        args.len() <= spec_physical_count(args) <= 2 * args.len(),
    decreases args.len(),
{
    if args.len() > 0 {
        lemma_physical_count_bounds(args.drop_last());
    }
}

/// The string forms of `args`, one after the other.
pub open spec fn spec_args_chars(args: Seq<SpecDescriptor>) -> Seq<char>
    decreases args.len(),
{
    if args.len() == 0 {
        Seq::empty()
    } else {
        spec_args_chars(args.drop_last()) + spec_descriptor_chars(args.last())
    }
}

/// The string form of a method descriptor.
pub open spec fn spec_method_descriptor_chars(m: SpecMethodDescriptor) -> Seq<char> {
    seq!['('] + spec_args_chars(m.args) + seq![')'] + spec_descriptor_chars(m.return_type)
}

/// A method descriptor whose string form parses back: arguments well formed
/// and not `V`, a well-formed return type (`V` allowed), and the slot count
/// of its arguments.
pub open spec fn spec_wf_method_descriptor(m: SpecMethodDescriptor) -> bool {
    &&& forall|i: int| 0 <= i < m.args.len() ==> spec_wf_descriptor(#[trigger] m.args[i], false)
    &&& spec_wf_descriptor(m.return_type, true)
    &&& m.physical_arg_count == spec_physical_count(m.args)
}

/// A descriptor's string form followed by another's.
proof fn lemma_args_chars_push(args: Seq<SpecDescriptor>, d: SpecDescriptor)
    ensures
        spec_args_chars(args.push(d)) == spec_args_chars(args) + spec_descriptor_chars(d),
{
    assert(args.push(d).drop_last() =~= args);
}

/// The string form of the first arguments is a prefix of that of all.
proof fn lemma_args_chars_prefix(args: Seq<SpecDescriptor>, j: int)
    requires
        0 <= j <= args.len(),
    ensures
        spec_args_chars(args.take(j)).len() <= spec_args_chars(args).len(),
        spec_args_chars(args).take(spec_args_chars(args.take(j)).len() as int) == spec_args_chars(args.take(j)),
    decreases args.len(),
{
    if j == args.len() {
        assert(args.take(j) =~= args);
    } else {
        let front = args.drop_last();
        lemma_args_chars_prefix(front, j);
        assert(front.take(j) =~= args.take(j));
        assert(spec_args_chars(args) == spec_args_chars(front) + spec_descriptor_chars(args.last()));
        assert(spec_args_chars(args).take(spec_args_chars(front).len() as int) =~= spec_args_chars(front));
        assert(spec_args_chars(args).take(spec_args_chars(args.take(j)).len() as int) =~= spec_args_chars(
            front,
        ).take(spec_args_chars(args.take(j)).len() as int));
    }
}

/// The string form of well-formed arguments is ASCII.
proof fn lemma_args_chars_ascii(args: Seq<SpecDescriptor>)
    requires
        forall|i: int| 0 <= i < args.len() ==> spec_wf_descriptor(#[trigger] args[i], false),
    ensures
        is_ascii_chars(spec_args_chars(args)),
    decreases args.len(),
{
    if args.len() > 0 {
        let front = args.drop_last();
        assert forall|i: int| 0 <= i < front.len() implies spec_wf_descriptor(#[trigger] front[i], false) by {
            assert(front[i] == args[i]);
        }
        lemma_args_chars_ascii(front);
        assert(spec_wf_descriptor(args[args.len() - 1], false));
        lemma_descriptor_chars_ascii(args.last(), false);
        let a = spec_args_chars(front);
        let c = spec_descriptor_chars(args.last());
        assert forall|i: int| 0 <= i < (a + c).len() implies '\0' <= #[trigger] (a + c)[i] <= '\u{7f}' by {
            if i < a.len() {
                assert((a + c)[i] == a[i]);
            } else {
                assert((a + c)[i] == c[i - a.len()]);
            }
        }
    }
}

/// Reading the arguments of a printed method descriptor: after the first
/// `k` arguments, the parse stands just past their string forms.
proof fn lemma_method_args_of_printed(m: SpecMethodDescriptor, k: int)
    requires
        spec_wf_method_descriptor(m),
        0 <= k <= m.args.len(),
    ensures
        ({
            let b = narrow_to_bytes(spec_method_descriptor_chars(m));
            spec_method_args(b, 1, Seq::empty()) == spec_method_args(
                b,
                1 + spec_args_chars(m.args.take(k)).len() as int,
                m.args.take(k),
            )
        }),
    decreases k,
{
    let cs = spec_method_descriptor_chars(m);
    let b = narrow_to_bytes(cs);
    let a = spec_args_chars(m.args);
    if k == 0 {
        assert(m.args.take(0) =~= Seq::<SpecDescriptor>::empty());
    } else {
        lemma_method_args_of_printed(m, k - 1);
        let front = m.args.take(k - 1);
        let d = m.args[k - 1];
        let p: int = 1 + spec_args_chars(front).len() as int;
        let dc = spec_descriptor_chars(d);
        assert(front.push(d) =~= m.args.take(k));
        lemma_args_chars_push(front, d);
        lemma_args_chars_prefix(m.args, k);
        let q: int = p + dc.len() as int;
        assert(spec_args_chars(m.args.take(k)) == spec_args_chars(front) + dc);
        assert forall|i: int| 0 <= i < dc.len() implies #[trigger] cs[p + i] == dc[i] by {
            assert(cs[p + i] == a[p + i - 1]);
            assert(a[p + i - 1] == a.take(q - 1)[p + i - 1]);
            assert((spec_args_chars(front) + dc)[p + i - 1] == dc[i]);
        }
        assert(q <= 1 + a.len());
        let whole = b.take(p) + narrow_to_bytes(dc) + b.skip(q);
        assert forall|i: int| 0 <= i < b.len() implies #[trigger] whole[i] == b[i] by {
            if p <= i < q {
                assert(cs[p + (i - p)] == dc[i - p]);
            }
        }
        assert(b =~= whole);
        assert(spec_wf_descriptor(m.args[k - 1], false));
        lemma_parse_of_printed(d, false, b.take(p), b.skip(q));
        assert(dc[0] != ')');
        assert(b[p] == cs[p] as u8);
        assert(dc.len() > 0);
        assert(cs[p] == a[p - 1]);
        assert(a[p - 1] == a.take(q - 1)[p - 1]);
        assert((spec_args_chars(front) + dc)[p - 1] == dc[0]);
        assert(cs[p] == dc[0]);
        assert(b[p] != 41u8);
    }
}

/// Printing a well-formed method descriptor and parsing the string gives
/// the method descriptor back.
pub proof fn lemma_method_descriptor_round_trip(m: SpecMethodDescriptor)
    requires
        spec_wf_method_descriptor(m),
    ensures
        spec_method_descriptor(spec_method_descriptor_chars(m)) == Some(m),
{
    let cs = spec_method_descriptor_chars(m);
    let a = spec_args_chars(m.args);
    let rc = spec_descriptor_chars(m.return_type);
    lemma_args_chars_ascii(m.args);
    lemma_descriptor_chars_ascii(m.return_type, true);
    assert forall|i: int| 0 <= i < cs.len() implies '\0' <= #[trigger] cs[i] <= '\u{7f}' by {
        if 1 <= i < 1 + a.len() {
            assert(cs[i] == a[i - 1]);
        } else if i >= 2 + a.len() {
            assert(cs[i] == rc[i - 2 - a.len()]);
        }
    }
    is_ascii_chars_encode_utf8(cs);
    let b = narrow_to_bytes(cs);
    assert(encode_utf8(cs) =~= b);
    let n = m.args.len() as int;
    lemma_method_args_of_printed(m, n);
    assert(m.args.take(n) =~= m.args);
    let p: int = 1 + a.len() as int;
    assert(b[0] == 40u8);
    assert(b[p] == cs[p] as u8);
    assert(b[p] == 41u8);
    assert(b =~= b.take(p + 1) + narrow_to_bytes(rc) + Seq::<u8>::empty());
    lemma_parse_of_printed(m.return_type, true, b.take(p + 1), Seq::empty());
}

/// The values of a list of descriptors.
pub open spec fn descriptors_view(ds: Seq<Descriptor>) -> Seq<SpecDescriptor> {
    ds.map_values(|d: Descriptor| d@)
}

/// A parsed method descriptor.
#[derive(Debug)]
pub struct MethodDescriptor {
    args: Vec<Descriptor>,
    physical_arg_count: usize,
    return_type: Descriptor,
}

impl View for MethodDescriptor {
    type V = SpecMethodDescriptor;

    closed spec fn view(&self) -> SpecMethodDescriptor {
        SpecMethodDescriptor {
            args: descriptors_view(self.args@),
            physical_arg_count: self.physical_arg_count as nat,
            return_type: self.return_type@,
        }
    }
}

impl Descriptor {
    /// Whether this descriptor equals `other`.
    pub fn same_as(&self, other: &Descriptor) -> (res: bool)
        ensures
            res == (self@ == other@),
        decreases self,
    {
        match (self, other) {
            (Descriptor::Class(a), Descriptor::Class(b)) => a.eq_str(b.as_str()),
            (Descriptor::Array(a), Descriptor::Array(b)) => {
                let r = a.same_as(b);
                assert(r ==> self@ == other@);
                assert(self@ == other@ ==> (**a)@ == (**b)@);
                r
            },
            (Descriptor::Boolean, Descriptor::Boolean) | (Descriptor::Byte, Descriptor::Byte)
            | (Descriptor::Character, Descriptor::Character) | (Descriptor::Double, Descriptor::Double)
            | (Descriptor::Float, Descriptor::Float) | (Descriptor::Integer, Descriptor::Integer)
            | (Descriptor::Long, Descriptor::Long) | (Descriptor::Short, Descriptor::Short)
            | (Descriptor::Void, Descriptor::Void) => true,
            _ => false,
        }
    }

    /// A second descriptor equal to this one.
    pub fn duplicate(&self) -> (res: Descriptor)
        ensures
            res@ == self@,
        decreases self,
    {
        match self {
            Descriptor::Class(name) => Descriptor::Class(name.duplicate()),
            Descriptor::Array(inner) => Descriptor::Array(Box::new(inner.duplicate())),
            Descriptor::Boolean => Descriptor::Boolean,
            Descriptor::Byte => Descriptor::Byte,
            Descriptor::Character => Descriptor::Character,
            Descriptor::Double => Descriptor::Double,
            Descriptor::Float => Descriptor::Float,
            Descriptor::Integer => Descriptor::Integer,
            Descriptor::Long => Descriptor::Long,
            Descriptor::Short => Descriptor::Short,
            Descriptor::Void => Descriptor::Void,
        }
    }
}

impl Clone for Descriptor {
    fn clone(&self) -> (res: Self)
        ensures
            res@ == self@,
    {
        self.duplicate()
    }
}

impl Clone for MethodDescriptor {
    fn clone(&self) -> (res: Self)
        ensures
            res@ == self@,
    {
        self.duplicate()
    }
}

impl MethodDescriptor {
    /// Parses the method descriptor that the whole of `descriptor` spells;
    /// `None` when it is not one.
    pub fn new_from_string(descriptor: &JvmString) -> (res: Option<MethodDescriptor>)
        requires
            encode_utf8(descriptor@).len() * 2 <= usize::MAX,
        ensures
            match res {
                Some(m) => spec_method_descriptor(descriptor@) == Some(m@),
                None => spec_method_descriptor(descriptor@) is None,
            },
    {
        let desc_bytes = descriptor.as_str().as_bytes();
        let ghost b = desc_bytes@;
        if desc_bytes.len() == 0 || desc_bytes[0] != 40u8 /* '(' */ {
            return None;
        }
        let mut args: Vec<Descriptor> = Vec::new();
        let mut physical_arg_count: usize = 0;
        let mut i: usize = 1;
        assert(descriptors_view(args@) =~= Seq::<SpecDescriptor>::empty());
        loop
            invariant
                b == desc_bytes@,
                b == encode_utf8(descriptor@),
                b.len() * 2 <= usize::MAX,
                b.len() > 0 && b[0] == 40u8,
                1 <= i <= b.len(),
                physical_arg_count == spec_physical_count(descriptors_view(args@)),
                physical_arg_count <= 2 * i,
                spec_method_args(b, 1, Seq::empty()) == spec_method_args(b, i as int, descriptors_view(args@)),
            decreases b.len() - i,
        {
            if i >= desc_bytes.len() {
                return None;
            }
            if desc_bytes[i] == 41u8 /* ')' */ {
                let ghost close = i as int;
                assert(spec_method_args(b, close, descriptors_view(args@)) == match spec_parse_at(b, close + 1, true) {
                    None => None,
                    Some((r, n)) => if close + 1 + n != b.len() {
                        None
                    } else {
                        Some((descriptors_view(args@), r))
                    },
                });
                i = i + 1;
                let (return_desc, n) = match Descriptor::from_data_counting_at(desc_bytes, i, true) {
                    Some(r) => r,
                    None => return None,
                };
                if i + n != desc_bytes.len() {
                    return None;
                }
                let m = MethodDescriptor { args, physical_arg_count, return_type: return_desc };
                assert(spec_method_args(b, 1, Seq::empty()) == Some((m@.args, m@.return_type)));
                return Some(m);
            } else {
                let (arg_desc, n) = match Descriptor::from_data_counting_at(desc_bytes, i, false) {
                    Some(r) => r,
                    None => return None,
                };
                let wide = arg_desc.is_wide();
                let ghost before = descriptors_view(args@);
                let ghost av = arg_desc@;
                args.push(arg_desc);
                assert(descriptors_view(args@) =~= before.push(av));
                assert(descriptors_view(args@).drop_last() =~= before);
                if wide {
                    physical_arg_count = physical_arg_count + 2;
                } else {
                    physical_arg_count = physical_arg_count + 1;
                }
                i = i + n;
            }
        }
    }

    /// Whether this method descriptor equals `other`.
    pub fn same_as(&self, other: &MethodDescriptor) -> (res: bool)
        ensures
            res == (self@ == other@),
    {
        if self.physical_arg_count != other.physical_arg_count || !self.return_type.same_as(&other.return_type) {
            return false;
        }
        if self.args.len() != other.args.len() {
            assert(descriptors_view(self.args@).len() != descriptors_view(other.args@).len());
            return false;
        }
        let mut i: usize = 0;
        while i < self.args.len()
            invariant
                self.args@.len() == other.args@.len(),
                i <= self.args@.len(),
                forall|j: int| 0 <= j < i ==> self.args@[j]@ == other.args@[j]@,
            decreases self.args@.len() - i,
        {
            if !self.args[i].same_as(&other.args[i]) {
                assert(descriptors_view(self.args@)[i as int] != descriptors_view(other.args@)[i as int]);
                return false;
            }
            i = i + 1;
        }
        assert(descriptors_view(self.args@) =~= descriptors_view(other.args@));
        true
    }

    /// A second method descriptor equal to this one.
    pub fn duplicate(&self) -> (res: MethodDescriptor)
        ensures
            res@ == self@,
    {
        let mut args: Vec<Descriptor> = Vec::new();
        let mut i: usize = 0;
        while i < self.args.len()
            invariant
                i <= self.args@.len(),
                descriptors_view(args@) =~= descriptors_view(self.args@).take(i as int),
            decreases self.args@.len() - i,
        {
            let ghost before = descriptors_view(args@);
            args.push(self.args[i].duplicate());
            assert(descriptors_view(args@) =~= before.push(self.args@[i as int]@));
            assert(descriptors_view(self.args@).take(i + 1) =~= descriptors_view(self.args@).take(i as int).push(self.args@[i as int]@));
            i = i + 1;
        }
        assert(descriptors_view(self.args@).take(i as int) =~= descriptors_view(self.args@));
        MethodDescriptor {
            args,
            physical_arg_count: self.physical_arg_count,
            return_type: self.return_type.duplicate(),
        }
    }

    /// The string form: the argument descriptors in parentheses, then the
    /// return type's.
    pub fn to_string(&self) -> (res: String)
        ensures
            res@ == spec_method_descriptor_chars(self@),
    {
        let mut result = String::new();
        string_push(&mut result, '(');
        let mut i: usize = 0;
        while i < self.args.len()
            invariant
                0 <= i <= self.args@.len(),
                result@ == seq!['('] + spec_args_chars(descriptors_view(self.args@).take(i as int)),
            decreases self.args@.len() - i,
        {
            let s = self.args[i].to_string();
            result.append(s.as_str());
            assert(descriptors_view(self.args@).take(i + 1).drop_last() =~= descriptors_view(self.args@).take(
                i as int,
            ));
            i = i + 1;
        }
        assert(descriptors_view(self.args@).take(self.args@.len() as int) =~= descriptors_view(self.args@));
        string_push(&mut result, ')');
        let r = self.return_type.to_string();
        result.append(r.as_str());
        assert(result@ =~= spec_method_descriptor_chars(self@));
        result
    }

    /// The argument descriptors.
    pub fn args(&self) -> (res: &[Descriptor])
        ensures
            descriptors_view(res@) == self@.args,
    {
        self.args.as_slice()
    }

    /// The number of slots the arguments take: two for each long or double.
    pub fn physical_arg_count(&self) -> (res: usize)
        ensures
            res == self@.physical_arg_count,
    {
        self.physical_arg_count
    }

    /// The return type.
    pub fn return_type(&self) -> (res: Descriptor)
        ensures
            res@ == self@.return_type,
    {
        self.return_type.duplicate()
    }
}

// ---------------------------------------------------------------------------
// Primitive types and names every class loader needs
// ---------------------------------------------------------------------------

/// The primitive types of the virtual machine, `void` included.
#[derive(Debug, Clone, Copy, PartialEq, Eq, Hash, Structural)]
pub enum PrimitiveType {
    Boolean,
    Byte,
    Char,
    Short,
    Int,
    Long,
    Float,
    Double,
    Void,
}

impl PrimitiveType {
    /// The Java name of the type.
    pub fn name(self) -> (res: &'static str)
        ensures
            res@ == match self {
                PrimitiveType::Boolean => "boolean"@,
                PrimitiveType::Byte => "byte"@,
                PrimitiveType::Char => "char"@,
                PrimitiveType::Short => "short"@,
                PrimitiveType::Int => "int"@,
                PrimitiveType::Long => "long"@,
                PrimitiveType::Float => "float"@,
                PrimitiveType::Double => "double"@,
                PrimitiveType::Void => "void"@,
            },
    {
        match self {
            PrimitiveType::Boolean => "boolean",
            PrimitiveType::Byte => "byte",
            PrimitiveType::Char => "char",
            PrimitiveType::Short => "short",
            PrimitiveType::Int => "int",
            PrimitiveType::Long => "long",
            PrimitiveType::Float => "float",
            PrimitiveType::Double => "double",
            PrimitiveType::Void => "void",
        }
    }

    /// Every primitive type, each once, in declaration order.
    pub fn get_all() -> (res: Vec<PrimitiveType>)
        ensures
            res@ == seq![
                PrimitiveType::Boolean,
                PrimitiveType::Byte,
                PrimitiveType::Char,
                PrimitiveType::Short,
                PrimitiveType::Int,
                PrimitiveType::Long,
                PrimitiveType::Float,
                PrimitiveType::Double,
                PrimitiveType::Void,
            ],
    {
        vec![
            PrimitiveType::Boolean,
            PrimitiveType::Byte,
            PrimitiveType::Char,
            PrimitiveType::Short,
            PrimitiveType::Int,
            PrimitiveType::Long,
            PrimitiveType::Float,
            PrimitiveType::Double,
            PrimitiveType::Void,
        ]
    }
}

/// Names and descriptors that class loading looks up again and again.
#[derive(Debug)]
pub struct CommonData {
    pub init_name: JvmString,
    pub clinit_name: JvmString,
    pub noargs_void_desc: MethodDescriptor,
    pub arg_char_array_void_desc: MethodDescriptor,
}

impl CommonData {
    /// `<init>`, `<clinit>`, and the method descriptors `()V` and `([C)V`.
    pub fn new() -> (res: Self)
        ensures
            res.init_name@ == init_chars(),
            res.clinit_name@ == clinit_chars(),
            res.noargs_void_desc@ == (SpecMethodDescriptor {
                args: Seq::empty(),
                physical_arg_count: 0,
                return_type: SpecDescriptor::Void,
            }),
            res.arg_char_array_void_desc@ == (SpecMethodDescriptor {
                args: seq![SpecDescriptor::Array(Box::new(SpecDescriptor::Character))],
                physical_arg_count: 1,
                return_type: SpecDescriptor::Void,
            }),
    {
        let void_descriptor_name = JvmString::from_str("()V");
        let arg_char_array_void_descriptor_name = JvmString::from_str("([C)V");
        proof {
            reveal_strlit("()V");
            reveal_strlit("([C)V");
            reveal_strlit("<init>");
            reveal_strlit("<clinit>");
            let a = void_descriptor_name@;
            let c = arg_char_array_void_descriptor_name@;
            is_ascii_chars_encode_utf8(a);
            is_ascii_chars_encode_utf8(c);
            let ab = encode_utf8(a);
            let cb = encode_utf8(c);
            assert(ab =~= seq![40u8, 41u8, 86u8]);
            assert(cb =~= seq![40u8, 91u8, 67u8, 41u8, 86u8]);
            assert(spec_parse_at(ab, 2, true) == Some((SpecDescriptor::Void, 1int)));
            assert(spec_parse_at(cb, 2, false) == Some((SpecDescriptor::Character, 1int)));
            assert(spec_parse_at(cb, 1, false) == Some((SpecDescriptor::Array(Box::new(SpecDescriptor::Character)), 2int)));
            assert(spec_parse_at(cb, 4, true) == Some((SpecDescriptor::Void, 1int)));
            assert(spec_method_args(cb, 3, seq![SpecDescriptor::Array(Box::new(SpecDescriptor::Character))])
                == Some((seq![SpecDescriptor::Array(Box::new(SpecDescriptor::Character))], SpecDescriptor::Void)));
            let one = seq![SpecDescriptor::Array(Box::new(SpecDescriptor::Character))];
            assert(one.drop_last() =~= Seq::<SpecDescriptor>::empty());
            assert(spec_physical_count(one.drop_last()) == 0);
            assert(!spec_is_wide(one.last()));
            assert(spec_physical_count(one) == 1);
        }
        let noargs_void_desc = match MethodDescriptor::new_from_string(&void_descriptor_name) {
            Some(d) => d,
            None => vstd::pervasive::unreached(),
        };
        let arg_char_array_void_desc = match MethodDescriptor::new_from_string(&arg_char_array_void_descriptor_name) {
            Some(d) => d,
            None => vstd::pervasive::unreached(),
        };
        let init_name = JvmString::from_str("<init>");
        let clinit_name = JvmString::from_str("<clinit>");
        proof {
            assert(init_name@ =~= init_chars());
            assert(clinit_name@ =~= clinit_chars());
        }
        CommonData { init_name, clinit_name, noargs_void_desc, arg_char_array_void_desc }
    }
}

} // verus!
