//! The class hierarchy the runtime links classes into: each class by its
//! index in a table, with its superclass, its interfaces and, for an array
//! class, its element type; and the subclass, interface and cast checks on
//! it.
use vstd::prelude::*;

use crate::descriptor::PrimitiveType;
use crate::string::{string_push, JvmString};
use crate::verify::{index_set_contains, index_set_contents, index_set_insert, index_set_new, IndexSet};

verus! {

/// The access flag of a public class.
pub const ACC_PUBLIC: u16 = 0x0001;

/// The access flag of a final class.
pub const ACC_FINAL: u16 = 0x0010;

/// The access flag of an interface.
pub const ACC_INTERFACE: u16 = 0x0200;

/// The access flag of an abstract class.
pub const ACC_ABSTRACT: u16 = 0x0400;

/// The element type of an array class: a class (or array class) of the
/// table, or a primitive type.
#[derive(Clone, Copy, Debug, PartialEq, Eq, Structural)]
pub enum ElementType {
    Reference(usize),
    Primitive(PrimitiveType),
}

/// Why a class cannot be linked.
#[derive(Clone, Copy, Debug, PartialEq, Eq, Structural)]
pub enum LinkError {
    /// The superclass is final.
    FinalSuperclass,
    /// A class named as an interface is not one.
    NotAnInterface,
}

/// A class of the table.
pub struct ClassRecord {
    name: JvmString,
    flags: u16,
    super_class: Option<usize>,
    own_interfaces: Vec<usize>,
    all_interfaces: Vec<usize>,
    array_value: Option<ElementType>,
    primitive: Option<PrimitiveType>,
    loader: Option<usize>,
}

/// The value of a class.
pub struct SpecClass {
    pub name: Seq<char>,
    pub flags: u16,
    pub super_class: Option<usize>,
    pub own_interfaces: Seq<usize>,
    pub all_interfaces: Seq<usize>,
    pub array_value: Option<ElementType>,
    pub primitive: Option<PrimitiveType>,
    pub loader: Option<usize>,
}

impl View for ClassRecord {
    type V = SpecClass;

    closed spec fn view(&self) -> SpecClass {
        SpecClass {
            name: self.name@,
            flags: self.flags,
            super_class: self.super_class,
            own_interfaces: self.own_interfaces@,
            all_interfaces: self.all_interfaces@,
            array_value: self.array_value,
            primitive: self.primitive,
            loader: self.loader,
        }
    }
}

/// The classes of a runtime, by index.
pub struct ClassTable {
    classes: Vec<ClassRecord>,
}

/// The values of a list of classes.
pub open spec fn classes_view(cs: Seq<ClassRecord>) -> Seq<SpecClass> {
    cs.map_values(|c: ClassRecord| c@)
}

impl View for ClassTable {
    type V = Seq<SpecClass>;

    closed spec fn view(&self) -> Seq<SpecClass> {
        classes_view(self.classes@)
    }
}

/// A class name with `.` in place of each `/`.
pub open spec fn dotted(name: Seq<char>) -> Seq<char> {
    name.map_values(|ch: char| if ch == '/' { '.' } else { ch })
}

/// The class loader of the classes of arrays of `e`: that of the element
/// class, the bootstrap loader (`None`) for a primitive element.
pub open spec fn element_loader(t: Seq<SpecClass>, e: ElementType) -> Option<usize> {
    match e {
        ElementType::Reference(x) => t[x as int].loader,
        ElementType::Primitive(_) => None,
    }
}

/// The first class from `from` on that is the array class of `e`.
pub open spec fn first_array_class(t: Seq<SpecClass>, e: ElementType, from: int) -> Option<usize>
    decreases t.len() - from,
{
    if from < 0 || from >= t.len() {
        None
    } else if t[from].array_value == Some(e) {
        Some(from as usize)
    } else {
        first_array_class(t, e, from + 1)
    }
}

/// The array class of `e` the table holds (the first, should there be
/// more), if it holds one.
pub open spec fn array_class_of(t: Seq<SpecClass>, e: ElementType) -> Option<usize> {
    first_array_class(t, e, 0)
}

/// The first class from `from` on named `name`.
pub open spec fn first_named(t: Seq<SpecClass>, name: Seq<char>, from: int) -> Option<usize>
    decreases t.len() - from,
{
    if from < 0 || from >= t.len() {
        None
    } else if t[from].name == name {
        Some(from as usize)
    } else {
        first_named(t, name, from + 1)
    }
}

/// The class named `name` (the first, should there be more), if the table
/// holds one.
pub open spec fn class_named(t: Seq<SpecClass>, name: Seq<char>) -> Option<usize> {
    first_named(t, name, 0)
}

/// A class found by `first_array_class` is in the table and is that array
/// class.
pub proof fn lemma_first_array_class(t: Seq<SpecClass>, e: ElementType, from: int)
    requires
        t.len() <= usize::MAX,
    ensures
        first_array_class(t, e, from) matches Some(c) ==> c < t.len() && t[c as int].array_value == Some(e),
    decreases t.len() - from,
{
    if 0 <= from < t.len() && t[from].array_value != Some(e) {
        lemma_first_array_class(t, e, from + 1);
    }
}

/// A class found by `first_named` is in the table and has that name.
pub proof fn lemma_first_named(t: Seq<SpecClass>, name: Seq<char>, from: int)
    requires
        t.len() <= usize::MAX,
    ensures
        first_named(t, name, from) matches Some(c) ==> c < t.len() && t[c as int].name == name,
    decreases t.len() - from,
{
    if 0 <= from < t.len() && t[from].name != name {
        lemma_first_named(t, name, from + 1);
    }
}

/// Every class a class refers to comes before it in the table, and no
/// interface is listed twice among all its interfaces.
pub open spec fn class_wf(t: Seq<SpecClass>, c: int) -> bool {
    &&& (t[c].super_class matches Some(s) ==> s < c)
    &&& forall|j: int| 0 <= j < t[c].own_interfaces.len() ==> #[trigger] t[c].own_interfaces[j] < c
    &&& forall|j: int| 0 <= j < t[c].all_interfaces.len() ==> #[trigger] t[c].all_interfaces[j] < c
    &&& t[c].all_interfaces.no_duplicates()
    &&& (t[c].array_value matches Some(ElementType::Reference(e)) ==> e < c)
}

/// Every class of the table is well formed.
pub open spec fn table_wf(t: Seq<SpecClass>) -> bool {
    forall|c: int| 0 <= c < t.len() ==> #[trigger] class_wf(t, c)
}

/// Class `d` is a proper superclass of class `c`.
pub open spec fn has_ancestor(t: Seq<SpecClass>, c: int, d: int) -> bool
    decreases c,
{
    if 0 <= c < t.len() {
        match t[c].super_class {
            Some(s) => s == d || (s < c && has_ancestor(t, s as int, d)),
            None => false,
        }
    } else {
        false
    }
}

/// The interfaces a class with own interfaces `own` and superclass `sup`
/// implements: its own, those they extend, and those of its superclass.
pub open spec fn interfaces_of(t: Seq<SpecClass>, own: Seq<usize>, sup: Option<usize>) -> Set<usize> {
    own.to_set().union(Set::new(|x: usize| exists|j: int| 0 <= j < own.len() && #[trigger] t[own[j] as int].all_interfaces.contains(x))).union(
        match sup {
            Some(s) => t[s as int].all_interfaces.to_set(),
            None => Set::empty(),
        },
    )
}

/// Whether a value of class `c` can be cast to class `d`: for two array
/// classes of classes, whether the element classes can; for two array
/// classes otherwise, whether the element types are the same; else whether
/// `d` is `c`, a superclass of it or an interface it implements.
pub open spec fn spec_check_cast(t: Seq<SpecClass>, c: int, d: int) -> bool
    decreases c,
{
    if !(0 <= c < t.len() && 0 <= d < t.len()) {
        false
    } else {
        match (t[c].array_value, t[d].array_value) {
            (Some(ec), Some(ed)) => match (ec, ed) {
                (ElementType::Reference(a), ElementType::Reference(b)) => a < c && spec_check_cast(t, a as int, b as int),
                _ => ec == ed,
            },
            _ => c == d || has_ancestor(t, c, d) || t[c].all_interfaces.contains(d as usize),
        }
    }
}

/// The descriptor letter of a primitive type.
pub open spec fn primitive_letter(p: PrimitiveType) -> char {
    match p {
        PrimitiveType::Boolean => 'Z',
        PrimitiveType::Byte => 'B',
        PrimitiveType::Char => 'C',
        PrimitiveType::Short => 'S',
        PrimitiveType::Int => 'I',
        PrimitiveType::Long => 'J',
        PrimitiveType::Float => 'F',
        PrimitiveType::Double => 'D',
        PrimitiveType::Void => 'V',
    }
}

/// The descriptor of an element type: the letter of a primitive, the name
/// of an array class, `L` name `;` for another class.
pub open spec fn element_descriptor(t: Seq<SpecClass>, e: ElementType) -> Seq<char> {
    match e {
        ElementType::Primitive(p) => seq![primitive_letter(p)],
        ElementType::Reference(x) => if t[x as int].array_value is Some {
            t[x as int].name
        } else {
            seq!['L'] + t[x as int].name + seq![';']
        },
    }
}

/// The flags of the array class of `e`: public if the element class is
/// public or the element is primitive, and final and abstract.
pub open spec fn array_flags(t: Seq<SpecClass>, e: ElementType) -> u16 {
    (match e {
        ElementType::Reference(x) => t[x as int].flags & ACC_PUBLIC,
        ElementType::Primitive(_) => ACC_PUBLIC,
    }) | ACC_FINAL | ACC_ABSTRACT
}

/// The interfaces among the first `n` of `own` imply through their own
/// lists.
pub open spec fn inherited_part(t: Seq<SpecClass>, own: Seq<usize>, n: int) -> Set<usize> {
    Set::new(|x: usize| exists|j: int| 0 <= j < n && #[trigger] t[own[j] as int].all_interfaces.contains(x))
}

/// Why linking a class with superclass `sup` and interfaces `own` fails:
/// the superclass is final, or one of the interfaces is not an interface.
pub open spec fn link_error(t: Seq<SpecClass>, sup: Option<usize>, own: Seq<usize>) -> Option<LinkError> {
    if sup matches Some(s) && t[s as int].flags & ACC_FINAL != 0 {
        Some(LinkError::FinalSuperclass)
    } else if exists|j: int| 0 <= j < own.len() && #[trigger] t[own[j] as int].flags & ACC_INTERFACE == 0 {
        Some(LinkError::NotAnInterface)
    } else {
        None
    }
}

/// Adds `x` to `v` unless it is there; `seen` holds the values of `v`.
fn add_unique(v: &mut Vec<usize>, seen: &mut IndexSet, x: usize, bound: usize)
    requires
        old(v)@.no_duplicates(),
        index_set_contents(*old(seen)) == old(v)@.to_set(),
        x < bound,
        forall|j: int| 0 <= j < old(v)@.len() ==> #[trigger] old(v)@[j] < bound,
    ensures
        final(v)@.no_duplicates(),
        final(v)@.to_set() == old(v)@.to_set().insert(x),
        index_set_contents(*final(seen)) == final(v)@.to_set(),
        forall|j: int| 0 <= j < final(v)@.len() ==> #[trigger] final(v)@[j] < bound,
{
    if index_set_contains(seen, x) {
        assert(v@.to_set().insert(x) =~= v@.to_set());
        return;
    }
    assert(!v@.contains(x)) by {
        if v@.contains(x) {
            assert(v@.to_set().contains(x));
        }
    }
    index_set_insert(seen, x);
    let ghost before = v@;
    v.push(x);
    assert(v@.to_set() =~= before.to_set().insert(x)) by {
        assert forall|y: usize| v@.to_set().contains(y) <==> before.to_set().insert(x).contains(y) by {
            if v@.to_set().contains(y) {
                let j = choose|j: int| 0 <= j < v@.len() && v@[j] == y;
                if j < before.len() {
                    assert(before[j] == y);
                }
            }
            if before.to_set().contains(y) {
                let j = choose|j: int| 0 <= j < before.len() && before[j] == y;
                assert(v@[j] == y);
            }
            if y == x {
                assert(v@[before.len() as int] == x);
            }
        }
    }
    assert forall|a: int, b: int| 0 <= a < b < v@.len() implies v@[a] != v@[b] by {
        if b == before.len() {
            assert(before[a] != x) by {
                assert(before.contains(before[a]));
            }
        }
    }
}

impl ClassTable {
    /// An empty table.
    pub fn new() -> (res: Self)
        ensures
            res@ == Seq::<SpecClass>::empty(),
            table_wf(res@),
    {
        let res = ClassTable { classes: Vec::new() };
        assert(res@ =~= Seq::<SpecClass>::empty());
        res
    }

    /// The number of classes.
    pub fn len(&self) -> (res: usize)
        ensures
            res == self@.len(),
    {
        self.classes.len()
    }

    /// The name of class `c`.
    pub fn name(&self, c: usize) -> (res: JvmString)
        requires
            c < self@.len(),
        ensures
            res@ == self@[c as int].name,
    {
        self.classes[c].name.duplicate()
    }

    /// The name of class `c` with `.` in place of each `/`, as Java code
    /// writes it.
    pub fn dot_name(&self, c: usize) -> (res: String)
        requires
            c < self@.len(),
        ensures
            res@ == dotted(self@[c as int].name),
    {
        let name = self.classes[c].name.as_str();
        let n = name.unicode_len();
        let mut out = String::new();
        let mut i: usize = 0;
        while i < n
            invariant
                n == name@.len(),
                name@ == self@[c as int].name,
                i <= n,
                out@ == dotted(name@.take(i as int)),
            decreases n - i,
        {
            let ch = name.get_char(i);
            string_push(&mut out, if ch == '/' { '.' } else { ch });
            assert(dotted(name@.take(i + 1)) =~= dotted(name@.take(i as int)).push(if ch == '/' { '.' } else { ch }));
            i = i + 1;
        }
        assert(name@.take(n as int) =~= name@);
        out
    }

    /// The access flags of class `c`.
    pub fn modifiers(&self, c: usize) -> (res: u16)
        requires
            c < self@.len(),
        ensures
            res == self@[c as int].flags,
    {
        self.classes[c].flags
    }

    /// The superclass of class `c`.
    pub fn super_class(&self, c: usize) -> (res: Option<usize>)
        requires
            c < self@.len(),
        ensures
            res == self@[c as int].super_class,
    {
        self.classes[c].super_class
    }

    /// The element type of class `c`, if it is an array class.
    pub fn array_value_type(&self, c: usize) -> (res: Option<ElementType>)
        requires
            c < self@.len(),
        ensures
            res == self@[c as int].array_value,
    {
        self.classes[c].array_value
    }

    /// The array class of `e`, if the table holds one (see
    /// `array_class_of`).
    pub fn find_array_class(&self, e: ElementType) -> (res: Option<usize>)
        ensures
            res == array_class_of(self@, e),
    {
        let mut i: usize = 0;
        while i < self.classes.len()
            invariant
                i <= self@.len(),
                self.classes@.len() == self@.len(),
                array_class_of(self@, e) == first_array_class(self@, e, i as int),
            decreases self@.len() - i,
        {
            assert(self.classes@[i as int]@ == self@[i as int]);
            if self.classes[i].array_value == Some(e) {
                return Some(i);
            }
            i = i + 1;
        }
        None
    }

    /// The class named `name`, if the table holds one (see `class_named`).
    pub fn find_class(&self, name: &JvmString) -> (res: Option<usize>)
        ensures
            res == class_named(self@, name@),
    {
        let mut i: usize = 0;
        while i < self.classes.len()
            invariant
                i <= self@.len(),
                self.classes@.len() == self@.len(),
                class_named(self@, name@) == first_named(self@, name@, i as int),
            decreases self@.len() - i,
        {
            assert(self.classes@[i as int]@ == self@[i as int]);
            if self.classes[i].name.eq_str(name.as_str()) {
                return Some(i);
            }
            i = i + 1;
        }
        None
    }

    /// The class loader of class `c`; `None` for the bootstrap loader.
    pub fn loader(&self, c: usize) -> (res: Option<usize>)
        requires
            c < self@.len(),
        ensures
            res == self@[c as int].loader,
    {
        self.classes[c].loader
    }

    /// The primitive type class `c` stands for, if it is a primitive class.
    pub fn primitive_type(&self, c: usize) -> (res: Option<PrimitiveType>)
        requires
            c < self@.len(),
        ensures
            res == self@[c as int].primitive,
    {
        self.classes[c].primitive
    }

    /// Whether class `c` is abstract.
    pub fn is_abstract(&self, c: usize) -> (res: bool)
        requires
            c < self@.len(),
        ensures
            res == (self@[c as int].flags & ACC_ABSTRACT != 0),
    {
        self.classes[c].flags & ACC_ABSTRACT != 0
    }

    /// Whether class `c` is final.
    pub fn is_final(&self, c: usize) -> (res: bool)
        requires
            c < self@.len(),
        ensures
            res == (self@[c as int].flags & ACC_FINAL != 0),
    {
        self.classes[c].flags & ACC_FINAL != 0
    }

    /// Whether class `c` is an interface.
    pub fn is_interface(&self, c: usize) -> (res: bool)
        requires
            c < self@.len(),
        ensures
            res == (self@[c as int].flags & ACC_INTERFACE != 0),
    {
        self.classes[c].flags & ACC_INTERFACE != 0
    }

    /// Whether class `c` cannot be instantiated: an interface or an abstract
    /// class.
    pub fn cant_instantiate(&self, c: usize) -> (res: bool)
        requires
            c < self@.len(),
        ensures
            res == (self@[c as int].flags & ACC_INTERFACE != 0 || self@[c as int].flags & ACC_ABSTRACT != 0),
    {
        self.is_interface(c) || self.is_abstract(c)
    }

    /// Whether class `d` is a proper superclass of class `c`.
    pub fn has_super_class(&self, c: usize, d: usize) -> (res: bool)
        requires
            table_wf(self@),
            c < self@.len(),
        ensures
            res == has_ancestor(self@, c as int, d as int),
    {
        let ghost t = self@;
        assert(class_wf(t, c as int));
        let mut cur = self.classes[c].super_class;
        assert(cur == t[c as int].super_class);
        while cur.is_some()
            invariant
                t == self@,
                table_wf(t),
                cur matches Some(s) ==> s < t.len(),
                has_ancestor(t, c as int, d as int) == (match cur {
                    Some(s) => s == d || has_ancestor(t, s as int, d as int),
                    None => false,
                }),
            decreases (match cur {
                Some(s) => s as int + 1,
                None => 0,
            }),
        {
            let s = cur.unwrap();
            if s == d {
                return true;
            }
            assert(class_wf(t, s as int));
            cur = self.classes[s].super_class;
            assert(cur == t[s as int].super_class);
        }
        false
    }

    /// Whether class `c` is class `d` or a subclass of it.
    pub fn matches_class(&self, c: usize, d: usize) -> (res: bool)
        requires
            table_wf(self@),
            c < self@.len(),
        ensures
            res == (c == d || has_ancestor(self@, c as int, d as int)),
    {
        c == d || self.has_super_class(c, d)
    }

    /// Whether class `c` implements interface `x`.
    pub fn implements_interface(&self, c: usize, x: usize) -> (res: bool)
        requires
            c < self@.len(),
        ensures
            res == self@[c as int].all_interfaces.contains(x),
    {
        let ghost all = self@[c as int].all_interfaces;
        let interfaces = &self.classes[c].all_interfaces;
        assert(interfaces@ == all);
        let mut i: usize = 0;
        while i < interfaces.len()
            invariant
                interfaces@ == all,
                all == self@[c as int].all_interfaces,
                i <= all.len(),
                forall|j: int| 0 <= j < i ==> all[j] != x,
            decreases all.len() - i,
        {
            if interfaces[i] == x {
                assert(all[i as int] == x);
                return true;
            }
            i = i + 1;
        }
        false
    }

    /// Whether a value of class `c` can be cast to class `d` (see
    /// `spec_check_cast`).
    pub fn check_cast(&self, c: usize, d: usize) -> (res: bool)
        requires
            table_wf(self@),
            c < self@.len(),
            d < self@.len(),
        ensures
            res == spec_check_cast(self@, c as int, d as int),
        decreases c,
    {
        proof {
            assert(class_wf(self@, c as int));
        }
        match (self.classes[c].array_value, self.classes[d].array_value) {
            (Some(ec), Some(ed)) => match (ec, ed) {
                (ElementType::Reference(a), ElementType::Reference(b)) => {
                    proof {
                        assert(class_wf(self@, d as int));
                    }
                    self.check_cast(a, b)
                },
                _ => ec == ed,
            },
            _ => self.matches_class(c, d) || self.implements_interface(c, d),
        }
    }
}

/// A prefix one longer holds one more value.
proof fn lemma_take_to_set(s: Seq<usize>, i: int)
    requires
        0 <= i < s.len(),
    ensures
        s.take(i + 1).to_set() == s.take(i).to_set().insert(s[i]),
{
    assert forall|y: usize| s.take(i + 1).to_set().contains(y) <==> s.take(i).to_set().insert(s[i]).contains(y) by {
        if s.take(i + 1).contains(y) {
            let j = choose|j: int| 0 <= j < i + 1 && #[trigger] s.take(i + 1)[j] == y;
            if j < i {
                assert(s.take(i)[j] == y);
            }
        }
        if s.take(i).contains(y) {
            let j = choose|j: int| 0 <= j < i && #[trigger] s.take(i)[j] == y;
            assert(s.take(i + 1)[j] == y);
        }
        if y == s[i] {
            assert(s.take(i + 1)[i] == y);
        }
    }
    assert(s.take(i + 1).to_set() =~= s.take(i).to_set().insert(s[i]));
}

/// Adds every value of `src` to `v`, each once.
fn add_all_unique(v: &mut Vec<usize>, seen: &mut IndexSet, src: &Vec<usize>, bound: usize)
    requires
        old(v)@.no_duplicates(),
        index_set_contents(*old(seen)) == old(v)@.to_set(),
        forall|j: int| 0 <= j < old(v)@.len() ==> #[trigger] old(v)@[j] < bound,
        forall|j: int| 0 <= j < src@.len() ==> #[trigger] src@[j] < bound,
    ensures
        final(v)@.no_duplicates(),
        final(v)@.to_set() == old(v)@.to_set().union(src@.to_set()),
        index_set_contents(*final(seen)) == final(v)@.to_set(),
        forall|j: int| 0 <= j < final(v)@.len() ==> #[trigger] final(v)@[j] < bound,
{
    let ghost start = v@.to_set();
    let mut k: usize = 0;
    assert(src@.take(0).to_set() =~= Set::<usize>::empty());
    while k < src.len()
        invariant
            k <= src@.len(),
            v@.no_duplicates(),
            index_set_contents(*seen) == v@.to_set(),
            forall|j: int| 0 <= j < v@.len() ==> #[trigger] v@[j] < bound,
            forall|j: int| 0 <= j < src@.len() ==> #[trigger] src@[j] < bound,
            v@.to_set() == start.union(src@.take(k as int).to_set()),
        decreases src@.len() - k,
    {
        add_unique(v, seen, src[k], bound);
        proof {
            lemma_take_to_set(src@, k as int);
        }
        assert(v@.to_set() =~= start.union(src@.take(k + 1).to_set()));
        k = k + 1;
    }
    assert(src@.take(k as int) =~= src@);
}

impl ClassTable {
    /// Links a class defined by the class loader `loader` (`None` for the
    /// bootstrap loader): refuses it when its superclass is final or one of
    /// `interfaces` is not an interface (in that order); otherwise adds it,
    /// with all the interfaces it implements (its own, those they extend and
    /// those of its superclass), and gives its index.
    pub fn add_class_in(
        &mut self,
        name: JvmString,
        flags: u16,
        super_class: Option<usize>,
        interfaces: Vec<usize>,
        loader: Option<usize>,
    ) -> (res: Result<usize, LinkError>)
        requires
            table_wf(old(self)@),
            old(self)@.len() < usize::MAX,
            super_class matches Some(s) ==> s < old(self)@.len(),
            forall|j: int| 0 <= j < interfaces@.len() ==> #[trigger] interfaces@[j] < old(self)@.len(),
        ensures
            table_wf(final(self)@),
            match link_error(old(self)@, super_class, interfaces@) {
                Some(e) => res == Err::<usize, LinkError>(e) && final(self)@ == old(self)@,
                None => {
                    &&& res == Ok::<usize, LinkError>(old(self)@.len() as usize)
                    &&& final(self)@.len() == old(self)@.len() + 1
                    &&& final(self)@.take(old(self)@.len() as int) == old(self)@
                    &&& final(self)@.last().name == name@
                    &&& final(self)@.last().flags == flags
                    &&& final(self)@.last().super_class == super_class
                    &&& final(self)@.last().own_interfaces == interfaces@
                    &&& final(self)@.last().all_interfaces.to_set() == interfaces_of(old(self)@, interfaces@, super_class)
                    &&& final(self)@.last().array_value is None
                    &&& final(self)@.last().primitive is None
                    &&& final(self)@.last().loader == loader
                },
            },
    {
        let ghost t = self@;
        if let Some(s) = super_class {
            if self.classes[s].flags & ACC_FINAL != 0 {
                return Err(LinkError::FinalSuperclass);
            }
        }
        let mut i: usize = 0;
        let mut bad = false;
        while i < interfaces.len() && !bad
            invariant
                t == self@,
                i <= interfaces@.len(),
                forall|j: int| 0 <= j < interfaces@.len() ==> #[trigger] interfaces@[j] < t.len(),
                forall|j: int| 0 <= j < i ==> #[trigger] t[interfaces@[j] as int].flags & ACC_INTERFACE != 0,
                bad ==> i < interfaces@.len() && t[interfaces@[i as int] as int].flags & ACC_INTERFACE == 0,
            decreases interfaces@.len() - i + (if bad { 0int } else { 1int }),
        {
            if self.classes[interfaces[i]].flags & ACC_INTERFACE == 0 {
                bad = true;
            } else {
                i = i + 1;
            }
        }
        if bad {
            assert(t[interfaces@[i as int] as int].flags & ACC_INTERFACE == 0);
            return Err(LinkError::NotAnInterface);
        }
        assert(link_error(t, super_class, interfaces@) is None);
        let bound = self.classes.len();
        let mut all: Vec<usize> = Vec::new();
        let mut seen = index_set_new();
        assert(all@.to_set() =~= Set::<usize>::empty());
        add_all_unique(&mut all, &mut seen, &interfaces, bound);
        assert(all@.to_set() =~= interfaces@.to_set());
        let mut n: usize = 0;
        assert(inherited_part(t, interfaces@, 0) =~= Set::<usize>::empty());
        while n < interfaces.len()
            invariant
                t == self@,
                table_wf(t),
                bound == t.len(),
                n <= interfaces@.len(),
                forall|j: int| 0 <= j < interfaces@.len() ==> #[trigger] interfaces@[j] < t.len(),
                all@.no_duplicates(),
                index_set_contents(seen) == all@.to_set(),
                forall|j: int| 0 <= j < all@.len() ==> #[trigger] all@[j] < bound,
                all@.to_set() == interfaces@.to_set().union(inherited_part(t, interfaces@, n as int)),
            decreases interfaces@.len() - n,
        {
            let c = interfaces[n];
            assert(class_wf(t, c as int));
            let inner = &self.classes[c].all_interfaces;
            assert(inner@ == t[c as int].all_interfaces);
            add_all_unique(&mut all, &mut seen, inner, bound);
            assert(inherited_part(t, interfaces@, n + 1) =~= inherited_part(t, interfaces@, n as int).union(
                t[c as int].all_interfaces.to_set(),
            ));
            assert(all@.to_set() =~= interfaces@.to_set().union(inherited_part(t, interfaces@, n + 1)));
            n = n + 1;
        }
        assert(inherited_part(t, interfaces@, n as int) =~= Set::new(
            |x: usize| exists|j: int| 0 <= j < interfaces@.len() && #[trigger] t[interfaces@[j] as int].all_interfaces.contains(x),
        ));
        if let Some(s) = super_class {
            assert(class_wf(t, s as int));
            let inner = &self.classes[s].all_interfaces;
            assert(inner@ == t[s as int].all_interfaces);
            add_all_unique(&mut all, &mut seen, inner, bound);
        }
        assert(all@.to_set() =~= interfaces_of(t, interfaces@, super_class));
        let record = ClassRecord {
            name,
            flags,
            super_class,
            own_interfaces: interfaces,
            all_interfaces: all,
            array_value: None,
            primitive: None,
            loader,
        };
        self.classes.push(record);
        assert(self@ =~= t.push(record@));
        assert forall|c: int| 0 <= c < self@.len() implies #[trigger] class_wf(self@, c) by {
            if c < t.len() {
                assert(self@[c] == t[c]);
                assert(class_wf(t, c));
            }
        }
        assert(self@.take(t.len() as int) =~= t);
        Ok(bound)
    }

    /// Links a class of the bootstrap loader (see `add_class_in`).
    pub fn add_class(&mut self, name: JvmString, flags: u16, super_class: Option<usize>, interfaces: Vec<usize>) -> (res: Result<usize, LinkError>)
        requires
            table_wf(old(self)@),
            old(self)@.len() < usize::MAX,
            super_class matches Some(s) ==> s < old(self)@.len(),
            forall|j: int| 0 <= j < interfaces@.len() ==> #[trigger] interfaces@[j] < old(self)@.len(),
        ensures
            table_wf(final(self)@),
            match link_error(old(self)@, super_class, interfaces@) {
                Some(e) => res == Err::<usize, LinkError>(e) && final(self)@ == old(self)@,
                None => {
                    &&& res == Ok::<usize, LinkError>(old(self)@.len() as usize)
                    &&& final(self)@.len() == old(self)@.len() + 1
                    &&& final(self)@.take(old(self)@.len() as int) == old(self)@
                    &&& final(self)@.last().name == name@
                    &&& final(self)@.last().flags == flags
                    &&& final(self)@.last().super_class == super_class
                    &&& final(self)@.last().own_interfaces == interfaces@
                    &&& final(self)@.last().all_interfaces.to_set() == interfaces_of(old(self)@, interfaces@, super_class)
                    &&& final(self)@.last().array_value is None
                    &&& final(self)@.last().primitive is None
                    &&& final(self)@.last().loader is None
                },
            },
    {
        self.add_class_in(name, flags, super_class, interfaces, None)
    }
}

/// Appends the characters of `s` to `out`.
fn push_chars(out: &mut String, s: &str)
    ensures
        final(out)@ == old(out)@ + s@,
{
    let n = s.unicode_len();
    let mut i: usize = 0;
    while i < n
        invariant
            n == s@.len(),
            i <= n,
            out@ == old(out)@ + s@.take(i as int),
        decreases n - i,
    {
        string_push(out, s.get_char(i));
        assert(s@.take(i + 1) =~= s@.take(i as int).push(s@[i as int]));
        i = i + 1;
    }
    assert(s@.take(n as int) =~= s@);
}

/// The descriptor letter of a primitive type.
fn letter_of(p: PrimitiveType) -> (res: char)
    ensures
        res == primitive_letter(p),
{
    match p {
        PrimitiveType::Boolean => 'Z',
        PrimitiveType::Byte => 'B',
        PrimitiveType::Char => 'C',
        PrimitiveType::Short => 'S',
        PrimitiveType::Int => 'I',
        PrimitiveType::Long => 'J',
        PrimitiveType::Float => 'F',
        PrimitiveType::Double => 'D',
        PrimitiveType::Void => 'V',
    }
}

impl ClassTable {
    /// Links the array class of `element`: named `[` followed by the
    /// element's descriptor, public when the element class is (or the
    /// element is primitive), final and abstract, a subclass of
    /// `object_class` with no interfaces, of the class loader of the element
    /// class (the bootstrap loader for a primitive element); gives its
    /// index.
    pub fn add_array_class(&mut self, element: ElementType, object_class: usize) -> (res: usize)
        requires
            table_wf(old(self)@),
            old(self)@.len() < usize::MAX,
            object_class < old(self)@.len(),
            element matches ElementType::Reference(x) ==> x < old(self)@.len(),
        ensures
            table_wf(final(self)@),
            res == old(self)@.len(),
            final(self)@ == old(self)@.push(
                SpecClass {
                    name: seq!['['] + element_descriptor(old(self)@, element),
                    flags: array_flags(old(self)@, element),
                    super_class: Some(object_class),
                    own_interfaces: Seq::empty(),
                    all_interfaces: Seq::empty(),
                    array_value: Some(element),
                    primitive: None,
                    loader: element_loader(old(self)@, element),
                },
            ),
    {
        let ghost t = self@;
        let mut name = String::new();
        string_push(&mut name, '[');
        let public = match element {
            ElementType::Reference(x) => {
                let inner = &self.classes[x];
                if inner.array_value.is_some() {
                    push_chars(&mut name, inner.name.as_str());
                } else {
                    string_push(&mut name, 'L');
                    push_chars(&mut name, inner.name.as_str());
                    string_push(&mut name, ';');
                }
                inner.flags & ACC_PUBLIC
            },
            ElementType::Primitive(p) => {
                string_push(&mut name, letter_of(p));
                ACC_PUBLIC
            },
        };
        assert(name@ =~= seq!['['] + element_descriptor(t, element));
        let bound = self.classes.len();
        let loader = match element {
            ElementType::Reference(x) => {
                assert(self.classes@[x as int]@ == t[x as int]);
                self.classes[x].loader
            },
            ElementType::Primitive(_) => None,
        };
        let record = ClassRecord {
            name: JvmString::new(name),
            flags: public | ACC_FINAL | ACC_ABSTRACT,
            super_class: Some(object_class),
            own_interfaces: Vec::new(),
            all_interfaces: Vec::new(),
            array_value: Some(element),
            primitive: None,
            loader,
        };
        self.classes.push(record);
        assert(self@ =~= t.push(record@));
        assert(record@.own_interfaces =~= Seq::<usize>::empty());
        assert(record@.all_interfaces =~= Seq::<usize>::empty());
        assert forall|c: int| 0 <= c < self@.len() implies #[trigger] class_wf(self@, c) by {
            if c < t.len() {
                assert(self@[c] == t[c]);
                assert(class_wf(t, c));
            }
        }
        bound
    }
}

/// The Java name of a primitive type.
pub open spec fn primitive_name(p: PrimitiveType) -> Seq<char> {
    match p {
        PrimitiveType::Boolean => "boolean"@,
        PrimitiveType::Byte => "byte"@,
        PrimitiveType::Char => "char"@,
        PrimitiveType::Short => "short"@,
        PrimitiveType::Int => "int"@,
        PrimitiveType::Long => "long"@,
        PrimitiveType::Float => "float"@,
        PrimitiveType::Double => "double"@,
        PrimitiveType::Void => "void"@,
    }
}

impl ClassTable {
    /// Adds the class of primitive type `p`: named by the type's Java name,
    /// public, final and abstract, with no superclass and no interfaces;
    /// gives its index.
    pub fn add_primitive_class(&mut self, p: PrimitiveType) -> (res: usize)
        requires
            table_wf(old(self)@),
            old(self)@.len() < usize::MAX,
        ensures
            table_wf(final(self)@),
            res == old(self)@.len(),
            final(self)@ == old(self)@.push(
                SpecClass {
                    name: primitive_name(p),
                    flags: ACC_PUBLIC | ACC_FINAL | ACC_ABSTRACT,
                    super_class: None,
                    own_interfaces: Seq::empty(),
                    all_interfaces: Seq::empty(),
                    array_value: None,
                    primitive: Some(p),
                    loader: None,
                },
            ),
    {
        let ghost t = self@;
        let bound = self.classes.len();
        let record = ClassRecord {
            name: JvmString::from_str(p.name()),
            flags: ACC_PUBLIC | ACC_FINAL | ACC_ABSTRACT,
            super_class: None,
            own_interfaces: Vec::new(),
            all_interfaces: Vec::new(),
            array_value: None,
            primitive: Some(p),
            loader: None,
        };
        self.classes.push(record);
        assert(self@ =~= t.push(record@));
        assert(record@.own_interfaces =~= Seq::<usize>::empty());
        assert(record@.all_interfaces =~= Seq::<usize>::empty());
        assert forall|c: int| 0 <= c < self@.len() implies #[trigger] class_wf(self@, c) by {
            if c < t.len() {
                assert(self@[c] == t[c]);
                assert(class_wf(t, c));
            }
        }
        bound
    }
}

/// A superclass comes before its subclasses in the table: so no class is
/// its own superclass.
pub proof fn lemma_ancestor_is_earlier(t: Seq<SpecClass>, c: int, d: int)
    requires
        table_wf(t),
        has_ancestor(t, c, d),
    ensures
        0 <= d < c,
        !has_ancestor(t, c, c),
    decreases c,
{
    assert(class_wf(t, c));
    if let Some(s) = t[c].super_class {
        if s != d {
            lemma_ancestor_is_earlier(t, s as int, d);
        }
    }
    if has_ancestor(t, c, c) {
        lemma_ancestor_is_earlier_only(t, c, c);
    }
}

/// The part of `lemma_ancestor_is_earlier` that places the ancestor.
proof fn lemma_ancestor_is_earlier_only(t: Seq<SpecClass>, c: int, d: int)
    requires
        table_wf(t),
        has_ancestor(t, c, d),
    ensures
        0 <= d < c,
    decreases c,
{
    assert(class_wf(t, c));
    if let Some(s) = t[c].super_class {
        if s != d {
            lemma_ancestor_is_earlier_only(t, s as int, d);
        }
    }
}

/// The superclass relation is transitive.
pub proof fn lemma_ancestor_transitive(t: Seq<SpecClass>, c: int, d: int, e: int)
    requires
        table_wf(t),
        has_ancestor(t, c, d),
        has_ancestor(t, d, e),
    ensures
        has_ancestor(t, c, e),
    decreases c,
{
    assert(class_wf(t, c));
    lemma_ancestor_is_earlier_only(t, c, d);
    if let Some(s) = t[c].super_class {
        if s != d {
            lemma_ancestor_transitive(t, s as int, d, e);
        }
    }
}

/// Every class can be cast to itself.
pub proof fn lemma_cast_reflexive(t: Seq<SpecClass>, c: int)
    requires
        table_wf(t),
        0 <= c < t.len(),
    ensures
        spec_check_cast(t, c, c),
    decreases c,
{
    assert(class_wf(t, c));
    if let Some(ElementType::Reference(a)) = t[c].array_value {
        lemma_cast_reflexive(t, a as int);
    }
}

/// A class can be cast to each of its superclasses.
pub proof fn lemma_cast_to_ancestor(t: Seq<SpecClass>, c: int, d: int)
    requires
        table_wf(t),
        0 <= c < t.len(),
        has_ancestor(t, c, d),
        t[c].array_value is None || t[d].array_value is None,
    ensures
        spec_check_cast(t, c, d),
{
    lemma_ancestor_is_earlier_only(t, c, d);
}

} // verus!
