//! Slot tables for fields and methods: each (name, descriptor) key gets a
//! slot, and a class's table extends its superclass's.
use vstd::prelude::*;

use crate::descriptor::{
    lemma_method_descriptor_round_trip, spec_method_descriptor, spec_method_descriptor_chars, Descriptor,
    MethodDescriptor, SpecDescriptor, SpecMethodDescriptor,
};
use crate::string::JvmString;

verus! {

/// A descriptor that can be half of a table key.
pub trait KeyDescriptor: View + Sized {
    /// Whether this descriptor equals `other`.
    fn same_key(&self, other: &Self) -> (res: bool)
        ensures
            res == (self@ == other@),
    ;
}

impl KeyDescriptor for Descriptor {
    fn same_key(&self, other: &Self) -> (res: bool) {
        self.same_as(other)
    }
}

impl KeyDescriptor for MethodDescriptor {
    fn same_key(&self, other: &Self) -> (res: bool) {
        self.same_as(other)
    }
}

/// The value of a key: a name and a descriptor.
pub open spec fn key_view<T: View>(k: (JvmString, T)) -> (Seq<char>, T::V) {
    (k.0@, k.1@)
}

/// The values of a list of keys.
pub open spec fn keys_view<T: View>(keys: Seq<(JvmString, T)>) -> Seq<(Seq<char>, T::V)> {
    keys.map_values(|k: (JvmString, T)| key_view(k))
}

/// Whether two keys are equal.
fn same_key<T: KeyDescriptor>(a: &(JvmString, T), b: &(JvmString, T)) -> (res: bool)
    ensures
        res == (key_view(*a) == key_view(*b)),
{
    a.0.eq_str(b.0.as_str()) && a.1.same_key(&b.1)
}

/// The slots of `keys` when the first takes slot `base`: each key the slot
/// of its last occurrence.
pub open spec fn keys_map<K>(keys: Seq<K>, base: int) -> Map<K, usize>
    decreases keys.len(),
{
    if keys.len() == 0 {
        Map::empty()
    } else {
        keys_map(keys.drop_last(), base).insert(keys.last(), (base + keys.len() - 1) as usize)
    }
}

/// The last index at which `k` occurs in `keys`.
pub open spec fn last_index<K>(keys: Seq<K>, k: K) -> Option<int>
    decreases keys.len(),
{
    if keys.len() == 0 {
        None
    } else if keys.last() == k {
        Some(keys.len() - 1)
    } else {
        last_index(keys.drop_last(), k)
    }
}

/// `keys_map` gives each key the slot of its last occurrence.
proof fn lemma_keys_map<K>(keys: Seq<K>, base: int, k: K)
    requires
        0 <= base,
        base + keys.len() <= usize::MAX,
    ensures
        keys_map(keys, base).contains_key(k) <==> last_index(keys, k) is Some,
        last_index(keys, k) matches Some(i) ==> 0 <= i < keys.len() && keys[i] == k && keys_map(keys, base)[k] == base + i
            && forall|j: int| i < j < keys.len() ==> keys[j] != k,
    decreases keys.len(),
{
    if keys.len() > 0 {
        let rest = keys.drop_last();
        lemma_keys_map(rest, base, k);
        if keys.last() != k {
            if let Some(i) = last_index(keys, k) {
                assert(rest[i] == keys[i]);
                assert forall|j: int| i < j < keys.len() implies keys[j] != k by {
                    if j < keys.len() - 1 {
                        assert(rest[j] == keys[j]);
                    }
                }
            }
        }
    }
}

/// A table of slots for fields or for static methods: the keys of this
/// table take the slots after those of its parent, and a key this table
/// lacks is looked up in the parent.
pub struct VTable<T> {
    parent: Option<Box<VTable<T>>>,
    keys: Vec<(JvmString, T)>,
    base: usize,
    first_unused: usize,
}

impl<T: KeyDescriptor> VTable<T> {
    /// The slot of every key the table or its ancestors hold.
    pub closed spec fn slots(&self) -> Map<(Seq<char>, T::V), usize>
        decreases self,
    {
        let own = keys_map(keys_view(self.keys@), self.base as int);
        match self.parent {
            Some(p) => p.slots().union_prefer_right(own),
            None => own,
        }
    }

    /// The first slot after all that the table and its ancestors use.
    pub closed spec fn next_slot(&self) -> nat {
        self.first_unused as nat
    }

    /// The keys this table itself adds, in order.
    pub closed spec fn own_keys(&self) -> Seq<(Seq<char>, T::V)> {
        keys_view(self.keys@)
    }

    /// The slot this table's first own key takes.
    pub closed spec fn base_slot(&self) -> nat {
        self.base as nat
    }

    /// The table's own keys take the slots from its parent's next slot on.
    pub closed spec fn well_formed(&self) -> bool
        decreases self,
    {
        &&& self.first_unused == self.base + self.keys@.len()
        &&& match self.parent {
            Some(p) => p.well_formed() && self.base == p.first_unused,
            None => self.base == 0,
        }
    }

    /// An empty table with no parent.
    pub fn empty() -> (res: Self)
        ensures
            res.well_formed(),
            res.slots() == Map::<(Seq<char>, T::V), usize>::empty(),
            res.next_slot() == 0,
    {
        let res = VTable { parent: None, keys: Vec::new(), base: 0, first_unused: 0 };
        assert(keys_view(res.keys@) =~= Seq::<(Seq<char>, T::V)>::empty());
        res
    }

    /// A table whose own keys are `keys`, taking slots from the parent's
    /// next slot on (a key given twice takes the slot of its last
    /// occurrence), over `parent`.
    pub fn from_parent_and_keys(parent: Option<VTable<T>>, keys: Vec<(JvmString, T)>) -> (res: Self)
        requires
            parent matches Some(p) ==> p.well_formed(),
            (match parent {
                Some(p) => p.next_slot(),
                None => 0,
            }) + keys@.len() <= usize::MAX,
        ensures
            res.well_formed(),
            res.base_slot() == (match parent {
                Some(p) => p.next_slot(),
                None => 0,
            }),
            res.next_slot() == res.base_slot() + keys@.len(),
            res.own_keys() == keys_view(keys@),
            res.slots() == (match parent {
                Some(p) => p.slots(),
                None => Map::empty(),
            }).union_prefer_right(keys_map(keys_view(keys@), res.base_slot() as int)),
    {
        let base = match &parent {
            Some(p) => p.first_unused,
            None => 0,
        };
        let first_unused = base + keys.len();
        VTable { parent: match parent {
            Some(p) => Some(Box::new(p)),
            None => None,
        }, keys, base, first_unused }
    }

    /// The slot of the key (`name`, `descriptor`), if the table or an
    /// ancestor holds it.
    pub fn lookup(&self, name: &JvmString, descriptor: &T) -> (res: Option<usize>)
        requires
            self.well_formed(),
        ensures
            res == (if self.slots().contains_key((name@, descriptor@)) {
                Some(self.slots()[(name@, descriptor@)])
            } else {
                None
            }),
        decreases self,
    {
        let ghost k = (name@, descriptor@);
        let ghost kv = keys_view(self.keys@);
        proof {
            lemma_keys_map(kv, self.base as int, k);
        }
        let mut i = self.keys.len();
        assert(kv.take(i as int) =~= kv);
        while i > 0
            invariant
                i <= self.keys@.len(),
                kv == keys_view(self.keys@),
                k == (name@, descriptor@),
                self.first_unused == self.base + self.keys@.len(),
                last_index(kv, k) == last_index(kv.take(i as int), k),
            decreases i,
        {
            let entry = &self.keys[i - 1];
            assert(*entry == self.keys@[i - 1]);
            assert(kv.take(i as int).drop_last() =~= kv.take(i - 1));
            assert(kv.take(i as int).last() == key_view(self.keys@[i - 1]));
            let same_name = entry.0.eq_str(name.as_str());
            let same_descriptor = entry.1.same_key(descriptor);
            if same_name && same_descriptor {
                assert(kv.take(i as int).last() == k);
                assert(last_index(kv, k) == Some((i - 1) as int));
                proof {
                    lemma_keys_map(kv, self.base as int, k);
                }
                assert(self.slots().contains_key(k) && self.slots()[k] == keys_map(kv, self.base as int)[k]);
                return Some(self.base + (i - 1));
            }
            i = i - 1;
        }
        assert(kv.take(0) =~= Seq::<(Seq<char>, T::V)>::empty());
        match &self.parent {
            Some(p) => p.lookup(name, descriptor),
            None => None,
        }
    }

    /// The slots this table's own keys named `name` take, each once, in
    /// the order of the keys.
    pub fn slots_for_name(&self, name: &JvmString) -> (res: Vec<usize>)
        requires
            self.well_formed(),
        ensures
            res@ == named_slots(self.own_keys(), name@, self.base_slot() as int, self.own_keys().len() as int),
    {
        let ghost kv = keys_view(self.keys@);
        let mut out: Vec<usize> = Vec::new();
        let mut i: usize = 0;
        while i < self.keys.len()
            invariant
                i <= self.keys@.len(),
                kv == keys_view(self.keys@),
                self.first_unused == self.base + self.keys@.len(),
                out@ == named_slots(kv, name@, self.base as int, i as int),
            decreases self.keys@.len() - i,
        {
            let mut later = false;
            let mut j = i + 1;
            while j < self.keys.len()
                invariant
                    i < j <= self.keys@.len(),
                    kv == keys_view(self.keys@),
                    later <==> exists|x: int| i < x < j && #[trigger] kv[x] == kv[i as int],
                decreases self.keys@.len() - j,
            {
                assert(kv[j as int] == key_view(self.keys@[j as int]));
                assert(kv[i as int] == key_view(self.keys@[i as int]));
                if same_key(&self.keys[j], &self.keys[i]) {
                    later = true;
                }
                j = j + 1;
            }
            if !later && self.keys[i].0.eq_str(name.as_str()) {
                out.push(self.base + i);
            }
            i = i + 1;
        }
        out
    }
}

/// The slots, from `base` on, of the keys among the first `n` of `keys`
/// that are named `name` and occur for the last time there.
pub open spec fn named_slots<V>(keys: Seq<(Seq<char>, V)>, name: Seq<char>, base: int, n: int) -> Seq<usize>
    decreases n,
{
    if n <= 0 {
        Seq::empty()
    } else {
        let rest = named_slots(keys, name, base, n - 1);
        if keys[n - 1].0 == name && !(exists|x: int| n - 1 < x < keys.len() && #[trigger] keys[x] == keys[n - 1]) {
            rest.push((base + n - 1) as usize)
        } else {
            rest
        }
    }
}

/// The keys `m` gives slots to all have slots from `base` to just below
/// `base` plus the number of keys.
proof fn lemma_keys_map_range<K>(keys: Seq<K>, base: int)
    requires
        0 <= base,
        base + keys.len() <= usize::MAX,
    ensures
        forall|k: K| #[trigger] keys_map(keys, base).contains_key(k) ==> base <= keys_map(keys, base)[k] < base + keys.len(),
    decreases keys.len(),
{
    if keys.len() > 0 {
        let rest = keys.drop_last();
        lemma_keys_map_range(rest, base);
        assert forall|k: K| #[trigger] keys_map(keys, base).contains_key(k) implies base <= keys_map(keys, base)[k] < base
            + keys.len() by {
            if k != keys.last() {
                assert(keys_map(rest, base).contains_key(k));
            }
        }
    }
}

impl<T: KeyDescriptor> VTable<T> {
    /// Every slot a table gives is below its next slot, and the table's own
    /// keys take slots from its base on: so they never take a slot its
    /// ancestors gave.
    pub proof fn lemma_slots_are_fresh(&self)
        requires
            self.well_formed(),
        ensures
            forall|k: (Seq<char>, T::V)| #[trigger] self.slots().contains_key(k) ==> self.slots()[k] < self.next_slot(),
            forall|k: (Seq<char>, T::V)| #[trigger] keys_map(self.own_keys(), self.base_slot() as int).contains_key(k)
                ==> self.base_slot() <= keys_map(self.own_keys(), self.base_slot() as int)[k] < self.next_slot(),
            self.parent_slots_below_base(),
        decreases self,
    {
        let own = keys_map(keys_view(self.keys@), self.base as int);
        lemma_keys_map_range(keys_view(self.keys@), self.base as int);
        match &self.parent {
            Some(p) => {
                p.lemma_slots_are_fresh();
                assert forall|k: (Seq<char>, T::V)| #[trigger] self.slots().contains_key(k) implies self.slots()[k]
                    < self.next_slot() by {
                    if !own.contains_key(k) {
                        assert(p.slots().contains_key(k));
                    }
                }
            },
            None => {},
        }
    }

    /// Every slot the table's ancestors give is below the table's base.
    pub closed spec fn parent_slots_below_base(&self) -> bool {
        match self.parent {
            Some(p) => forall|k: (Seq<char>, T::V)| #[trigger] p.slots().contains_key(k) ==> p.slots()[k] < self.base,
            None => true,
        }
    }
}

// ---------------------------------------------------------------------------
// The table of instance methods
// ---------------------------------------------------------------------------

/// A method key as values.
pub type MethodKey = (Seq<char>, SpecMethodDescriptor);

/// The first index of `k` in `keys`.
pub open spec fn position<K>(keys: Seq<K>, k: K) -> Option<int>
    decreases keys.len(),
{
    if keys.len() == 0 {
        None
    } else if keys[0] == k {
        Some(0)
    } else {
        match position(keys.drop_first(), k) {
            Some(i) => Some(i + 1),
            None => None,
        }
    }
}

/// Adding the methods `data`, in order, to a table with keys `keys` (in slot
/// order) and elements `els`: a method whose key the table holds replaces
/// the element in that slot; any other takes a new slot at the end.
pub open spec fn add_methods<E>(keys: Seq<MethodKey>, els: Seq<E>, data: Seq<(MethodKey, E)>) -> (Seq<MethodKey>, Seq<E>)
    decreases data.len(),
{
    if data.len() == 0 {
        (keys, els)
    } else {
        let (k2, e2) = add_methods(keys, els, data.drop_last());
        let (k, e) = data.last();
        match position(k2, k) {
            Some(i) => (k2, e2.update(i, e)),
            None => (k2.push(k), e2.push(e)),
        }
    }
}

/// The table of a class's instance methods: a slot for each method the
/// class has or inherits, an overriding method in the slot of the method it
/// overrides.
pub struct InstanceMethodVTable<E> {
    keys: Vec<(JvmString, MethodDescriptor)>,
    elements: Vec<E>,
}

impl<E> InstanceMethodVTable<E> {
    /// The keys, in slot order.
    pub closed spec fn keys(&self) -> Seq<MethodKey> {
        keys_view(self.keys@)
    }

    /// The elements, in slot order.
    pub closed spec fn elements(&self) -> Seq<E> {
        self.elements@
    }

    /// One element per key, and no key twice.
    pub closed spec fn well_formed(&self) -> bool {
        &&& self.keys@.len() == self.elements@.len()
        &&& keys_view(self.keys@).no_duplicates()
    }
}

/// The position of the method (`name`, `descriptor`) among `keys`, found by
/// walking them: the first that matches.
pub fn find_key(keys: &Vec<(JvmString, MethodDescriptor)>, name: &JvmString, descriptor: &MethodDescriptor) -> (res: Option<usize>)
    ensures
        res == (match position(keys_view(keys@), (name@, descriptor@)) {
            Some(i) => Some(i as usize),
            None => None,
        }),
        res matches Some(i) ==> i < keys@.len(),
{
    let ghost kv = keys_view(keys@);
    let ghost k = (name@, descriptor@);
    let mut i: usize = 0;
    assert(kv.skip(0) =~= kv);
    while i < keys.len()
        invariant
            i <= keys@.len(),
            kv == keys_view(keys@),
            k == (name@, descriptor@),
            position(kv, k) == (match position(kv.skip(i as int), k) {
                Some(j) => Some(j + i),
                None => None,
            }),
        decreases keys@.len() - i,
    {
        assert(kv.skip(i as int).drop_first() =~= kv.skip(i + 1));
        assert(kv.skip(i as int)[0] == key_view(keys@[i as int]));
        if keys[i].0.eq_str(name.as_str()) && keys[i].1.same_as(descriptor) {
            return Some(i);
        }
        i = i + 1;
    }
    assert(kv.skip(i as int) =~= Seq::<MethodKey>::empty());
    None
}

impl<E: Copy> InstanceMethodVTable<E> {
    /// An empty table.
    pub fn empty() -> (res: Self)
        ensures
            res.well_formed(),
            res.keys() == Seq::<MethodKey>::empty(),
            res.elements() == Seq::<E>::empty(),
    {
        let res = InstanceMethodVTable { keys: Vec::new(), elements: Vec::new() };
        assert(keys_view(res.keys@) =~= Seq::<MethodKey>::empty());
        res
    }

    /// The table of a class whose own instance methods are `data`, over its
    /// superclass's table `parent`: inherited methods keep their slots, an
    /// overriding method takes the slot of the method it overrides, and a
    /// new method a new slot after the others.
    pub fn from_parent_and_keys(parent: Option<&InstanceMethodVTable<E>>, data: Vec<((JvmString, MethodDescriptor), E)>) -> (res: Self)
        requires
            parent matches Some(p) ==> p.well_formed(),
        ensures
            res.well_formed(),
            (res.keys(), res.elements()) == add_methods(
                match parent {
                    Some(p) => p.keys(),
                    None => Seq::empty(),
                },
                match parent {
                    Some(p) => p.elements(),
                    None => Seq::empty(),
                },
                data@.map_values(|d: ((JvmString, MethodDescriptor), E)| (key_view(d.0), d.1)),
            ),
    {
        let ghost dv = data@.map_values(|d: ((JvmString, MethodDescriptor), E)| (key_view(d.0), d.1));
        let mut keys: Vec<(JvmString, MethodDescriptor)> = Vec::new();
        let mut elements: Vec<E> = Vec::new();
        if let Some(p) = parent {
            let mut i: usize = 0;
            while i < p.keys.len()
                invariant
                    p.well_formed(),
                    i <= p.keys@.len(),
                    keys_view(keys@) =~= keys_view(p.keys@).take(i as int),
                    elements@ =~= p.elements@.take(i as int),
                decreases p.keys@.len() - i,
            {
                let k = (p.keys[i].0.duplicate(), p.keys[i].1.duplicate());
                let ghost before = keys_view(keys@);
                keys.push(k);
                elements.push(p.elements[i]);
                assert(keys_view(keys@) =~= before.push(key_view(p.keys@[i as int])));
                assert(keys_view(p.keys@).take(i + 1) =~= keys_view(p.keys@).take(i as int).push(keys_view(p.keys@)[i as int]));
                i = i + 1;
            }
            assert(keys_view(p.keys@).take(i as int) =~= keys_view(p.keys@));
            assert(p.elements@.take(i as int) =~= p.elements@);
        } else {
            assert(keys_view(keys@) =~= Seq::<MethodKey>::empty());
        }
        let ghost start_keys = keys_view(keys@);
        let ghost start_els = elements@;
        assert(start_keys.no_duplicates());
        assert(dv.take(0) =~= Seq::<(MethodKey, E)>::empty());
        let mut n: usize = 0;
        while n < data.len()
            invariant
                n <= data@.len(),
                dv == data@.map_values(|d: ((JvmString, MethodDescriptor), E)| (key_view(d.0), d.1)),
                keys_view(keys@).no_duplicates(),
                keys@.len() == elements@.len(),
                (keys_view(keys@), elements@) == add_methods(start_keys, start_els, dv.take(n as int)),
            decreases data@.len() - n,
        {
            let ghost kv = keys_view(keys@);
            assert(dv.take(n + 1).drop_last() =~= dv.take(n as int));
            assert(dv.take(n + 1).last() == (key_view(data@[n as int].0), data@[n as int].1));
            let entry = &data[n];
            assert(*entry == data@[n as int]);
            let ghost key = key_view(entry.0);
            let ghost before_els = elements@;
            assert(add_methods(start_keys, start_els, dv.take(n + 1)) == (match position(kv, key) {
                Some(i) => (kv, before_els.update(i, entry.1)),
                None => (kv.push(key), before_els.push(entry.1)),
            }));
            proof {
                lemma_position_absent(kv, key);
            }
            let key_count = keys.len();
            assert(kv.len() == key_count);
            match find_key(&keys, &entry.0.0, &entry.0.1) {
                Some(i) => {
                    assert(position(kv, key) == Some(i as int));
                    elements.set(i, entry.1);
                    assert(elements@ == before_els.update(i as int, entry.1));
                    assert(keys_view(keys@) == kv);
                },
                None => {
                    proof {
                        lemma_position_absent(kv, key);
                    }
                    keys.push((entry.0.0.duplicate(), entry.0.1.duplicate()));
                    elements.push(entry.1);
                    assert(keys_view(keys@) =~= kv.push(key));
                    assert(elements@ == before_els.push(entry.1));
                    assert forall|a: int, b: int| 0 <= a < b < kv.push(key).len() implies kv.push(key)[a] != kv.push(key)[b] by {
                        if b == kv.len() {
                            assert(kv.contains(kv[a]));
                        }
                    }
                },
            }
            n = n + 1;
        }
        assert(dv.take(n as int) =~= dv);
        InstanceMethodVTable { keys, elements }
    }

    /// The slot of the method (`name`, `descriptor`), if the table has it.
    pub fn lookup(&self, name: &JvmString, descriptor: &MethodDescriptor) -> (res: Option<usize>)
        ensures
            res == (match position(self.keys(), (name@, descriptor@)) {
                Some(i) => Some(i as usize),
                None => None,
            }),
    {
        find_key(&self.keys, name, descriptor)
    }

    /// The element in slot `index`.
    pub fn get_element(&self, index: usize) -> (res: E)
        requires
            self.well_formed(),
            index < self.elements().len(),
        ensures
            res == self.elements()[index as int],
    {
        self.elements[index]
    }

    /// The elements of the methods named `name`, in slot order.
    pub fn elements_for_name(&self, name: &JvmString) -> (res: Vec<E>)
        requires
            self.well_formed(),
        ensures
            res@ == elements_named(self.keys(), self.elements(), name@, self.keys().len() as int),
    {
        let mut out: Vec<E> = Vec::new();
        let mut i: usize = 0;
        while i < self.keys.len()
            invariant
                self.keys@.len() == self.elements@.len(),
                i <= self.keys@.len(),
                out@ == elements_named(keys_view(self.keys@), self.elements@, name@, i as int),
            decreases self.keys@.len() - i,
        {
            assert(keys_view(self.keys@)[i as int] == key_view(self.keys@[i as int]));
            if self.keys[i].0.eq_str(name.as_str()) {
                out.push(self.elements[i]);
            }
            i = i + 1;
        }
        out
    }
}

/// The characters of `java/lang/Object`.
pub open spec fn object_chars() -> Seq<char> {
    seq!['j', 'a', 'v', 'a', '/', 'l', 'a', 'n', 'g', '/', 'O', 'b', 'j', 'e', 'c', 't']
}

/// The key of the `clone` method every array class has:
/// `clone()Ljava/lang/Object;`.
pub open spec fn array_clone_key() -> MethodKey {
    (
        seq!['c', 'l', 'o', 'n', 'e'],
        SpecMethodDescriptor {
            args: Seq::empty(),
            physical_arg_count: 0,
            return_type: SpecDescriptor::Class(object_chars()),
        },
    )
}

/// The instance-method table of an array class: that of `java/lang/Object`
/// (`object_table`) with the array's own `clone()Ljava/lang/Object;`
/// method, `clone_method`, added; it takes the slot of the `clone` it
/// overrides, or a new slot after Object's.
pub fn array_class_vtable<E: Copy>(object_table: &InstanceMethodVTable<E>, clone_method: E) -> (res: InstanceMethodVTable<E>)
    requires
        object_table.well_formed(),
    ensures
        res.well_formed(),
        (res.keys(), res.elements()) == add_methods(
            object_table.keys(),
            object_table.elements(),
            seq![(array_clone_key(), clone_method)],
        ),
        position(res.keys(), array_clone_key()) matches Some(i) && res.elements()[i] == clone_method,
        forall|k: MethodKey| k != array_clone_key() ==> position(res.keys(), k) == position(object_table.keys(), k),
{
    let name = JvmString::from_str("clone");
    let descriptor_chars = JvmString::from_str("()Ljava/lang/Object;");
    let ghost m = array_clone_key().1;
    proof {
        reveal_strlit("clone");
        reveal_strlit("()Ljava/lang/Object;");
        assert(name@ =~= array_clone_key().0);
        assert(spec_method_descriptor_chars(m) =~= descriptor_chars@);
        assert(vstd::utf8::is_ascii_chars(object_chars()));
        assert(!object_chars().contains(';')) by {
            if object_chars().contains(';') {
                let j = choose|j: int| 0 <= j < object_chars().len() && object_chars()[j] == ';';
                assert(object_chars()[j] != ';');
            }
        }
        lemma_method_descriptor_round_trip(m);
        assert(spec_method_descriptor(descriptor_chars@) == Some(m));
        vstd::utf8::is_ascii_chars_encode_utf8(descriptor_chars@);
    }
    let descriptor = match MethodDescriptor::new_from_string(&descriptor_chars) {
        Some(d) => d,
        None => vstd::pervasive::unreached(),
    };
    let data = vec![((name, descriptor), clone_method)];
    let ghost dv = data@.map_values(|d: ((JvmString, MethodDescriptor), E)| (key_view(d.0), d.1));
    assert(dv =~= seq![(array_clone_key(), clone_method)]);
    let res = InstanceMethodVTable::from_parent_and_keys(Some(object_table), data);
    proof {
        let kv = object_table.keys();
        let ev = object_table.elements();
        let key = array_clone_key();
        let d1 = seq![(key, clone_method)];
        assert(d1.drop_last() =~= Seq::<(MethodKey, E)>::empty());
        assert(add_methods(kv, ev, d1.drop_last()) == (kv, ev));
        assert(d1.last() == (key, clone_method));
        assert(add_methods(kv, ev, d1) == (match position(kv, key) {
            Some(i) => (kv, ev.update(i, clone_method)),
            None => (kv.push(key), ev.push(clone_method)),
        }));
        lemma_position_absent(kv, key);
        lemma_position_absent(kv.push(key), key);
        if position(kv, key) is None {
            assert(kv.push(key)[kv.len() as int] == key);
            assert(kv.push(key).contains(key));
            assert forall|k: MethodKey| k != key implies position(kv.push(key), k) == position(kv, k) by {
                lemma_position_push(kv, key, k);
            }
        }
    }
    res
}

/// Appending a key leaves the position of every other key as it was.
proof fn lemma_position_push<K>(keys: Seq<K>, added: K, k: K)
    requires
        k != added,
    ensures
        position(keys.push(added), k) == position(keys, k),
    decreases keys.len(),
{
    assert(keys.push(added)[0] == if keys.len() > 0 { keys[0] } else { added });
    if keys.len() > 0 {
        assert(keys.push(added).drop_first() =~= keys.drop_first().push(added));
        lemma_position_push(keys.drop_first(), added, k);
    } else {
        assert(keys.push(added).drop_first() =~= Seq::<K>::empty());
        assert(position(Seq::<K>::empty(), k) is None);
    }
}

/// The elements, among the first `n` slots, of the methods named `name`.
pub open spec fn elements_named<E>(keys: Seq<MethodKey>, els: Seq<E>, name: Seq<char>, n: int) -> Seq<E>
    decreases n,
{
    if n <= 0 {
        Seq::empty()
    } else {
        let rest = elements_named(keys, els, name, n - 1);
        if keys[n - 1].0 == name {
            rest.push(els[n - 1])
        } else {
            rest
        }
    }
}

/// A key `position` does not find is not among the keys.
proof fn lemma_position_absent<K>(keys: Seq<K>, k: K)
    ensures
        position(keys, k) is None <==> !keys.contains(k),
        position(keys, k) matches Some(i) ==> 0 <= i < keys.len() && keys[i] == k,
    decreases keys.len(),
{
    if keys.len() > 0 {
        lemma_position_absent(keys.drop_first(), k);
        if keys[0] != k {
            if keys.contains(k) {
                let j = choose|j: int| 0 <= j < keys.len() && keys[j] == k;
                assert(keys.drop_first()[j - 1] == k);
            }
        }
    }
}

/// The index of the last of `data` whose key is `k`.
pub open spec fn last_for<E>(data: Seq<(MethodKey, E)>, k: MethodKey) -> Option<int>
    decreases data.len(),
{
    if data.len() == 0 {
        None
    } else if data.last().0 == k {
        Some(data.len() - 1)
    } else {
        last_for(data.drop_last(), k)
    }
}

/// Adding methods to a table keeps its keys as the first keys of the new
/// table (so every inherited method keeps its slot), gives every added
/// method a slot, and keeps the keys distinct and as many as the elements.
pub proof fn lemma_add_methods_keeps_slots<E>(keys: Seq<MethodKey>, els: Seq<E>, data: Seq<(MethodKey, E)>)
    requires
        keys.no_duplicates(),
        keys.len() == els.len(),
    ensures
        add_methods(keys, els, data).0.no_duplicates(),
        add_methods(keys, els, data).0.len() == add_methods(keys, els, data).1.len(),
        keys.len() <= add_methods(keys, els, data).0.len(),
        add_methods(keys, els, data).0.take(keys.len() as int) == keys,
        forall|j: int| 0 <= j < data.len() ==> add_methods(keys, els, data).0.contains(#[trigger] data[j].0),
    decreases data.len(),
{
    if data.len() > 0 {
        let rest = data.drop_last();
        lemma_add_methods_keeps_slots(keys, els, rest);
        let (k2, e2) = add_methods(keys, els, rest);
        let (k, e) = data.last();
        lemma_position_absent(k2, k);
        match position(k2, k) {
            Some(i) => {
                assert forall|j: int| 0 <= j < data.len() implies add_methods(keys, els, data).0.contains(#[trigger] data[j].0) by {
                    if j < rest.len() {
                        assert(rest[j] == data[j]);
                    }
                }
            },
            None => {
                let k3 = k2.push(k);
                assert(k3.take(keys.len() as int) =~= k2.take(keys.len() as int));
                assert forall|a: int, b: int| 0 <= a < b < k3.len() implies k3[a] != k3[b] by {
                    if b == k2.len() {
                        assert(k2.contains(k2[a]));
                    }
                }
                assert forall|j: int| 0 <= j < data.len() implies add_methods(keys, els, data).0.contains(#[trigger] data[j].0) by {
                    if j < rest.len() {
                        assert(rest[j] == data[j]);
                        let x = choose|x: int| 0 <= x < k2.len() && k2[x] == rest[j].0;
                        assert(k3[x] == data[j].0);
                    } else {
                        assert(k3[k2.len() as int] == data[j].0);
                    }
                }
            },
        }
    }
}

/// After adding methods, each slot holds the last added method with that
/// slot's key, or, if none was added, what it held before.
pub proof fn lemma_add_methods_elements<E>(keys: Seq<MethodKey>, els: Seq<E>, data: Seq<(MethodKey, E)>)
    requires
        keys.no_duplicates(),
        keys.len() == els.len(),
    ensures
        forall|i: int| 0 <= i < add_methods(keys, els, data).0.len() ==> #[trigger] add_methods(keys, els, data).1[i] == (
        match last_for(data, add_methods(keys, els, data).0[i]) {
            Some(j) => data[j].1,
            None => els[i],
        }),
        forall|i: int| keys.len() <= i < add_methods(keys, els, data).0.len() ==> last_for(
            data,
            #[trigger] add_methods(keys, els, data).0[i],
        ) is Some,
    decreases data.len(),
{
    if data.len() > 0 {
        let rest = data.drop_last();
        lemma_add_methods_elements(keys, els, rest);
        lemma_add_methods_keeps_slots(keys, els, rest);
        let (k2, e2) = add_methods(keys, els, rest);
        let (k, e) = data.last();
        lemma_position_absent(k2, k);
        let (k3, e3) = add_methods(keys, els, data);
        assert forall|i: int| 0 <= i < k3.len() implies #[trigger] e3[i] == (match last_for(data, k3[i]) {
            Some(j) => data[j].1,
            None => els[i],
        }) by {
            if k3[i] != k {
                assert(last_for(data, k3[i]) == last_for(rest, k3[i]));
                assert(i < k2.len());
                assert(k3[i] == k2[i]);
                if let Some(p) = position(k2, k) {
                    assert(i != p);
                    assert(e3[i] == e2[i]);
                } else {
                    assert(e3[i] == e2[i]);
                }
                if let Some(j) = last_for(rest, k2[i]) {
                    lemma_last_for_range(rest, k2[i]);
                    assert(rest[j] == data[j]);
                }
            } else {
                assert(last_for(data, k) == Some((data.len() - 1) as int));
                if let Some(p) = position(k2, k) {
                    assert(k2[p] == k);
                    assert(k2[i] == k2[p]);
                    assert(i == p);
                } else {
                    assert(i == k2.len());
                }
            }
        }
        assert forall|i: int| keys.len() <= i < k3.len() implies last_for(data, #[trigger] k3[i]) is Some by {
            if k3[i] != k {
                assert(last_for(data, k3[i]) == last_for(rest, k3[i]));
                assert(k3[i] == k2[i]);
            }
        }
    }
}

/// The keys of `data` that `keys` does not hold, each once, in the order
/// of their first appearance in `data`.
pub open spec fn fresh_keys<E>(keys: Seq<MethodKey>, data: Seq<(MethodKey, E)>) -> Seq<MethodKey>
    decreases data.len(),
{
    if data.len() == 0 {
        Seq::empty()
    } else {
        let before = fresh_keys(keys, data.drop_last());
        let k = data.last().0;
        if keys.contains(k) || before.contains(k) {
            before
        } else {
            before.push(k)
        }
    }
}

/// The keys after adding methods are the old keys, then the keys of the
/// added methods that were not there, in the order they first come in
/// `data`: new methods take new slots after the inherited ones, in order,
/// and there are no other keys.
pub proof fn lemma_add_methods_new_slots<E>(keys: Seq<MethodKey>, els: Seq<E>, data: Seq<(MethodKey, E)>)
    ensures
        add_methods(keys, els, data).0 == keys + fresh_keys(keys, data),
    decreases data.len(),
{
    if data.len() > 0 {
        let rest = data.drop_last();
        lemma_add_methods_new_slots(keys, els, rest);
        let (k2, e2) = add_methods(keys, els, rest);
        let k = data.last().0;
        let before = fresh_keys(keys, rest);
        lemma_position_absent(k2, k);
        assert(k2.contains(k) <==> (keys.contains(k) || before.contains(k))) by {
            if k2.contains(k) {
                let j = choose|j: int| 0 <= j < k2.len() && k2[j] == k;
                if j >= keys.len() {
                    assert(before[j - keys.len()] == k);
                }
            }
            if keys.contains(k) {
                let j = choose|j: int| 0 <= j < keys.len() && keys[j] == k;
                assert(k2[j] == k);
            }
            if before.contains(k) {
                let j = choose|j: int| 0 <= j < before.len() && before[j] == k;
                assert(k2[keys.len() + j] == k);
            }
        }
        if !k2.contains(k) {
            assert(k2.push(k) =~= keys + before.push(k));
        }
    }
}

/// `last_for` finds an index of `data` with the key.
proof fn lemma_last_for_range<E>(data: Seq<(MethodKey, E)>, k: MethodKey)
    ensures
        last_for(data, k) matches Some(j) ==> 0 <= j < data.len() && data[j].0 == k,
    decreases data.len(),
{
    if data.len() > 0 {
        lemma_last_for_range(data.drop_last(), k);
    }
}

} // verus!
