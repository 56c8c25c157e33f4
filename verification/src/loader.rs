//! Class loaders: each with a parent (but the bootstrap loader) and a
//! registry of the classes it defined, by name; and the order in which a
//! loader looks for a class or a resource.
use vstd::prelude::*;

use crate::index_table::{name_table_contents, name_table_get, name_table_insert, name_table_new, no_names, NameTable};
use crate::string::JvmString;
use vstd::utf8::encode_utf8;

verus! {

/// Why a class cannot be defined.
#[derive(Clone, Copy, Debug, PartialEq, Eq, Structural)]
pub enum LoaderError {
    /// The loader already defined a class of that name.
    DuplicateClass,
}

/// A class loader: its parent and the classes it defined.
struct LoaderRecord {
    parent: Option<usize>,
    classes: NameTable,
}

/// A loader as values: its parent, and the index of each class it defined,
/// by the UTF-8 bytes of the class's name.
pub struct SpecLoader {
    pub parent: Option<usize>,
    pub classes: Map<Seq<u8>, usize>,
}

/// The class loaders of a runtime, by index; the bootstrap loader is the
/// first.
pub struct ClassLoaders {
    loaders: Vec<LoaderRecord>,
}

/// The value of a loader.
spec fn loader_view(l: LoaderRecord) -> SpecLoader {
    SpecLoader { parent: l.parent, classes: name_table_contents(l.classes) }
}

impl View for ClassLoaders {
    type V = Seq<SpecLoader>;

    closed spec fn view(&self) -> Seq<SpecLoader> {
        self.loaders@.map_values(|l: LoaderRecord| loader_view(l))
    }
}

/// Every loader's parent comes before it, and the bootstrap loader has none.
pub open spec fn loaders_wf(ls: Seq<SpecLoader>) -> bool {
    &&& ls.len() >= 1
    &&& ls[0].parent is None
    &&& forall|i: int| 0 <= i < ls.len() ==> (#[trigger] ls[i].parent matches Some(p) ==> p < i)
}

/// The class loader `l` defined under `name`, if any.
pub open spec fn registered(ls: Seq<SpecLoader>, l: int, name: Seq<char>) -> Option<usize> {
    if ls[l].classes.contains_key(encode_utf8(name)) {
        Some(ls[l].classes[encode_utf8(name)])
    } else {
        None
    }
}

/// The class of that name that loader `l` or one of its ancestors defined,
/// the nearest first.
pub open spec fn registered_in_chain(ls: Seq<SpecLoader>, l: int, name: Seq<char>) -> Option<usize>
    decreases l,
{
    if !(0 <= l < ls.len()) {
        None
    } else {
        match registered(ls, l, name) {
            Some(c) => Some(c),
            None => match ls[l].parent {
                Some(p) => if p < l {
                    registered_in_chain(ls, p as int, name)
                } else {
                    None
                },
                None => None,
            },
        }
    }
}

/// Loader `l` and its ancestors, `l` first.
pub open spec fn ancestry(ls: Seq<SpecLoader>, l: int) -> Seq<usize>
    decreases l,
{
    if !(0 <= l < ls.len()) {
        Seq::empty()
    } else {
        match ls[l].parent {
            Some(p) => if p < l {
                seq![l as usize] + ancestry(ls, p as int)
            } else {
                seq![l as usize]
            },
            None => seq![l as usize],
        }
    }
}

impl ClassLoaders {
    /// The bootstrap loader alone, with no classes.
    pub fn bootstrap() -> (res: Self)
        ensures
            loaders_wf(res@),
            res@ == seq![SpecLoader { parent: None, classes: no_names() }],
    {
        let mut loaders: Vec<LoaderRecord> = Vec::new();
        loaders.push(LoaderRecord { parent: None, classes: name_table_new() });
        let res = ClassLoaders { loaders };
        assert(res@ =~= seq![SpecLoader { parent: None, classes: no_names() }]);
        res
    }

    /// The number of loaders.
    pub fn len(&self) -> (res: usize)
        ensures
            res == self@.len(),
    {
        self.loaders.len()
    }

    /// The parent of loader `l`.
    pub fn parent(&self, l: usize) -> (res: Option<usize>)
        requires
            l < self@.len(),
        ensures
            res == self@[l as int].parent,
    {
        self.loaders[l].parent
    }

    /// Adds a loader with parent `parent` and gives its index.
    pub fn with_parent(&mut self, parent: usize) -> (res: usize)
        requires
            loaders_wf(old(self)@),
            parent < old(self)@.len(),
        ensures
            loaders_wf(final(self)@),
            res == old(self)@.len(),
            final(self)@ == old(self)@.push(SpecLoader { parent: Some(parent), classes: no_names() }),
    {
        let n = self.loaders.len();
        let ghost before = self@;
        let record = LoaderRecord { parent: Some(parent), classes: name_table_new() };
        let ghost rv = loader_view(record);
        self.loaders.push(record);
        assert(self@ =~= before.push(rv));
        n
    }

    /// The class loader `l` defined under `name`, if any.
    pub fn find_loaded_class(&self, l: usize, name: &JvmString) -> (res: Option<usize>)
        requires
            loaders_wf(self@),
            l < self@.len(),
        ensures
            res == registered(self@, l as int, name@),
    {
        let record = &self.loaders[l];
        assert(loader_view(*record) == self@[l as int]);
        name_table_get(&record.classes, name.as_str().as_bytes())
    }

    /// Registers class `class` under `name` with loader `l`; refuses a
    /// second class of one name.
    pub fn define_class(&mut self, l: usize, name: JvmString, class: usize) -> (res: Result<(), LoaderError>)
        requires
            loaders_wf(old(self)@),
            l < old(self)@.len(),
        ensures
            loaders_wf(final(self)@),
            registered(old(self)@, l as int, name@) is Some ==> res == Err::<(), LoaderError>(LoaderError::DuplicateClass)
                && final(self)@ == old(self)@,
            registered(old(self)@, l as int, name@) is None ==> res is Ok && final(self)@ == old(self)@.update(
                l as int,
                SpecLoader {
                    parent: old(self)@[l as int].parent,
                    classes: old(self)@[l as int].classes.insert(encode_utf8(name@), class),
                },
            ),
    {
        if self.find_loaded_class(l, &name).is_some() {
            return Err(LoaderError::DuplicateClass);
        }
        let ghost before = self@;
        let ghost key = encode_utf8(name@);
        let bytes = vstd::slice::slice_to_vec(name.as_str().as_bytes());
        let mut record = self.loaders.remove(l);
        assert(loader_view(record) == before[l as int]);
        name_table_insert(&mut record.classes, bytes, class);
        let ghost updated = SpecLoader { parent: before[l as int].parent, classes: before[l as int].classes.insert(key, class) };
        assert(loader_view(record) == updated);
        self.loaders.insert(l, record);
        assert(self@ =~= before.update(l as int, updated));
        assert forall|i: int| 0 <= i < self@.len() implies (#[trigger] self@[i].parent matches Some(p) ==> p < i) by {
            assert(self@[i].parent == before[i].parent);
        }
        Ok(())
    }

    /// The class of that name that loader `l` or one of its ancestors
    /// defined, the nearest first: the first place a lookup through `l`
    /// looks.
    pub fn find_in_chain(&self, l: usize, name: &JvmString) -> (res: Option<usize>)
        requires
            loaders_wf(self@),
            l < self@.len(),
        ensures
            res == registered_in_chain(self@, l as int, name@),
        decreases l,
    {
        match self.find_loaded_class(l, name) {
            Some(c) => Some(c),
            None => match self.loaders[l].parent {
                Some(p) => {
                    assert(self@[l as int].parent == Some(p));
                    self.find_in_chain(p, name)
                },
                None => None,
            },
        }
    }

    /// Loader `l` and its ancestors, `l` first: the order in which a
    /// resource is looked for; a class not yet defined is looked for in the
    /// reverse order, the bootstrap loader first.
    pub fn ancestry(&self, l: usize) -> (res: Vec<usize>)
        requires
            loaders_wf(self@),
            l < self@.len(),
        ensures
            res@ == ancestry(self@, l as int),
        decreases l,
    {
        let mut out: Vec<usize> = Vec::new();
        out.push(l);
        match self.loaders[l].parent {
            Some(p) => {
                assert(self@[l as int].parent == Some(p));
                let rest = self.ancestry(p);
                let mut i: usize = 0;
                while i < rest.len()
                    invariant
                        i <= rest@.len(),
                        out@ == seq![l] + rest@.take(i as int),
                    decreases rest@.len() - i,
                {
                    out.push(rest[i]);
                    assert(rest@.take(i + 1) =~= rest@.take(i as int).push(rest@[i as int]));
                    i = i + 1;
                }
                assert(rest@.take(i as int) =~= rest@);
            },
            None => {
                assert(self@[l as int].parent is None);
            },
        }
        assert(out@ =~= ancestry(self@, l as int));
        out
    }
}

} // verus!
