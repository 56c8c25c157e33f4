//! The stack of method calls, and the frames a stack trace shows.
use vstd::prelude::*;

use crate::hierarchy::{ClassTable, SpecClass};
use crate::string::JvmString;

verus! {

/// A call on the stack: the method, by the index of its class and its name.
#[derive(Debug)]
pub struct CallEntry {
    pub class: usize,
    pub method_name: JvmString,
}

/// A call as values.
pub open spec fn entry_view(e: CallEntry) -> (usize, Seq<char>) {
    (e.class, e.method_name@)
}

/// The calls as values.
pub open spec fn entries_view(es: Seq<CallEntry>) -> Seq<(usize, Seq<char>)> {
    es.map_values(|e: CallEntry| entry_view(e))
}

/// The stack of calls, the innermost last.
pub struct CallStack {
    entries: Vec<CallEntry>,
}

impl View for CallStack {
    type V = Seq<(usize, Seq<char>)>;

    closed spec fn view(&self) -> Seq<(usize, Seq<char>)> {
        entries_view(self.entries@)
    }
}

/// The frames a stack trace keeps of `es` (innermost first): the
/// constructor frames of `java/lang/Throwable`, and the constructor frames
/// of each subclass of the last class whose constructor frame was left out,
/// are left out.
pub open spec fn trace_frames(t: Seq<SpecClass>, es: Seq<(usize, Seq<char>)>, last: Option<usize>) -> Seq<(usize, Seq<char>)>
    decreases es.len(),
{
    if es.len() == 0 {
        Seq::empty()
    } else {
        let e = es[0];
        let is_init = e.1 == "<init>"@;
        if t[e.0 as int].name == "java/lang/Throwable"@ && is_init {
            trace_frames(t, es.drop_first(), Some(e.0))
        } else if last is Some && t[e.0 as int].super_class == last && is_init {
            trace_frames(t, es.drop_first(), Some(e.0))
        } else {
            seq![e] + trace_frames(t, es.drop_first(), last)
        }
    }
}

/// What follows the first `n` values of `s` (nothing when there are no
/// more than `n`).
pub open spec fn after<A>(s: Seq<A>, n: int) -> Seq<A> {
    if n >= s.len() {
        Seq::empty()
    } else {
        s.skip(n)
    }
}

impl CallStack {
    /// An empty stack.
    pub fn empty() -> (res: Self)
        ensures
            res@ == Seq::<(usize, Seq<char>)>::empty(),
    {
        let res = CallStack { entries: Vec::new() };
        assert(res@ =~= Seq::<(usize, Seq<char>)>::empty());
        res
    }

    /// The number of calls.
    pub fn len(&self) -> (res: usize)
        ensures
            res == self@.len(),
    {
        self.entries.len()
    }

    /// Pushes a call.
    pub fn push_call(&mut self, entry: CallEntry)
        ensures
            final(self)@ == old(self)@.push(entry_view(entry)),
    {
        self.entries.push(entry);
        assert(self@ =~= old(self)@.push(entry_view(entry)));
    }

    /// Pops the innermost call, if any.
    pub fn pop_call(&mut self)
        ensures
            final(self)@ == (if old(self)@.len() == 0 {
                old(self)@
            } else {
                old(self)@.drop_last()
            }),
    {
        let _ = self.entries.pop();
        assert(self@ =~= (if old(self)@.len() == 0 {
            old(self)@
        } else {
            old(self)@.drop_last()
        }));
    }

    /// The calls a stack trace shows, innermost first, leaving out the
    /// `skip_count` innermost calls and the constructor frames of the
    /// exception being built (see `trace_frames`).
    pub fn get_entries(&self, skip_count: usize, classes: &ClassTable) -> (res: Vec<CallEntry>)
        requires
            forall|i: int| 0 <= i < self@.len() ==> #[trigger] self@[i].0 < classes@.len(),
        ensures
            entries_view(res@) == trace_frames(classes@, after(self@.reverse(), skip_count as int), None),
    {
        let ghost t = classes@;
        let ghost all = self@.reverse();
        let mut result: Vec<CallEntry> = Vec::new();
        let mut last_entry_class: Option<usize> = None;
        let n = self.entries.len();
        let start = if skip_count < n {
            skip_count
        } else {
            n
        };
        let mut k = start;
        let ghost total = trace_frames(t, after(all, skip_count as int), None);
        assert(after(all, skip_count as int) =~= all.skip(start as int));
        while k < n
            invariant
                t == classes@,
                all == self@.reverse(),
                n == self@.len(),
                start <= k <= n,
                forall|i: int| 0 <= i < self@.len() ==> #[trigger] self@[i].0 < t.len(),
                total == entries_view(result@) + trace_frames(t, all.skip(k as int), last_entry_class),
            decreases n - k,
        {
            let entry = &self.entries[n - 1 - k];
            let ghost e = all.skip(k as int)[0];
            assert(e == entry_view(*entry));
            assert(all.skip(k as int).drop_first() =~= all.skip(k + 1));
            let class = entry.class;
            let is_init = entry.method_name.eq_str("<init>");
            let class_name = classes.name(class);
            if class_name.eq_str("java/lang/Throwable") && is_init {
                last_entry_class = Some(class);
            } else {
                let mut skip = false;
                if let Some(last) = last_entry_class {
                    if classes.super_class(class) == Some(last) && is_init {
                        last_entry_class = Some(class);
                        skip = true;
                    }
                }
                if !skip {
                    let ghost before = entries_view(result@);
                    result.push(CallEntry { class, method_name: entry.method_name.duplicate() });
                    assert(entries_view(result@) =~= before + seq![e]);
                }
            }
            k = k + 1;
        }
        assert(all.skip(n as int) =~= Seq::<(usize, Seq<char>)>::empty());
        assert(entries_view(result@) =~= total);
        result
    }
}

} // verus!
