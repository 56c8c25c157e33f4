//! `java.lang.System.arraycopy`: copying a run of elements from one array
//! of the heap to another, and the element copies it is made of.
use vstd::prelude::*;

use crate::heap::{array_of, ArrayKind, Heap, SpecArray, SpecObject};
use crate::hierarchy::{spec_check_cast, table_wf, ClassTable, ElementType, SpecClass};
use crate::value::{object_of, Value};

verus! {

/// `dest` with `dest[dest_start..dest_start + len]` replaced by
/// `src[src_start..src_start + len]`.
pub open spec fn spec_copied<T>(src: Seq<T>, dest: Seq<T>, src_start: int, dest_start: int, len: int) -> Seq<T> {
    Seq::new(
        dest.len(),
        |i: int|
            if dest_start <= i < dest_start + len {
                src[src_start + (i - dest_start)]
            } else {
                dest[i]
            },
    )
}

/// Copies `length` elements from `source_data[source_start..]` into
/// `dest_data[dest_start..]`, for two distinct arrays.
pub fn primitive_array_copy<T: Copy>(
    source_data: &[T],
    dest_data: &mut Vec<T>,
    source_start: usize,
    dest_start: usize,
    length: usize,
)
    requires
        source_start + length <= source_data.len(),
        dest_start + length <= old(dest_data).len(),
    ensures
        final(dest_data)@ == spec_copied(
            source_data@,
            old(dest_data)@,
            source_start as int,
            dest_start as int,
            length as int,
        ),
{
    let mut i: usize = 0;
    while i < length
        invariant
            source_start + length <= source_data.len(),
            dest_start + length <= old(dest_data).len(),
            dest_data@.len() == old(dest_data)@.len(),
            0 <= i <= length,
            forall|k: int|
                0 <= k < dest_data@.len() ==> #[trigger] dest_data@[k] == (if dest_start <= k < dest_start + i {
                    source_data@[source_start + (k - dest_start)]
                } else {
                    old(dest_data)@[k]
                }),
        decreases length - i,
    {
        let value = source_data[source_start + i];
        dest_data.set(dest_start + i, value);
        i = i + 1;
    }
    assert(dest_data@ =~= spec_copied(source_data@, old(dest_data)@, source_start as int, dest_start as int, length as int));
}

/// Copies `length` elements from `data[source_start..]` to
/// `data[dest_start..]` within one array; when the two runs overlap the
/// elements are first copied aside, so the result is as if every element
/// were read before any was written.
pub fn primitive_array_copy_within<T: Copy>(
    data: &mut Vec<T>,
    source_start: usize,
    dest_start: usize,
    length: usize,
)
    requires
        source_start + length <= old(data).len(),
        dest_start + length <= old(data).len(),
    ensures
        final(data)@ == spec_copied(
            old(data)@,
            old(data)@,
            source_start as int,
            dest_start as int,
            length as int,
        ),
{
    let dst_start_in_source = source_start <= dest_start && source_start + length > dest_start;
    let src_start_in_dest = dest_start <= source_start && dest_start + length > source_start;
    if dst_start_in_source || src_start_in_dest {
        let mut temp_arr: Vec<T> = Vec::new();
        let mut i: usize = 0;
        while i < length
            invariant
                source_start + length <= data.len(),
                data@ == old(data)@,
                0 <= i <= length,
                temp_arr@ == data@.subrange(source_start as int, source_start + i),
            decreases length - i,
        {
            temp_arr.push(data[source_start + i]);
            i = i + 1;
            assert(temp_arr@ =~= data@.subrange(source_start as int, source_start + i));
        }
        primitive_array_copy(temp_arr.as_slice(), data, 0, dest_start, length);
        assert(data@ =~= spec_copied(old(data)@, old(data)@, source_start as int, dest_start as int, length as int));
    } else {
        let mut i: usize = 0;
        while i < length
            invariant
                source_start + length <= old(data).len(),
                dest_start + length <= old(data).len(),
                !(source_start <= dest_start && source_start + length > dest_start),
                !(dest_start <= source_start && dest_start + length > source_start),
                data@.len() == old(data)@.len(),
                0 <= i <= length,
                forall|k: int|
                    0 <= k < data@.len() ==> #[trigger] data@[k] == (if dest_start <= k < dest_start + i {
                        old(data)@[source_start + (k - dest_start)]
                    } else {
                        old(data)@[k]
                    }),
            decreases length - i,
        {
            let value = data[source_start + i];
            data.set(dest_start + i, value);
            i = i + 1;
        }
        assert(data@ =~= spec_copied(old(data)@, old(data)@, source_start as int, dest_start as int, length as int));
    }
}

// ---------------------------------------------------------------------------
// System.arraycopy on the heap
// ---------------------------------------------------------------------------

/// Why `System.arraycopy` throws.
#[derive(Clone, Copy, Debug, PartialEq, Eq, Structural)]
pub enum ArrayCopyError {
    /// The source or the destination is `null`.
    NullPointerException,
    /// A start or the length is negative, or a run passes an array's end.
    ArrayIndexOutOfBoundsException,
    /// One of the two is no array, their kinds differ, or an element is of
    /// a class the destination cannot hold.
    ArrayStoreException,
}

/// The heap with the first `m` elements of `vals` copied into array `d`
/// from index `ds` on.
pub open spec fn copied_into(h: Seq<SpecObject>, d: u64, vals: Seq<Value>, ds: int, m: int) -> Seq<SpecObject> {
    h.update(
        d as int,
        SpecObject {
            array: Some(
                SpecArray { elements: spec_copied(vals, array_of(h, d).elements, 0, ds, m), ..array_of(h, d) },
            ),
            ..h[d as int]
        },
    )
}

/// The first of the values `vals` from `i` on that is an object whose class
/// does not cast to class `e`.
pub open spec fn first_rejected(h: Seq<SpecObject>, t: Seq<SpecClass>, vals: Seq<Value>, e: usize, i: int) -> Option<int>
    decreases vals.len() - i,
{
    if i < 0 || i >= vals.len() {
        None
    } else if (object_of(vals[i]) matches Some(o) && !spec_check_cast(t, h[o as int].class as int, e as int)) {
        Some(i)
    } else {
        first_rejected(h, t, vals, e, i + 1)
    }
}

/// Every object among `vals` is in the heap, of a class of the table.
pub open spec fn objects_known(h: Seq<SpecObject>, t: Seq<SpecClass>, vals: Seq<Value>) -> bool {
    forall|i: int|
        0 <= i < vals.len() ==> (#[trigger] object_of(vals[i]) matches Some(o) ==> o < h.len() && h[o as int].class < t.len())
}

/// What `System.arraycopy(src, ss, dest, ds, len)` does to heap `h`, the
/// classes being `t`, checking in this order: a `null` source or
/// destination throws `NullPointerException`; a negative start or length
/// `ArrayIndexOutOfBoundsException`; a source or destination that is no
/// array `ArrayStoreException`; a run past the end of either array
/// `ArrayIndexOutOfBoundsException`; arrays of different kinds
/// `ArrayStoreException`. Otherwise the elements are read first and then
/// written in order; into an array of objects, an element that is an
/// object whose class does not cast to the destination's element class
/// throws `ArrayStoreException`, the elements before it written. `None`
/// where an object number is not in the heap or a class not in the table.
pub open spec fn spec_array_copy(
    h: Seq<SpecObject>,
    t: Seq<SpecClass>,
    src: Option<u64>,
    ss: i32,
    dest: Option<u64>,
    ds: i32,
    len: i32,
) -> Option<(Result<(), ArrayCopyError>, Seq<SpecObject>)> {
    match (src, dest) {
        (None, _) | (_, None) => Some((Err(ArrayCopyError::NullPointerException), h)),
        (Some(s), Some(d)) => if ss < 0 || ds < 0 || len < 0 {
            Some((Err(ArrayCopyError::ArrayIndexOutOfBoundsException), h))
        } else if !(s < h.len() && d < h.len()) {
            None
        } else if h[s as int].array is None || h[d as int].array is None {
            Some((Err(ArrayCopyError::ArrayStoreException), h))
        } else if ss + len > array_of(h, s).elements.len() || ds + len > array_of(h, d).elements.len() {
            Some((Err(ArrayCopyError::ArrayIndexOutOfBoundsException), h))
        } else if array_of(h, s).kind != array_of(h, d).kind {
            Some((Err(ArrayCopyError::ArrayStoreException), h))
        } else {
            let vals = array_of(h, s).elements.subrange(ss as int, ss + len);
            if array_of(h, d).kind != ArrayKind::Object {
                Some((Ok(()), copied_into(h, d, vals, ds as int, len as int)))
            } else {
                let dc = h[d as int].class;
                if !(dc < t.len() && objects_known(h, t, vals)) {
                    None
                } else {
                    match t[dc as int].array_value {
                        Some(ElementType::Reference(e)) => match first_rejected(h, t, vals, e, 0) {
                            None => Some((Ok(()), copied_into(h, d, vals, ds as int, len as int))),
                            Some(m) => Some((Err(ArrayCopyError::ArrayStoreException), copied_into(h, d, vals, ds as int, m))),
                        },
                        _ => None,
                    }
                }
            }
        },
    }
}

/// `java.lang.System.arraycopy` (see `spec_array_copy`).
#[verifier::loop_isolation(false)]
pub fn array_copy(
    heap: &mut Heap,
    classes: &ClassTable,
    src: Option<u64>,
    src_start: i32,
    dest: Option<u64>,
    dest_start: i32,
    len: i32,
) -> (res: Result<(), ArrayCopyError>)
    requires
        table_wf(classes@),
        spec_array_copy(old(heap)@, classes@, src, src_start, dest, dest_start, len) is Some,
    ensures
        spec_array_copy(old(heap)@, classes@, src, src_start, dest, dest_start, len) == Some((res, final(heap)@)),
{
    let (s, d) = match (src, dest) {
        (Some(s), Some(d)) => (s, d),
        _ => return Err(ArrayCopyError::NullPointerException),
    };
    if src_start < 0 || dest_start < 0 || len < 0 {
        return Err(ArrayCopyError::ArrayIndexOutOfBoundsException);
    }
    let (src_kind, src_len) = match heap.array(s) {
        Some(a) => (a.kind(), a.len()),
        None => return Err(ArrayCopyError::ArrayStoreException),
    };
    let (dest_kind, dest_len) = match heap.array(d) {
        Some(a) => (a.kind(), a.len()),
        None => return Err(ArrayCopyError::ArrayStoreException),
    };
    let ss = src_start as usize;
    let ds = dest_start as usize;
    let n = len as usize;
    if ss as u64 + n as u64 > src_len as u64 || ds as u64 + n as u64 > dest_len as u64 {
        return Err(ArrayCopyError::ArrayIndexOutOfBoundsException);
    }
    if src_kind != dest_kind {
        return Err(ArrayCopyError::ArrayStoreException);
    }
    let ghost h0 = heap@;
    let mut vals: Vec<Value> = Vec::new();
    let mut i: usize = 0;
    while i < n
        invariant
            heap@ == h0,
            s < h0.len(),
            h0[s as int].array is Some,
            ss + n <= array_of(h0, s).elements.len(),
            src_len == array_of(h0, s).elements.len(),
            i <= n,
            vals@ =~= array_of(h0, s).elements.subrange(ss as int, ss + i),
        decreases n - i,
    {
        let v = match heap.array(s) {
            Some(a) => a.get(ss + i),
            None => vstd::pervasive::unreached(),
        };
        vals.push(v);
        i = i + 1;
    }
    let element = if dest_kind == ArrayKind::Object {
        let dc = heap.class_of(d);
        proof {
            assert(crate::hierarchy::class_wf(classes@, dc as int));
        }
        match classes.array_value_type(dc) {
            Some(ElementType::Reference(e)) => Some(e),
            _ => vstd::pervasive::unreached(),
        }
    } else {
        None
    };
    proof {
        assert(copied_into(h0, d, vals@, ds as int, 0) =~= h0) by {
            assert(spec_copied(vals@, array_of(h0, d).elements, 0, ds as int, 0) =~= array_of(h0, d).elements);
        }
    }
    let mut k: usize = 0;
    while k < n
        invariant
            table_wf(classes@),
            d < h0.len(),
            h0[d as int].array is Some,
            ds + n <= array_of(h0, d).elements.len(),
            dest_len == array_of(h0, d).elements.len(),
            vals@.len() == n,
            k <= n,
            heap@ == copied_into(h0, d, vals@, ds as int, k as int),
            element is None ==> array_of(h0, d).kind != ArrayKind::Object,
            element matches Some(e) ==> {
                &&& array_of(h0, d).kind == ArrayKind::Object
                &&& h0[d as int].class < classes@.len()
                &&& classes@[h0[d as int].class as int].array_value == Some(ElementType::Reference(e))
                &&& objects_known(h0, classes@, vals@)
                &&& e < classes@.len()
                &&& first_rejected(h0, classes@, vals@, e, 0) == first_rejected(h0, classes@, vals@, e, k as int)
            },
        decreases n - k,
    {
        let v = vals[k];
        if let Some(e) = element {
            if let Value::Reference(Some(o)) = v {
                assert(copied_into(h0, d, vals@, ds as int, k as int)[o as int].class == h0[o as int].class);
                let vc = heap.class_of(o);
                if !classes.check_cast(vc, e) {
                    assert(first_rejected(h0, classes@, vals@, e, k as int) == Some(k as int));
                    return Err(ArrayCopyError::ArrayStoreException);
                }
            }
        }
        heap.set_element(d, ds + k, v);
        proof {
            let hk = copied_into(h0, d, vals@, ds as int, k as int);
            assert(array_of(hk, d).elements =~= spec_copied(vals@, array_of(h0, d).elements, 0, ds as int, k as int));
            assert(spec_copied(vals@, array_of(h0, d).elements, 0, ds as int, k as int).update(ds + k, v)
                =~= spec_copied(vals@, array_of(h0, d).elements, 0, ds as int, k + 1));
            assert(heap@ =~= copied_into(h0, d, vals@, ds as int, k + 1));
        }
        k = k + 1;
    }
    Ok(())
}

} // verus!
