//! A method's `Code` attribute: its limits, its ops, its exception table,
//! and the verdict of the verifier on them.
use vstd::prelude::*;

use crate::classfile::attribute::{attributes_view, Attribute, SpecAttribute};
use crate::classfile::constant_pool::{spec_get_class, ConstantPool, SpecEntry};
use crate::classfile::error::error_of_read;
use crate::decode::{next_u16, ops_view, small_enough, spec_read_ops, DecodeError};
use crate::descriptor::{MethodDescriptor, SpecDescriptor};
use crate::index_table::{index_table_contents, index_table_get, IndexTable};
use crate::op::{Exception, Op, SpecOp};
use crate::reader::{spec_u16_be, FileData};
use crate::string::JvmString;
use crate::verify::{
    args_admissible, falls_off, method_total, ops_admissible, resolved_blocks, spec_basic_blocks,
    spec_entry_frame, start_table, state_fails, state_passes, state_reachable, verify_ops,
    AbstractFrame, VerifyError,
};

verus! {

// ---------------------------------------------------------------------------
// Finding the code
// ---------------------------------------------------------------------------

/// The name of the attribute that holds a method's code.
pub open spec fn code_name() -> Seq<char> {
    seq!['C', 'o', 'd', 'e']
}

/// The payload of the last `Code` attribute among `attrs`, if any.
pub open spec fn spec_code_data(attrs: Seq<SpecAttribute>) -> Option<Seq<u8>>
    decreases attrs.len(),
{
    if attrs.len() == 0 {
        None
    } else if attrs.last().name == code_name() {
        Some(attrs.last().data)
    } else {
        spec_code_data(attrs.drop_last())
    }
}

/// The payload of the method's `Code` attribute (the last one, if there are
/// several), copied; `None` for a method without code.
pub fn code_data(attributes: &[Attribute]) -> (res: Option<Vec<u8>>)
    ensures
        match res {
            Some(v) => spec_code_data(attributes_view(attributes@)) == Some(v@),
            None => spec_code_data(attributes_view(attributes@)) is None,
        },
{
    let ghost all = attributes_view(attributes@);
    let mut raw_code_data: Option<Vec<u8>> = None;
    let mut i: usize = 0;
    proof {
        reveal_strlit("Code");
    }
    assert("Code"@ =~= code_name());
    while i < attributes.len()
        invariant
            all == attributes_view(attributes@),
            0 <= i <= attributes@.len(),
            "Code"@ == code_name(),
            match raw_code_data {
                Some(v) => spec_code_data(all.take(i as int)) == Some(v@),
                None => spec_code_data(all.take(i as int)) is None,
            },
        decreases attributes@.len() - i,
    {
        let attribute = &attributes[i];
        assert(all.take(i + 1).drop_last() =~= all.take(i as int));
        assert(all.take(i + 1).last() == attribute@);
        if attribute.name().eq_str("Code") {
            raw_code_data = Some(vstd::slice::slice_to_vec(attribute.data()));
        }
        i = i + 1;
    }
    assert(all.take(i as int) =~= all);
    raw_code_data
}

// ---------------------------------------------------------------------------
// The exception table
// ---------------------------------------------------------------------------

/// An exception handler as values.
pub struct SpecHandler {
    pub start: usize,
    pub end: usize,
    pub target: usize,
    pub catch_class: Option<Seq<char>>,
}

/// The value of a handler.
pub open spec fn handler_view(e: Exception) -> SpecHandler {
    SpecHandler {
        start: e.start,
        end: e.end,
        target: e.target,
        catch_class: match e.catch_class {
            Some(c) => Some(c@),
            None => None,
        },
    }
}

/// The values of a list of handlers.
pub open spec fn handlers_view(es: Seq<Exception>) -> Seq<SpecHandler> {
    es.map_values(|e: Exception| handler_view(e))
}

/// Reading one entry of the exception table at `p`: the byte offsets of
/// the start, the end and the handler, each turned into an op index through
/// `map` (`ClassNotThrowable` where no op starts there), then the constant-pool
/// index of the class caught, `0` for every class. `None` where the index is
/// past the pool.
pub open spec fn spec_read_handler(pool: Seq<SpecEntry>, d: Seq<u8>, p: int, map: Map<usize, usize>) -> Option<
    Result<(SpecHandler, int), DecodeError>,
> {
    match spec_u16_be(d, p) {
        Err(e) => Some(Err(DecodeError::ClassFile(error_of_read(e)))),
        Ok((s, p1)) => match spec_u16_be(d, p1) {
            Err(e) => Some(Err(DecodeError::ClassFile(error_of_read(e)))),
            Ok((en, p2)) => match spec_u16_be(d, p2) {
                Err(e) => Some(Err(DecodeError::ClassFile(error_of_read(e)))),
                Ok((t, p3)) => if !map.contains_key(s as usize) || !map.contains_key(en as usize)
                    || !map.contains_key(t as usize) {
                    Some(Err(DecodeError::ClassNotThrowable))
                } else {
                    match spec_u16_be(d, p3) {
                        Err(e) => Some(Err(DecodeError::ClassFile(error_of_read(e)))),
                        Ok((ci, p4)) => {
                            let h = SpecHandler {
                                start: map[s as usize],
                                end: map[en as usize],
                                target: map[t as usize],
                                catch_class: None,
                            };
                            if ci == 0 {
                                Some(Ok((h, p4)))
                            } else {
                                match spec_get_class(pool, ci) {
                                    None => None,
                                    Some(Err(e)) => Some(Err(DecodeError::ClassFile(e))),
                                    Some(Ok(n)) => Some(Ok((SpecHandler { catch_class: Some(n), ..h }, p4))),
                                }
                            }
                        },
                    }
                },
            },
        },
    }
}

/// Reading `n` more entries from `p`, after the handlers `acc`.
pub open spec fn spec_read_handlers_from(
    pool: Seq<SpecEntry>,
    d: Seq<u8>,
    p: int,
    n: nat,
    map: Map<usize, usize>,
    acc: Seq<SpecHandler>,
) -> Option<Result<(Seq<SpecHandler>, int), DecodeError>>
    decreases n,
{
    if n == 0 {
        Some(Ok((acc, p)))
    } else {
        match spec_read_handler(pool, d, p, map) {
            None => None,
            Some(Err(e)) => Some(Err(e)),
            Some(Ok((h, q))) => spec_read_handlers_from(pool, d, q, (n - 1) as nat, map, acc.push(h)),
        }
    }
}

/// Reading an exception table at `p`: a `u16` count, then the entries.
pub open spec fn spec_read_exceptions(pool: Seq<SpecEntry>, d: Seq<u8>, p: int, map: Map<usize, usize>) -> Option<
    Result<(Seq<SpecHandler>, int), DecodeError>,
> {
    match spec_u16_be(d, p) {
        Err(e) => Some(Err(DecodeError::ClassFile(error_of_read(e)))),
        Ok((count, q)) => spec_read_handlers_from(pool, d, q, count as nat, map, Seq::empty()),
    }
}

/// Reads one entry of an exception table.
fn read_handler(constant_pool: &ConstantPool, data: &mut FileData<'_>, offset_to_idx_map: &IndexTable) -> (res: Result<
    Exception,
    DecodeError,
>)
    requires
        old(data).pos() <= old(data).bytes().len(),
        small_enough(old(data).bytes().len() as int),
        spec_read_handler(constant_pool@, old(data).bytes(), old(data).pos(), index_table_contents(*offset_to_idx_map)) is Some,
    ensures
        final(data).bytes() == old(data).bytes(),
        match spec_read_handler(constant_pool@, old(data).bytes(), old(data).pos(), index_table_contents(*offset_to_idx_map)) {
            Some(Ok((h, q))) => res matches Ok(e) && handler_view(e) == h && final(data).pos() == q,
            Some(Err(e)) => res == Err::<Exception, DecodeError>(e),
            None => false,
        },
{
    let start_offset = next_u16(data)?;
    let end_offset = next_u16(data)?;
    let target_offset = next_u16(data)?;
    let start = match index_table_get(offset_to_idx_map, start_offset as usize) {
        Some(x) => x,
        None => return Err(DecodeError::ClassNotThrowable),
    };
    let end = match index_table_get(offset_to_idx_map, end_offset as usize) {
        Some(x) => x,
        None => return Err(DecodeError::ClassNotThrowable),
    };
    let target = match index_table_get(offset_to_idx_map, target_offset as usize) {
        Some(x) => x,
        None => return Err(DecodeError::ClassNotThrowable),
    };
    let class_idx = next_u16(data)?;
    let catch_class = if class_idx != 0 {
        match constant_pool.get_class(class_idx) {
            Ok(name) => Some(name),
            Err(e) => return Err(DecodeError::ClassFile(e)),
        }
    } else {
        None
    };
    Ok(Exception { start, end, target, catch_class })
}

/// Reads a method's exception table at the cursor: a `u16` count, then for
/// each entry the byte offsets of the covered range and of the handler
/// (turned into op indices through `offset_to_idx_map`) and the class caught,
/// by name, or `None` for every class.
pub fn read_exceptions(constant_pool: &ConstantPool, data: &mut FileData<'_>, offset_to_idx_map: &IndexTable) -> (res: Result<
    Vec<Exception>,
    DecodeError,
>)
    requires
        old(data).pos() <= old(data).bytes().len(),
        small_enough(old(data).bytes().len() as int),
        spec_read_exceptions(constant_pool@, old(data).bytes(), old(data).pos(), index_table_contents(*offset_to_idx_map)) is Some,
    ensures
        final(data).bytes() == old(data).bytes(),
        match spec_read_exceptions(constant_pool@, old(data).bytes(), old(data).pos(), index_table_contents(*offset_to_idx_map)) {
            Some(Ok((hs, q))) => res matches Ok(v) && handlers_view(v@) == hs && final(data).pos() == q,
            Some(Err(e)) => res == Err::<Vec<Exception>, DecodeError>(e),
            None => false,
        },
{
    let ghost pool = constant_pool@;
    let ghost d = data.bytes();
    let ghost map = index_table_contents(*offset_to_idx_map);
    let count = next_u16(data)?;
    let ghost total = spec_read_handlers_from(pool, d, data.pos(), count as nat, map, Seq::empty());
    assert(spec_read_exceptions(pool, d, old(data).pos(), map) == total);
    let mut exceptions: Vec<Exception> = Vec::new();
    let mut i: u16 = 0;
    assert(handlers_view(exceptions@) =~= Seq::<SpecHandler>::empty());
    while i < count
        invariant
            pool == constant_pool@,
            d == data.bytes(),
            d == old(data).bytes(),
            map == index_table_contents(*offset_to_idx_map),
            small_enough(d.len() as int),
            0 <= data.pos() <= d.len(),
            i <= count,
            total is Some,
            spec_read_exceptions(pool, d, old(data).pos(), map) == total,
            total == spec_read_handlers_from(pool, d, data.pos(), (count - i) as nat, map, handlers_view(exceptions@)),
        decreases count - i,
    {
        let ghost before = handlers_view(exceptions@);
        let ghost p = data.pos();
        let e = match read_handler(constant_pool, data, offset_to_idx_map) {
            Ok(e) => e,
            Err(err) => {
                assert(spec_read_handler(pool, d, p, map) == Some(Err::<(SpecHandler, int), DecodeError>(err)));
                assert(total == Some(Err::<(Seq<SpecHandler>, int), DecodeError>(err)));
                return Err(err);
            },
        };
        let ghost h = handler_view(e);
        exceptions.push(e);
        assert(handlers_view(exceptions@) =~= before.push(h));
        i = i + 1;
    }
    Ok(exceptions)
}

// ---------------------------------------------------------------------------
// The whole `Code` attribute
// ---------------------------------------------------------------------------

/// Why a method body cannot be run.
#[derive(Clone, Copy, Debug, PartialEq, Eq, Structural)]
pub enum MethodError {
    /// The body does not decode.
    Decode(DecodeError),
    /// The verifier rejects the body.
    Verify(VerifyError),
}

/// A decoded and verified method body.
#[derive(Debug)]
pub struct BytecodeMethodInfo {
    pub max_stack: u16,
    pub max_locals: u16,
    pub code: Vec<Op>,
    pub exceptions: Vec<Exception>,
}

/// Decoding the data of a `Code` attribute: `max_stack` and `max_locals`
/// (`u16` each), the ops, then the exception table.
pub open spec fn spec_code_parts(pool: Seq<SpecEntry>, ret: SpecDescriptor, d: Seq<u8>) -> Option<
    Result<(u16, u16, Seq<SpecOp>, Seq<SpecHandler>), DecodeError>,
> {
    match spec_u16_be(d, 0) {
        Err(e) => Some(Err(DecodeError::ClassFile(error_of_read(e)))),
        Ok((ms, p1)) => match spec_u16_be(d, p1) {
            Err(e) => Some(Err(DecodeError::ClassFile(error_of_read(e)))),
            Ok((ml, p2)) => match spec_read_ops(pool, ret, d, p2) {
                None => None,
                Some(Err(e)) => Some(Err(e)),
                Some(Ok((ops, map, p3))) => match spec_read_exceptions(pool, d, p3, map) {
                    None => None,
                    Some(Err(e)) => Some(Err(e)),
                    Some(Ok((hs, _))) => Some(Ok((ms, ml, ops, hs))),
                },
            },
        },
    }
}

/// The verifier accepts `ops` with handlers `exc`: no path runs off the
/// end, the arguments fit in the locals, and every (block, frame) pair
/// reachable from the entry runs without error.
pub open spec fn spec_accepts(
    ops: Seq<Op>,
    exc: Seq<Exception>,
    is_static: bool,
    args: Seq<SpecDescriptor>,
    max_stack: nat,
    max_locals: nat,
) -> bool {
    &&& !falls_off(ops, exc)
    &&& match spec_entry_frame(is_static, args, max_locals) {
        Err(_) => false,
        Ok(f0) => forall|st: (usize, AbstractFrame)|
            #[trigger] state_reachable(ops, resolved_blocks(ops, exc), start_table(spec_basic_blocks(ops, exc)), max_stack, f0, st)
                ==> state_passes(ops, resolved_blocks(ops, exc), start_table(spec_basic_blocks(ops, exc)), max_stack, st),
    }
}

/// The verifier may reject `ops` with handlers `exc` with `e`: a path runs
/// off the end (`CodeFellOffMethod`), or the arguments do not fit in the
/// locals, or a reachable (block, frame) pair fails with `e`.
pub open spec fn spec_rejects_with(
    ops: Seq<Op>,
    exc: Seq<Exception>,
    is_static: bool,
    args: Seq<SpecDescriptor>,
    max_stack: nat,
    max_locals: nat,
    e: VerifyError,
) -> bool {
    if falls_off(ops, exc) {
        e == VerifyError::CodeFellOffMethod
    } else {
        match spec_entry_frame(is_static, args, max_locals) {
            Err(e2) => e == e2,
            Ok(f0) => exists|st: (usize, AbstractFrame)|
                #[trigger] state_reachable(ops, resolved_blocks(ops, exc), start_table(spec_basic_blocks(ops, exc)), max_stack, f0, st)
                    && state_fails(ops, resolved_blocks(ops, exc), start_table(spec_basic_blocks(ops, exc)), max_stack, st, e),
        }
    }
}

/// Whether the verifier can be run on every body whose ops and handlers
/// have the values decoding gives: every op is one the verifier models and
/// the run over the body is defined.
pub open spec fn verifiable(
    parts: Option<Result<(u16, u16, Seq<SpecOp>, Seq<SpecHandler>), DecodeError>>,
    is_static: bool,
    args: Seq<SpecDescriptor>,
) -> bool {
    forall|code: Seq<Op>, exc: Seq<Exception>|
        #![trigger ops_view(code), handlers_view(exc)]
        match parts {
            Some(Ok((ms, ml, ops, hs))) => ops_view(code) == ops && handlers_view(exc) == hs ==> {
                &&& code.len() < usize::MAX
                &&& ops_admissible(code, 0, code.len() as int)
                &&& method_total(code, exc, is_static, args, ms as nat, ml as nat)
            },
            _ => true,
        }
}

impl BytecodeMethodInfo {
    /// Decodes the data of a method's `Code` attribute (its ops' references
    /// resolved against `constant_pool`, its return ops checked against the
    /// descriptor's return type) and runs the verifier on it, for a static
    /// method or not as `is_static` says.
    pub fn from_code_data(constant_pool: &ConstantPool, is_static: bool, descriptor: &MethodDescriptor, data: &[u8]) -> (res: Result<
        Self,
        MethodError,
    >)
        requires
            small_enough(data@.len() as int),
            spec_code_parts(constant_pool@, descriptor@.return_type, data@) is Some,
            args_admissible(descriptor@.args),
            verifiable(spec_code_parts(constant_pool@, descriptor@.return_type, data@), is_static, descriptor@.args),
        ensures
            match spec_code_parts(constant_pool@, descriptor@.return_type, data@) {
                Some(Err(e)) => res == Err::<Self, MethodError>(MethodError::Decode(e)),
                Some(Ok((ms, ml, ops, hs))) => match res {
                    Ok(info) => {
                        &&& info.max_stack == ms
                        &&& info.max_locals == ml
                        &&& ops_view(info.code@) == ops
                        &&& handlers_view(info.exceptions@) == hs
                        &&& spec_accepts(info.code@, info.exceptions@, is_static, descriptor@.args, ms as nat, ml as nat)
                    },
                    Err(MethodError::Verify(e)) => exists|code: Seq<Op>, exc: Seq<Exception>|
                        #![trigger ops_view(code), handlers_view(exc)]
                        ops_view(code) == ops && handlers_view(exc) == hs
                            && spec_rejects_with(code, exc, is_static, descriptor@.args, ms as nat, ml as nat, e),
                    Err(MethodError::Decode(_)) => false,
                },
                None => false,
            },
    {
        let ghost pool = constant_pool@;
        let ghost ret = descriptor@.return_type;
        let ghost parts = spec_code_parts(pool, ret, data@);
        let mut reader = FileData::new(data);
        let max_stack = match next_u16(&mut reader) {
            Ok(v) => v,
            Err(e) => return Err(MethodError::Decode(e)),
        };
        let max_locals = match next_u16(&mut reader) {
            Ok(v) => v,
            Err(e) => return Err(MethodError::Decode(e)),
        };
        let return_type = descriptor.return_type();
        let ghost p2 = reader.pos();
        let (code, offset_to_idx_map) = match Op::read_ops(constant_pool, &return_type, &mut reader) {
            Ok(x) => x,
            Err(e) => return Err(MethodError::Decode(e)),
        };
        let ghost map = index_table_contents(offset_to_idx_map);
        assert(reader.pos() <= reader.bytes().len());
        let exceptions = match read_exceptions(constant_pool, &mut reader, &offset_to_idx_map) {
            Ok(v) => v,
            Err(e) => return Err(MethodError::Decode(e)),
        };
        assert(parts == Some(Ok::<(u16, u16, Seq<SpecOp>, Seq<SpecHandler>), DecodeError>(
            (max_stack, max_locals, ops_view(code@), handlers_view(exceptions@)),
        )));
        assert(ops_view(code@) == ops_view(code@) && handlers_view(exceptions@) == handlers_view(exceptions@));
        match verify_ops(is_static, descriptor, max_stack as usize, max_locals as usize, code.as_slice(), exceptions.as_slice()) {
            Ok(()) => {},
            Err(e) => {
                assert(spec_rejects_with(code@, exceptions@, is_static, descriptor@.args, max_stack as nat, max_locals as nat, e));
                return Err(MethodError::Verify(e));
            },
        }
        Ok(BytecodeMethodInfo { max_stack, max_locals, code, exceptions })
    }
}

} // verus!
