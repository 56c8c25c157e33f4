//! The text printed for an exception nobody caught.
//!
//! Getting the parts takes running Java code (the exception's `toString`,
//! and that of each stack trace element), which the runtime does; the
//! report is put together here from what those calls gave back.
use vstd::prelude::*;

use vstd::string::StringExecFns;

verus! {

/// What `String::from_utf16_lossy` makes of `units`: the UTF-16 text
/// decoded, a unit outside the surrogates standing for itself, a high
/// surrogate followed by a low one for the character they encode, and each
/// other surrogate replaced by U+FFFD.
pub open spec fn utf16_lossy_text(units: Seq<u16>) -> Seq<char>
    decreases units.len(),
{
    if units.len() == 0 {
        Seq::empty()
    } else {
        let u = units[0];
        if u < 0xD800 || u > 0xDFFF {
            seq![u as char] + utf16_lossy_text(units.drop_first())
        } else if u <= 0xDBFF && units.len() >= 2 && 0xDC00 <= units[1] <= 0xDFFF {
            seq![(0x10000 + (u - 0xD800) * 0x400 + (units[1] - 0xDC00)) as char] + utf16_lossy_text(units.skip(2))
        } else {
            seq!['\u{FFFD}'] + utf16_lossy_text(units.drop_first())
        }
    }
}

/// Calls `String::from_utf16_lossy`, which decodes as `utf16_lossy_text`
/// says.
#[verifier::external_body]
fn utf16_lossy(units: &[u16]) -> (res: String)
    ensures
        res@ == utf16_lossy_text(units@),
{
    String::from_utf16_lossy(units)
}

/// The UTF-16 units of `"\tat "`.
pub open spec fn at_units() -> Seq<u16> {
    seq![9u16, 97u16, 116u16, 32u16]
}

/// The stack trace lines: each element's text after a tab and `at `, and a
/// line break after it.
pub open spec fn trace_units(trace: Seq<Seq<u16>>) -> Seq<u16>
    decreases trace.len(),
{
    if trace.len() == 0 {
        Seq::empty()
    } else {
        trace_units(trace.drop_last()) + at_units() + trace.last() + seq![10u16]
    }
}

/// The report of an exception: where its `toString` failed, a note naming
/// the class of what was thrown instead (`Err`); else what `toString` gave
/// (`null` for a null string) and a line break, then the stack trace lines
/// where the exception holds a stack trace, then `Caused by: ` and the
/// cause's report where it has a cause.
pub open spec fn spec_error_report(
    description: Result<Option<Seq<char>>, Seq<char>>,
    trace: Option<Seq<Seq<u16>>>,
    cause: Option<Seq<char>>,
) -> Seq<char> {
    match description {
        Err(class_name) => "(error while displaying error): "@ + class_name,
        Ok(text) => {
            let head = match text {
                Some(t) => t,
                None => "null"@,
            } + seq!['\n'];
            let lines = match trace {
                Some(t) => utf16_lossy_text(trace_units(t)),
                None => Seq::empty(),
            };
            let tail = match cause {
                Some(c) => "Caused by: "@ + c,
                None => Seq::empty(),
            };
            head + lines + tail
        },
    }
}

/// The stack trace lines of `trace`, as UTF-16 units.
fn trace_lines(trace: &[Vec<u16>]) -> (res: Vec<u16>)
    ensures
        res@ == trace_units(trace@.map_values(|e: Vec<u16>| e@)),
{
    let ghost views = trace@.map_values(|e: Vec<u16>| e@);
    let mut units: Vec<u16> = Vec::new();
    let mut i: usize = 0;
    while i < trace.len()
        invariant
            0 <= i <= trace@.len(),
            views == trace@.map_values(|e: Vec<u16>| e@),
            units@ == trace_units(views.take(i as int)),
        decreases trace@.len() - i,
    {
        assert(views.take(i + 1).drop_last() =~= views.take(i as int));
        let ghost before = units@;
        units.push(9);
        units.push(97);
        units.push(116);
        units.push(32);
        let element = &trace[i];
        let mut j: usize = 0;
        while j < element.len()
            invariant
                0 <= j <= element@.len(),
                units@ == before + at_units() + element@.take(j as int),
            decreases element@.len() - j,
        {
            units.push(element[j]);
            assert(element@.take(j + 1) =~= element@.take(j as int).push(element@[j as int]));
            j = j + 1;
        }
        units.push(10);
        assert(element@.take(element@.len() as int) =~= element@);
        assert(units@ =~= trace_units(views.take(i + 1)));
        i = i + 1;
    }
    assert(views.take(trace@.len() as int) =~= views);
    units
}

/// The report of an uncaught exception (see `spec_error_report`).
pub fn error_report(
    description: Result<Option<String>, String>,
    trace: Option<Vec<Vec<u16>>>,
    cause: Option<String>,
) -> (res: String)
    ensures
        res@ == spec_error_report(
            match description {
                Ok(Some(t)) => Ok(Some(t@)),
                Ok(None) => Ok(None),
                Err(c) => Err(c@),
            },
            match trace {
                Some(t) => Some(t@.map_values(|e: Vec<u16>| e@)),
                None => None,
            },
            match cause {
                Some(c) => Some(c@),
                None => None,
            },
        ),
{
    let text = match description {
        Err(class_name) => {
            let mut s = String::from_str("(error while displaying error): ");
            s.append(class_name.as_str());
            return s;
        },
        Ok(text) => text,
    };
    let mut s = match text {
        Some(t) => t,
        None => String::from_str("null"),
    };
    s.append("\n");
    proof {
        reveal_strlit("\n");
    }
    match trace {
        Some(t) => {
            let units = trace_lines(t.as_slice());
            let lines = utf16_lossy(units.as_slice());
            s.append(lines.as_str());
        },
        None => {},
    }
    match cause {
        Some(c) => {
            s.append("Caused by: ");
            s.append(c.as_str());
        },
        None => {},
    }
    s
}

} // verus!
