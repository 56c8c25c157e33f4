# rjvm_core

The class-file, bytecode and linking layer of a small Java virtual machine,
written in Verus. Its public functions carry contracts over spec functions,
and Verus proves them; the laws that relate several functions stand as
public proof functions. The methods of the backend traits in
`src/backends.rs`, which their implementors fill with I/O, carry none; the
`PartialEq` and `From` impls take theirs from their spec impls.

## Layout

- `src/reader.rs`, `src/string.rs`, `src/interner.rs`: a byte cursor, JVM
  strings with their hashes, and an interner that keeps one of each string.
- `src/classfile/`: class files — the constant pool and its validation,
  fields, methods, attributes.
- `src/descriptor.rs`: field and method descriptors, parsed and printed back.
- `src/jar/`: JAR (zip) archives, with stored and deflated entries.
- `src/decode.rs`, `src/op.rs`: method bodies decoded into ops, jumps turned
  into op indices.
- `src/verify.rs`: the bytecode verifier — basic blocks and an abstract
  interpreter over every reachable (block, frame) pair.
- `src/method.rs`: a `Code` attribute decoded, with its exception table, and
  verified.
- `src/value.rs`, `src/interpret.rs`: values, frames, and what each op does
  to a frame; `src/safety.rs` proves that a frame of the kinds the verifier
  computed runs each op it accepts and stays of the kinds it computes next.
- `src/heap.rs`: objects by number with their classes, arrays with their
  elements, and the array ops (loads, stores with the `ArrayStoreException`
  check, lengths, `newarray`, `anewarray`, `multianewarray`) run against
  them and the class table.
- `src/system.rs`: `System.arraycopy` on the heap.
- `src/vtable.rs`, `src/hierarchy.rs`, `src/loader.rs`, `src/field.rs`,
  `src/call_stack.rs`: slot tables, the class hierarchy and casts, class
  loaders (each with a hash-map registry of its classes), fields and their starting values, and stack traces.
- `src/clinit.rs`: class initialization as stages, and what the runtime is
  to do next at each: the superclass first, the initializer at most once, a
  failure remembered.
- `src/report.rs`: the text printed for an uncaught exception.
- `src/launcher.rs`: the launcher's arguments and the choice of a JAR's main
  class.
- `app/main.rs`: the command-line launcher: reads the file, decodes and
  verifies the main class's methods, and runs `main` (and the static
  methods of the main class it calls) as far as the interpreter core goes.
- `tests/`: tests of the library on concrete inputs.

Fields of objects, `new`, method invocation and lookup, running class
initializers, garbage collection, the interning of Java `String` objects
and floating-point
arithmetic are left to a runtime: the interpreter hands such ops back
(`Flow::Runtime`); for a call, the frame gives the arguments and takes the
result. The launcher runs the static calls among the main class's own
methods with the library's pieces: the exception object for a builtin
throw, the handler search, the method lookup by name and descriptor, and
the checked hand-over of arguments and result; it initializes the main
class as the stages of `src/clinit.rs` direct.

Where the parsers leave an input out because reading it has no defined
outcome, a checker says which inputs those are: `ClassFile::can_parse`,
`constant_pool_checkable`, `records_readable` and `Jar::can_read_file`.

Descriptors name classes in ASCII only; a descriptor with another class
name is refused, so that every descriptor prints back as the string it was
parsed from.
