//! The decisions of the command-line launcher: what its arguments ask for,
//! and which main class a JAR manifest names.
use vstd::prelude::*;

use vstd::utf8::{decode_utf8, encode_utf8, valid_utf8};

use crate::jar::read_zip::{spec_read_file, SpecZipFile};
use crate::jar::Jar;
use crate::string::{str_eq, string_push};

verus! {

/// The characters of `s`, one by one.
fn chars_of(s: &str) -> (res: Vec<char>)
    ensures
        res@ == s@,
{
    let n = s.unicode_len();
    let mut out: Vec<char> = Vec::new();
    let mut i: usize = 0;
    while i < n
        invariant
            n == s@.len(),
            0 <= i <= n,
            out@ == s@.subrange(0, i as int),
        decreases n - i,
    {
        let c = s.get_char(i);
        out.push(c);
        i = i + 1;
        assert(out@ =~= s@.subrange(0, i as int));
    }
    assert(out@ =~= s@);
    out
}

/// A `String` of the characters `cs[from..to]`.
fn string_of(cs: &Vec<char>, from: usize, to: usize) -> (res: String)
    requires
        from <= to <= cs@.len(),
    ensures
        res@ == cs@.subrange(from as int, to as int),
{
    let mut out = String::new();
    let mut i = from;
    while i < to
        invariant
            from <= i <= to <= cs@.len(),
            out@ == cs@.subrange(from as int, i as int),
        decreases to - i,
    {
        string_push(&mut out, cs[i]);
        i = i + 1;
        assert(out@ =~= cs@.subrange(from as int, i as int));
    }
    out
}

/// Whether `pat` occurs in `cs` at `i`.
pub open spec fn occurs_at(cs: Seq<char>, pat: Seq<char>, i: int) -> bool {
    0 <= i && i + pat.len() <= cs.len() && cs.subrange(i, i + pat.len()) == pat
}

/// The first place at or after `from` where `pat` occurs in `cs`.
pub open spec fn first_occurrence(cs: Seq<char>, pat: Seq<char>, from: int) -> Option<int>
    decreases cs.len() + 1 - from,
{
    if from < 0 || from + pat.len() > cs.len() {
        None
    } else if occurs_at(cs, pat, from) {
        Some(from)
    } else {
        first_occurrence(cs, pat, from + 1)
    }
}

/// Where a search for `pat` can land.
pub proof fn lemma_first_occurrence_bounds(cs: Seq<char>, pat: Seq<char>, from: int)
    ensures
        first_occurrence(cs, pat, from) matches Some(i) ==> from <= i && i + pat.len() <= cs.len(),
    decreases cs.len() + 1 - from,
{
    if from >= 0 && from + pat.len() <= cs.len() && !occurs_at(cs, pat, from) {
        lemma_first_occurrence_bounds(cs, pat, from + 1);
    }
}

/// The carriage-return line-feed pair that separates manifest lines.
pub open spec fn crlf() -> Seq<char> {
    seq!['\r', '\n']
}

/// The separator between a manifest header's name and its value.
pub open spec fn colon_space() -> Seq<char> {
    seq![':', ' ']
}

/// The manifest header that names the main class.
pub open spec fn main_class_key() -> Seq<char> {
    seq!['M', 'a', 'i', 'n', '-', 'C', 'l', 'a', 's', 's']
}

/// The value a line gives the `Main-Class` header, if it sets it: the text
/// after the first `": "`, when the text before it is `Main-Class`.
pub open spec fn spec_main_class_in_line(line: Seq<char>) -> Option<Seq<char>> {
    match first_occurrence(line, colon_space(), 0) {
        Some(i) => if line.subrange(0, i) == main_class_key() {
            Some(line.subrange(i + 2, line.len() as int))
        } else {
            None
        },
        None => None,
    }
}

/// The main class named by the `\r\n`-separated lines of `cs` from `from`
/// on, given that the lines before named `found`: the last line that names
/// one wins.
pub open spec fn spec_main_class_from(cs: Seq<char>, from: int, found: Option<Seq<char>>) -> Option<Seq<char>>
    decreases cs.len() - from,
{
    if from < 0 || from > cs.len() {
        found
    } else {
        proof {
            lemma_first_occurrence_bounds(cs, crlf(), from);
        }
        let (line, next) = match first_occurrence(cs, crlf(), from) {
            Some(i) => (cs.subrange(from, i), i + 2),
            None => (cs.subrange(from, cs.len() as int), cs.len() + 1int),
        };
        let found1 = match spec_main_class_in_line(line) {
            Some(v) => Some(v),
            None => found,
        };
        if next > cs.len() {
            found1
        } else {
            spec_main_class_from(cs, next, found1)
        }
    }
}

/// `/` in place of every `.`.
pub open spec fn dots_to_slashes(cs: Seq<char>) -> Seq<char> {
    cs.map_values(|c: char| if c == '.' { '/' } else { c })
}

/// The main class a decoded manifest names, with `/` in place of `.`.
pub open spec fn spec_main_class(text: Seq<char>) -> Option<Seq<char>> {
    match spec_main_class_from(text, 0, None) {
        Some(v) => Some(dots_to_slashes(v)),
        None => None,
    }
}

/// What decoding a manifest's bytes as UTF-8 (with replacement characters
/// for invalid sequences) gives.
pub uninterp spec fn lossy_text(bytes: Seq<u8>) -> Seq<char>;

/// Decodes bytes as UTF-8, replacing invalid sequences.
///
/// Trusted: calls `String::from_utf8_lossy`, whose result depends on the
/// bytes alone; on valid UTF-8 it is the text the bytes encode, as the
/// function's documentation states.
#[verifier::external_body]
fn decode_lossy(bytes: &[u8]) -> (res: String)
    ensures
        res@ == lossy_text(bytes@),
        valid_utf8(bytes@) ==> res@ == decode_utf8(bytes@),
{
    String::from_utf8_lossy(bytes).into_owned()
}

/// Whether `pat` occurs in `cs` at `i`.
fn occurs_at_exec(cs: &Vec<char>, pat: &Vec<char>, i: usize) -> (res: bool)
    ensures
        res == occurs_at(cs@, pat@, i as int),
{
    if i > cs.len() || pat.len() > cs.len() - i {
        return false;
    }
    let mut j: usize = 0;
    while j < pat.len()
        invariant
            i + pat.len() <= cs.len(),
            0 <= j <= pat@.len(),
            forall|k: int| 0 <= k < j ==> cs@[i + k] == pat@[k],
        decreases pat@.len() - j,
    {
        if cs[i + j] != pat[j] {
            assert(cs@.subrange(i as int, i + pat@.len())[j as int] != pat@[j as int]);
            return false;
        }
        j = j + 1;
    }
    assert(cs@.subrange(i as int, i + pat@.len()) =~= pat@);
    true
}

/// The first place at or after `from` where `pat` occurs in `cs`.
fn find_exec(cs: &Vec<char>, pat: &Vec<char>, from: usize) -> (res: Option<usize>)
    requires
        pat@.len() > 0,
    ensures
        match res {
            Some(i) => first_occurrence(cs@, pat@, from as int) == Some(i as int) && from <= i && i
                + pat@.len() <= cs@.len(),
            None => first_occurrence(cs@, pat@, from as int) is None,
        },
{
    let mut i = from;
    while i < cs.len()
        invariant
            from <= i,
            first_occurrence(cs@, pat@, from as int) == first_occurrence(cs@, pat@, i as int),
        decreases cs@.len() - i,
    {
        if occurs_at_exec(cs, pat, i) {
            return Some(i);
        }
        i = i + 1;
    }
    None
}

/// Replaces every `.` with `/`.
fn replace_dots(cs: &Vec<char>, from: usize, to: usize) -> (res: String)
    requires
        from <= to <= cs@.len(),
    ensures
        res@ == dots_to_slashes(cs@.subrange(from as int, to as int)),
{
    let mut out = String::new();
    let mut i = from;
    while i < to
        invariant
            from <= i <= to <= cs@.len(),
            out@ == dots_to_slashes(cs@.subrange(from as int, i as int)),
        decreases to - i,
    {
        let c = cs[i];
        string_push(&mut out, if c == '.' { '/' } else { c });
        i = i + 1;
        assert(out@ =~= dots_to_slashes(cs@.subrange(from as int, i as int)));
    }
    out
}

/// The main class a JAR manifest names in its `Main-Class` header (the last
/// such header wins), with `/` in place of `.`.
pub fn get_main_class_from_manifest(manifest_data: Vec<u8>) -> (res: Option<String>)
    ensures
        match res {
            Some(s) => spec_main_class(lossy_text(manifest_data@)) == Some(s@),
            None => spec_main_class(lossy_text(manifest_data@)) is None,
        },
        valid_utf8(manifest_data@) ==> match res {
            Some(s) => spec_main_class(decode_utf8(manifest_data@)) == Some(s@),
            None => spec_main_class(decode_utf8(manifest_data@)) is None,
        },
{
    let text = decode_lossy(manifest_data.as_slice());
    let cs = chars_of(text.as_str());
    let crlf_pat = vec!['\r', '\n'];
    let sep_pat = vec![':', ' '];
    let key = vec!['M', 'a', 'i', 'n', '-', 'C', 'l', 'a', 's', 's'];
    assert(crlf_pat@ =~= crlf());
    assert(sep_pat@ =~= colon_space());
    assert(key@ =~= main_class_key());
    let mut main_class: Option<(usize, usize)> = None;
    let mut from: usize = 0;
    let n = cs.len();
    loop
        invariant
            n == cs@.len(),
            cs@ == lossy_text(manifest_data@),
            crlf_pat@ == crlf(),
            sep_pat@ == colon_space(),
            key@ == main_class_key(),
            from <= cs@.len(),
            match main_class {
                Some((a, b)) => a <= b <= cs@.len() && spec_main_class_from(cs@, 0, None) == spec_main_class_from(
                    cs@,
                    from as int,
                    Some(cs@.subrange(a as int, b as int)),
                ),
                None => spec_main_class_from(cs@, 0, None) == spec_main_class_from(cs@, from as int, None),
            },
        ensures
            match main_class {
                Some((a, b)) => a <= b <= cs@.len() && spec_main_class_from(cs@, 0, None) == Some(
                    cs@.subrange(a as int, b as int),
                ),
                None => spec_main_class_from(cs@, 0, None) is None,
            },
        decreases cs@.len() - from,
    {
        let ghost found = match main_class {
            Some((a, b)) => Some(cs@.subrange(a as int, b as int)),
            None => None,
        };
        let found_crlf = find_exec(&cs, &crlf_pat, from);
        let line_end = match found_crlf {
            Some(i) => i,
            None => cs.len(),
        };
        let ghost line = cs@.subrange(from as int, line_end as int);
        let line_chars = {
            let mut v: Vec<char> = Vec::new();
            let mut k = from;
            while k < line_end
                invariant
                    from <= k <= line_end <= cs@.len(),
                    v@ == cs@.subrange(from as int, k as int),
                decreases line_end - k,
            {
                v.push(cs[k]);
                k = k + 1;
                assert(v@ =~= cs@.subrange(from as int, k as int));
            }
            v
        };
        match find_exec(&line_chars, &sep_pat, 0) {
            Some(i) => {
                if occurs_at_exec(&line_chars, &key, 0) && i == key.len() {
                    assert(line.subrange(0, i as int) =~= key@);
                    main_class = Some((from + i + 2, line_end));
                    assert(line.subrange(i + 2, line.len() as int) =~= cs@.subrange(from + i + 2, line_end as int));
                } else {
                    assert(line.subrange(0, i as int) != main_class_key()) by {
                        if line.subrange(0, i as int) == main_class_key() {
                            assert(line.subrange(0, key@.len() as int) =~= key@);
                        }
                    }
                }
            },
            None => {},
        }
        match found_crlf {
            Some(i) => {
                from = i + 2;
            },
            None => {
                break;
            },
        }
    }
    match main_class {
        Some((a, b)) => Some(replace_dots(&cs, a, b)),
        None => None,
    }
}

// ---------------------------------------------------------------------------
// Command-line arguments
// ---------------------------------------------------------------------------

/// What kind of file the launcher is asked to run.
#[derive(Debug)]
pub enum FileType {
    Class,
    /// A JAR; `main_class` names the class to run in place of the one its
    /// manifest names, if given.
    Jar { main_class: Option<String> },
    Unknown,
}

/// The value of a file type.
pub enum SpecFileType {
    Class,
    Jar(Option<Seq<char>>),
    Unknown,
}

impl View for FileType {
    type V = SpecFileType;

    open spec fn view(&self) -> SpecFileType {
        match self {
            FileType::Class => SpecFileType::Class,
            FileType::Jar { main_class } => SpecFileType::Jar(
                match main_class {
                    Some(m) => Some(m@),
                    None => None,
                },
            ),
            FileType::Unknown => SpecFileType::Unknown,
        }
    }
}

/// What the launcher's arguments ask for.
#[derive(Debug)]
pub struct PassedOptions {
    pub file_type: FileType,
    pub file_name: String,
    pub program_args: Vec<String>,
}

/// The value of the launcher's options.
pub struct SpecOptions {
    pub file_type: SpecFileType,
    pub file_name: Seq<char>,
    pub program_args: Seq<Seq<char>>,
}

/// The values of a list of strings.
pub open spec fn string_values(v: Seq<String>) -> Seq<Seq<char>> {
    v.map_values(|s: String| s@)
}

impl View for PassedOptions {
    type V = SpecOptions;

    open spec fn view(&self) -> SpecOptions {
        SpecOptions {
            file_type: self.file_type@,
            file_name: self.file_name@,
            program_args: string_values(self.program_args@),
        }
    }
}

/// The usage message, given the program's own name.
pub open spec fn usage_message(program: Seq<char>) -> Seq<char> {
    "Run as "@ + program + " [file.class]"@
}

/// What the arguments (the program's name first) ask for: `--jar FILE`,
/// `--jar-with-main FILE CLASS` (the class with `/` in place of `.`), or a
/// class file; the arguments after these go to the program. `None` stands
/// for arguments that end right after `--jar`, or right after the file of
/// `--jar-with-main`, or that are empty: there the launcher has no defined
/// behavior.
pub open spec fn spec_from_args(args: Seq<Seq<char>>) -> Option<Result<SpecOptions, Seq<char>>> {
    let n = args.len() as int;
    if n == 0 {
        None
    } else if n < 2 {
        Some(Err(usage_message(args[0])))
    } else if args[1] == "--jar"@ {
        if n < 3 {
            None
        } else {
            Some(Ok(SpecOptions {
                file_type: SpecFileType::Jar(None),
                file_name: args[2],
                program_args: args.subrange(3, n),
            }))
        }
    } else if args[1] == "--jar-with-main"@ {
        if n < 3 {
            Some(Err("--jar-with-main flag requires a file"@))
        } else if n < 4 {
            None
        } else {
            Some(Ok(SpecOptions {
                file_type: SpecFileType::Jar(Some(dots_to_slashes(args[3]))),
                file_name: args[2],
                program_args: args.subrange(4, n),
            }))
        }
    } else {
        Some(Ok(SpecOptions {
            file_type: SpecFileType::Class,
            file_name: args[1],
            program_args: args.subrange(2, n),
        }))
    }
}

/// `/` in place of every `.` of `s`.
fn dots_replaced(s: &String) -> (res: String)
    ensures
        res@ == dots_to_slashes(s@),
{
    let cs = chars_of(s.as_str());
    let res = replace_dots(&cs, 0, cs.len());
    assert(cs@.subrange(0, cs@.len() as int) =~= cs@);
    res
}

impl PassedOptions {
    /// Reads the launcher's arguments, the program's own name first.
    pub fn from_args(args: Vec<String>) -> (res: Result<Self, String>)
        requires
            spec_from_args(string_values(args@)) is Some,
        ensures
            match res {
                Ok(o) => spec_from_args(string_values(args@)) == Some(Ok::<SpecOptions, Seq<char>>(o@)),
                Err(m) => spec_from_args(string_values(args@)) == Some(Err::<SpecOptions, Seq<char>>(m@)),
            },
    {
        let ghost sv = string_values(args@);
        if args.len() < 2 {
            let mut message = String::from_str("Run as ");
            message.append(args[0].as_str());
            message.append(" [file.class]");
            return Err(message);
        }
        let mut file_type = FileType::Unknown;
        let mut file_name = String::new();
        let mut program_args: Vec<String> = Vec::new();
        let mut started_args = false;
        let ghost mut first_program_arg: int = 0;
        let mut i: usize = 1;
        while i < args.len()
            invariant
                sv == string_values(args@),
                args@.len() >= 2,
                spec_from_args(sv) is Some,
                1 <= i,
                !started_args ==> i == 1 && program_args@.len() == 0,
                started_args ==> ({
                    let spec = spec_from_args(sv).unwrap();
                    &&& spec matches Ok(o)
                    &&& o.file_type == file_type@
                    &&& o.file_name == file_name@
                    &&& 2 <= first_program_arg <= i <= args@.len()
                    &&& o.program_args == sv.subrange(first_program_arg, args@.len() as int)
                    &&& string_values(program_args@) == sv.subrange(first_program_arg, i as int)
                }),
            decreases args@.len() - i,
        {
            let arg = &args[i];
            assert(sv[i as int] == arg@);
            if started_args {
                let ghost before = string_values(program_args@);
                program_args.push(arg.clone());
                assert(string_values(program_args@) =~= sv.subrange(first_program_arg, i + 1));
            } else {
                if str_eq(arg.as_str(), "--jar") {
                    if i + 1 > args.len() {
                        return Err(String::from_str("--jar flag requires a file"));
                    }
                    file_type = FileType::Jar { main_class: None };
                    file_name = args[i + 1].clone();
                    assert(sv[i + 1] == file_name@);
                    i = i + 1;
                    started_args = true;
                    proof {
                        first_program_arg = 3;
                    }
                } else if str_eq(arg.as_str(), "--jar-with-main") {
                    if i + 2 > args.len() {
                        return Err(String::from_str("--jar-with-main flag requires a file"));
                    }
                    let main_class = dots_replaced(&args[i + 2]);
                    assert(sv[i + 2] == args@[i + 2]@);
                    file_type = FileType::Jar { main_class: Some(main_class) };
                    file_name = args[i + 1].clone();
                    assert(sv[i + 1] == file_name@);
                    i = i + 2;
                    started_args = true;
                    proof {
                        first_program_arg = 4;
                    }
                } else {
                    file_type = FileType::Class;
                    file_name = arg.clone();
                    started_args = true;
                    proof {
                        first_program_arg = 2;
                    }
                }
            }
            i = i + 1;
            proof {
                if program_args@.len() == 0 && i == first_program_arg {
                    assert(string_values(program_args@) =~= sv.subrange(first_program_arg, i as int));
                }
            }
        }
        Ok(PassedOptions { file_type, file_name, program_args })
    }
}


// ---------------------------------------------------------------------------
// Choosing the main class of a JAR
// ---------------------------------------------------------------------------

/// Why a JAR cannot be run.
#[derive(Debug, Clone, Copy, PartialEq, Eq)]
pub enum LaunchError {
    /// No main class was given and the JAR has no manifest.
    NoManifest,
    /// Neither the arguments nor the manifest name a main class.
    NoMainClass,
    /// The main class named is not in the JAR.
    MainClassNotInJar,
}

impl LaunchError {
    /// The message the launcher reports for this error.
    pub fn message(self) -> (res: &'static str)
        ensures
            self is NoManifest ==> res@ == "Cannot execute JAR file without MANIFEST.MF file"@,
            self is NoMainClass ==> res@ == "Cannot execute JAR file without main class specified"@,
            self is MainClassNotInJar ==> res@ == "Main class specified was not present in JAR!"@,
    {
        match self {
            LaunchError::NoManifest => "Cannot execute JAR file without MANIFEST.MF file",
            LaunchError::NoMainClass => "Cannot execute JAR file without main class specified",
            LaunchError::MainClassNotInJar => "Main class specified was not present in JAR!",
        }
    }
}

/// The path of a JAR's manifest.
pub open spec fn manifest_path() -> Seq<char> {
    seq!['M', 'E', 'T', 'A', '-', 'I', 'N', 'F', '/', 'M', 'A', 'N', 'I', 'F', 'E', 'S', 'T', '.', 'M', 'F']
}

/// The suffix of a class file's name.
pub open spec fn class_suffix() -> Seq<char> {
    seq!['.', 'c', 'l', 'a', 's', 's']
}

/// The path in a JAR of the class named `name`.
pub open spec fn class_entry(name: Seq<char>) -> Seq<char> {
    name + class_suffix()
}

/// Whether the archive lists a file at `path`.
pub open spec fn lists(z: SpecZipFile, path: Seq<char>) -> bool {
    z.records.contains_key(encode_utf8(path))
}

/// What reading the manifest gives, where it reads.
pub open spec fn manifest_bytes(z: SpecZipFile) -> Seq<u8> {
    match spec_read_file(z, encode_utf8(manifest_path())) {
        Some(Ok(b)) => b,
        _ => Seq::empty(),
    }
}

/// The main class to run from the archive: the one given, else the one the
/// manifest names.
pub open spec fn spec_main_class_name(z: SpecZipFile, main_class: Option<Seq<char>>) -> Result<Seq<char>, LaunchError> {
    match main_class {
        Some(m) => Ok(m),
        None => if !lists(z, manifest_path()) {
            Err(LaunchError::NoManifest)
        } else {
            match spec_main_class(lossy_text(manifest_bytes(z))) {
                Some(m) => Ok(m),
                None => Err(LaunchError::NoMainClass),
            }
        },
    }
}

/// The path of the main class's file in the archive, once it is known to be
/// there.
pub open spec fn spec_main_class_entry(z: SpecZipFile, main_class: Option<Seq<char>>) -> Result<Seq<char>, LaunchError> {
    match spec_main_class_name(z, main_class) {
        Ok(m) => if lists(z, class_entry(m)) {
            Ok(class_entry(m))
        } else {
            Err(LaunchError::MainClassNotInJar)
        },
        Err(e) => Err(e),
    }
}

/// The value of an optional string.
pub open spec fn optional_value(s: Option<String>) -> Option<Seq<char>> {
    match s {
        Some(m) => Some(m@),
        None => None,
    }
}

/// A `String` holding `cs`.
fn string_from_chars(cs: &Vec<char>) -> (res: String)
    ensures
        res@ == cs@,
{
    let res = string_of(cs, 0, cs.len());
    assert(cs@.subrange(0, cs@.len() as int) =~= cs@);
    res
}

/// Where in `jar` the main class to run is: the class `main_class` names
/// (with `/` between package names) if given, else the one the manifest's
/// `Main-Class` header names. The manifest must read where it is needed.
pub fn main_class_entry(jar: &Jar, main_class: Option<String>) -> (res: Result<String, LaunchError>)
    requires
        main_class is None && lists(jar@, manifest_path()) ==> spec_read_file(
            jar@,
            encode_utf8(manifest_path()),
        ) matches Some(Ok(_)),
    ensures
        match res {
            Ok(p) => spec_main_class_entry(jar@, optional_value(main_class)) == Ok::<
                Seq<char>,
                LaunchError,
            >(p@),
            Err(e) => spec_main_class_entry(jar@, optional_value(main_class)) == Err::<
                Seq<char>,
                LaunchError,
            >(e),
        },
{
    let ghost given = optional_value(main_class);
    let name = match main_class {
        Some(m) => m,
        None => {
            let path_chars = vec![
                'M', 'E', 'T', 'A', '-', 'I', 'N', 'F', '/', 'M', 'A', 'N', 'I', 'F', 'E', 'S', 'T', '.', 'M', 'F',
            ];
            let path = string_from_chars(&path_chars);
            assert(path@ =~= manifest_path());
            if !jar.has_file(&path) {
                return Err(LaunchError::NoManifest);
            }
            let data = match jar.read_file(path) {
                Ok(d) => d,
                Err(_) => {
                    return Err(LaunchError::NoManifest);
                },
            };
            match get_main_class_from_manifest(data) {
                Some(m) => m,
                None => {
                    return Err(LaunchError::NoMainClass);
                },
            }
        },
    };
    assert(spec_main_class_name(jar@, given) == Ok::<Seq<char>, LaunchError>(name@));
    let mut entry = name;
    let suffix = ['.', 'c', 'l', 'a', 's', 's'];
    let ghost before = entry@;
    let mut i: usize = 0;
    while i < 6
        invariant
            0 <= i <= 6,
            suffix@ == class_suffix(),
            entry@ == before + class_suffix().subrange(0, i as int),
        decreases 6 - i,
    {
        string_push(&mut entry, suffix[i]);
        i = i + 1;
        assert(entry@ =~= before + class_suffix().subrange(0, i as int));
    }
    assert(class_suffix().subrange(0, 6) =~= class_suffix());
    if jar.has_file(&entry) {
        Ok(entry)
    } else {
        Err(LaunchError::MainClassNotInJar)
    }
}

} // verus!
