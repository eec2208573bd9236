//! How the main window starts the command-line program.

use crate::paths::join;
use crate::paths::joined;
use crate::setup::owned;
use crate::text::texts;
use vstd::prelude::*;
use vstd::utf8::encode_utf8;

verus! {

/// The byte that separates the directories of a search path.
pub const COLON: u8 = 0x3a;

/// The first place of a byte in `s` from `from` on; the length where there is none.
pub open spec fn next_byte(s: Seq<u8>, byte: u8, from: int) -> int
    decreases s.len() - from,
{
    if from >= s.len() || s[from] == byte {
        from
    } else {
        next_byte(s, byte, from + 1)
    }
}

/// The directories of a search path, from a place on.
pub open spec fn directories(s: Seq<u8>, from: int) -> Seq<Seq<u8>>
    decreases s.len() - from,
{
    if from > s.len() {
        Seq::empty()
    } else {
        let end = next_byte(s, COLON, from);
        if from <= end < s.len() {
            seq![s.subrange(from, end)] + directories(s, end + 1)
        } else {
            seq![s.subrange(from, s.len() as int)]
        }
    }
}

/// Whether `list` holds `name` in each of some directories, in their order.
pub open spec fn in_each(list: Seq<Vec<u8>>, dirs: Seq<Seq<u8>>, name: Seq<char>) -> bool {
    &&& list.len() == dirs.len()
    &&& forall|i: int|
        0 <= i < dirs.len() ==> (#[trigger] list[i])@ == joined(dirs[i], encode_utf8(name))
}

fn part(s: &Vec<u8>, from: usize, to: usize) -> (piece: Vec<u8>)
    requires
        from <= to <= s@.len(),
    ensures
        piece@ == s@.subrange(from as int, to as int),
{
    let mut piece: Vec<u8> = Vec::new();
    let mut i: usize = from;
    while i < to
        invariant
            from <= i <= to <= s@.len(),
            piece@ == s@.subrange(from as int, i as int),
        decreases to - i,
    {
        piece.push(s[i]);
        i += 1;
        assert(piece@ =~= s@.subrange(from as int, i as int));
    }
    piece
}

/// Where a program may lie: in each directory of a search path, in their order.
pub fn candidates(path: &Vec<u8>, name: &str) -> (list: Vec<Vec<u8>>)
    ensures
        in_each(list@, directories(path@, 0), name@),
{
    let mut list: Vec<Vec<u8>> = Vec::new();
    let mut from: usize = 0;
    let mut end: usize = 0;
    let ghost mut done: Seq<Seq<u8>> = Seq::empty();
    assert(done + directories(path@, 0) =~= directories(path@, 0));
    while end < path.len()
        invariant
            from <= end <= path.len(),
            done + directories(path@, from as int) == directories(path@, 0),
            next_byte(path@, COLON, from as int) == next_byte(path@, COLON, end as int),
            in_each(list@, done, name@),
        decreases path.len() - end,
    {
        if path[end] == COLON {
            let dir = part(path, from, end);
            proof {
                assert(done + (seq![dir@] + directories(path@, end + 1)) =~= done.push(dir@)
                    + directories(path@, end + 1));
                done = done.push(dir@);
            }
            list.push(join(&dir, name));
            from = end + 1;
            end = from;
        } else {
            end += 1;
        }
    }
    let dir = part(path, from, end);
    proof {
        assert(directories(path@, from as int) =~= seq![dir@]);
        assert(done + seq![dir@] =~= done.push(dir@));
    }
    list.push(join(&dir, name));
    list
}

/// Whether a file can be run: it is a regular file, and someone may execute it.
pub fn is_executable(regular: bool, mode: u32) -> (yes: bool)
    ensures
        yes == (regular && mode & 0o111 != 0),
{
    regular && mode & 0o111 != 0
}

/// The first of some candidates that can be run.
pub fn find_on_path(executable: &Vec<bool>) -> (found: Option<usize>)
    ensures
        match found {
            Some(i) => i < executable@.len() && executable@[i as int] && forall|j: int|
                0 <= j < i ==> !#[trigger] executable@[j],
            None => forall|j: int| 0 <= j < executable@.len() ==> !#[trigger] executable@[j],
        },
{
    let mut i: usize = 0;
    while i < executable.len()
        invariant
            i <= executable.len(),
            forall|j: int| 0 <= j < i ==> !#[trigger] executable@[j],
        decreases executable.len() - i,
    {
        if executable[i] {
            return Some(i);
        }
        i += 1;
    }
    None
}

/// A file: its path, and the path as it is shown.
pub struct File {
    pub path: Vec<u8>,
    pub shown: String,
}

/// A command: the program, the arguments before its own, and how it is shown.
pub struct CliInvocation {
    pub program: Vec<u8>,
    pub prefix_args: Vec<String>,
    pub display: String,
}

impl CliInvocation {
    /// Whether this command runs a file as it is.
    pub open spec fn runs(self, file: File) -> bool {
        &&& self.program@ == file.path@
        &&& self.prefix_args@.len() == 0
        &&& self.display@ == file.shown@
    }

    /// Whether this command builds and runs the program with the build tool.
    pub open spec fn builds(self, cargo: File, manifest: File) -> bool {
        &&& self.program@ == cargo.path@
        &&& texts(self.prefix_args@) == seq![
            "run"@,
            "--quiet"@,
            "--manifest-path"@,
            manifest.shown@,
            "-p"@,
            "g6-cli"@,
            "--"@,
        ]
        &&& self.display@ == cargo.shown@ + " run --quiet --manifest-path "@ + manifest.shown@
            + " -p g6-cli --"@
    }

    /// The command that runs a file as it is.
    pub fn binary(file: File) -> (invocation: CliInvocation)
        ensures
            invocation.runs(file),
    {
        CliInvocation { program: file.path, prefix_args: Vec::new(), display: file.shown }
    }
}

/// Why the program cannot be started.
pub enum CliError {
    /// The file that the environment names cannot be run.
    NotExecutable { shown: String },
    /// There is no such program.
    NotFound,
}

impl CliError {
    /// The text of the error.
    pub open spec fn text(self) -> Seq<char> {
        match self {
            CliError::NotExecutable { shown } =>
                "G6_CLI_PATH points to a missing or non-executable file: "@ + shown@,
            CliError::NotFound =>
                "g6-cli was not found beside g6-gui or on PATH; build the full workspace or install the package"@,
        }
    }

    /// The text of the error.
    pub fn message(&self) -> (text: String)
        ensures
            text@ == self.text(),
    {
        match self {
            CliError::NotExecutable { shown } => {
                let mut text =
                    "G6_CLI_PATH points to a missing or non-executable file: ".to_owned();
                text.append(shown.as_str());
                text
            },
            CliError::NotFound =>
                "g6-cli was not found beside g6-gui or on PATH; build the full workspace or install the package".to_owned(),
        }
    }
}

/// What was found of the program.
pub struct Found {
    /// The file that the environment names, and whether it can be run.
    pub named: Option<(File, bool)>,
    /// The program beside this one, if it can be run.
    pub beside: Option<File>,
    /// The program on the search path.
    pub on_path: Option<File>,
    /// The manifest of the sources, if there is one.
    pub manifest: Option<File>,
    /// The build tool on the search path.
    pub cargo: Option<File>,
}

/// How to start the command-line program: the file that the environment names, else the one
/// beside this program, else the one on the search path, else what the build tool makes
/// of the sources.
pub fn cli_invocation(found: Found) -> (invocation: Result<CliInvocation, CliError>)
    ensures
        match (found.named, found.beside, found.on_path, found.manifest, found.cargo) {
            (Some((file, executable)), _, _, _, _) => if executable {
                invocation matches Ok(i) && i.runs(file)
            } else {
                invocation matches Err(CliError::NotExecutable { shown }) && shown@ == file.shown@
            },
            (None, Some(file), _, _, _) => invocation matches Ok(i) && i.runs(file),
            (None, None, Some(file), _, _) => invocation matches Ok(i) && i.runs(file),
            (None, None, None, Some(manifest), Some(cargo)) => invocation matches Ok(i)
                && i.builds(cargo, manifest),
            _ => invocation matches Err(CliError::NotFound),
        },
{
    if let Some((file, executable)) = found.named {
        if executable {
            return Ok(CliInvocation::binary(file));
        }
        return Err(CliError::NotExecutable { shown: file.shown });
    }
    if let Some(file) = found.beside {
        return Ok(CliInvocation::binary(file));
    }
    if let Some(file) = found.on_path {
        return Ok(CliInvocation::binary(file));
    }
    match (found.manifest, found.cargo) {
        (Some(manifest), Some(cargo)) => {
            let prefix_args = owned(
                vec![
                    "run",
                    "--quiet",
                    "--manifest-path",
                    manifest.shown.as_str(),
                    "-p",
                    "g6-cli",
                    "--",
                ],
            );
            assert(texts(prefix_args@) =~= seq![
                "run"@,
                "--quiet"@,
                "--manifest-path"@,
                manifest.shown@,
                "-p"@,
                "g6-cli"@,
                "--"@,
            ]);
            let mut display = cargo.shown;
            display.append(" run --quiet --manifest-path ");
            display.append(manifest.shown.as_str());
            display.append(" -p g6-cli --");
            Ok(CliInvocation { program: cargo.path, prefix_args, display })
        },
        _ => Err(CliError::NotFound),
    }
}

proof fn lemma_next_byte(s: Seq<u8>, byte: u8, from: int, at: int)
    requires
        0 <= from <= at <= s.len(),
        forall|k: int| from <= k < at ==> #[trigger] s[k] != byte,
        at < s.len() ==> s[at] == byte,
    ensures
        next_byte(s, byte, from) == at,
    decreases at - from,
{
    if from < at {
        lemma_next_byte(s, byte, from + 1, at);
    }
}

proof fn lemma_next_byte_behind(front: Seq<u8>, s: Seq<u8>, byte: u8, from: int)
    requires
        0 <= from <= s.len(),
    ensures
        next_byte(front + s, byte, front.len() + from) == front.len() + next_byte(s, byte, from),
        from <= next_byte(s, byte, from) <= s.len(),
    decreases s.len() - from,
{
    if from < s.len() {
        assert((front + s)[front.len() + from] == s[from]);
        if s[from] != byte {
            lemma_next_byte_behind(front, s, byte, from + 1);
        }
    }
}

proof fn lemma_directories_behind(front: Seq<u8>, s: Seq<u8>, from: int)
    requires
        0 <= from <= s.len(),
    ensures
        directories(front + s, front.len() + from) == directories(s, from),
    decreases s.len() - from,
{
    let whole = front + s;
    lemma_next_byte_behind(front, s, COLON, from);
    let end = next_byte(s, COLON, from);
    if end < s.len() {
        lemma_directories_behind(front, s, end + 1);
        assert(whole.subrange(front.len() + from, front.len() + end) =~= s.subrange(from, end));
    } else {
        assert(whole.subrange(front.len() + from, whole.len() as int) =~= s.subrange(
            from,
            s.len() as int,
        ));
    }
}

/// A search path names its directories between colons: a text without a colon is one directory,
/// and a directory, a colon and a search path name that directory before those of the latter.
pub proof fn law_colons_part_directories(dir: Seq<u8>, rest: Seq<u8>)
    requires
        !dir.contains(0x3a),
    ensures
        directories(dir, 0) == seq![dir],
        directories(dir + seq![0x3au8] + rest, 0) == seq![dir] + directories(rest, 0),
{
    let n = dir.len() as int;
    let front = dir + seq![0x3au8];
    let whole = front + rest;
    assert forall|k: int| 0 <= k < n implies #[trigger] dir[k] != COLON by {}
    lemma_next_byte(dir, COLON, 0, n);
    assert(dir.subrange(0, n) =~= dir);
    assert forall|k: int| 0 <= k < n implies #[trigger] whole[k] != COLON by {
        assert(whole[k] == dir[k]);
    }
    lemma_next_byte(whole, COLON, 0, n);
    assert(whole.subrange(0, n) =~= dir);
    lemma_directories_behind(front, rest, 0);
}

} // verus!
