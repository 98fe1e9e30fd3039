//! Commands for the two external tools, and what running one yields.
//!
//! The library builds each command as a program name and a list of arguments.
//! The host runs it without a shell, waits for it, and reports the outcome.

use vstd::prelude::*;

verus! {

/// One of the two external tools.
#[derive(Clone, Copy, Debug, PartialEq, Eq, Structural)]
pub enum Tool {
    /// Inspects a media container without decoding it.
    Prober,
    /// Decodes a frame and encodes it as a still image.
    Encoder,
}

/// The kind of system that the host runs on.
#[derive(Clone, Copy, Debug, PartialEq, Eq, Structural)]
pub enum Platform {
    Windows,
    MacOs,
    Linux,
    /// Any other system: it has no command that opens a file.
    Other,
}

/// A command as a sequence of texts: the model of an [`Invocation`].
pub struct CommandLine {
    pub program: Seq<char>,
    pub arguments: Seq<Seq<char>>,
}

/// A command to run: a program and its arguments, in order.
#[derive(Debug)]
pub struct Invocation {
    pub program: String,
    pub arguments: Vec<String>,
}

/// The texts that a list of strings holds, in order.
pub open spec fn texts(list: Seq<String>) -> Seq<Seq<char>> {
    Seq::new(list.len(), |i: int| list[i]@)
}

impl View for Invocation {
    type V = CommandLine;

    open spec fn view(&self) -> CommandLine {
        CommandLine { program: self.program@, arguments: texts(self.arguments@) }
    }
}

/// What became of a command that the host ran.
#[derive(Debug)]
pub enum Outcome {
    /// The process could not be started; `reason` is the system's message.
    NotStarted { reason: String },
    /// The process ran to its end. `success` tells whether it exited with
    /// status zero, and `output` holds all of its standard output.
    Exited { success: bool, output: Vec<u8> },
}

/// The model of an [`Outcome`].
pub enum Report {
    NotStarted { reason: Seq<char> },
    Exited { success: bool, output: Seq<u8> },
}

impl View for Outcome {
    type V = Report;

    open spec fn view(&self) -> Report {
        match self {
            Outcome::NotStarted { reason } => Report::NotStarted { reason: reason@ },
            Outcome::Exited { success, output } => Report::Exited {
                success: *success,
                output: output@,
            },
        }
    }
}

/// Whether a host yields, for every command, the outcome that `answers`
/// gives for it and no other.
pub open spec fn answers_as<H: Fn(&Invocation) -> Outcome>(
    host: H,
    answers: spec_fn(CommandLine) -> Report,
) -> bool {
    forall|command: &Invocation, outcome: Outcome|
        call_ensures(host, (command,), outcome) ==> outcome@ == answers(command@)
}

/// The program name of a tool.
pub open spec fn tool_name(tool: Tool) -> Seq<char> {
    match tool {
        Tool::Prober => "ffprobe"@,
        Tool::Encoder => "ffmpeg"@,
    }
}

/// The command that asks a tool for its version, to learn whether it can run.
pub open spec fn version_query(tool: Tool) -> CommandLine {
    CommandLine { program: tool_name(tool), arguments: seq!["-version"@] }
}

/// The command that asks the prober for the duration of the container at
/// `path`, as a single value.
pub open spec fn duration_query(path: Seq<char>) -> CommandLine {
    CommandLine {
        program: tool_name(Tool::Prober),
        arguments: seq![
            "-v"@,
            "quiet"@,
            "-show_entries"@,
            "format=duration"@,
            "-of"@,
            "csv=p=0"@,
            path,
        ],
    }
}

/// The command that asks the prober for the streams and the format of the
/// container at `path`, as one JSON document.
pub open spec fn metadata_query(path: Seq<char>) -> CommandLine {
    CommandLine {
        program: tool_name(Tool::Prober),
        arguments: seq![
            "-v"@,
            "quiet"@,
            "-print_format"@,
            "json"@,
            "-show_streams"@,
            "-show_format"@,
            path,
        ],
    }
}

/// The first command tried for a frame: seek to `offset` seconds in the file
/// at `path`, decode one frame, scale it to 320 by 240 and write it to
/// standard output as Motion JPEG.
pub open spec fn primary_extraction(path: Seq<char>, offset: Seq<char>) -> CommandLine {
    CommandLine {
        program: tool_name(Tool::Encoder),
        arguments: seq![
            "-ss"@,
            offset,
            "-i"@,
            path,
            "-vframes"@,
            "1"@,
            "-f"@,
            "mjpeg"@,
            "-vf"@,
            "scale=320:240"@,
            "-q:v"@,
            "2"@,
            "-y"@,
            "-"@,
        ],
    }
}

/// The command tried where the first one yields no frame: the same seek and
/// scale, written out by the generic still-image muxer.
pub open spec fn fallback_extraction(path: Seq<char>, offset: Seq<char>) -> CommandLine {
    CommandLine {
        program: tool_name(Tool::Encoder),
        arguments: seq![
            "-ss"@,
            offset,
            "-i"@,
            path,
            "-vframes"@,
            "1"@,
            "-f"@,
            "image2"@,
            "-vf"@,
            "scale=320:240"@,
            "-y"@,
            "-"@,
        ],
    }
}

/// The command that opens the file at `path` with the program that the
/// system keeps for it, on the systems that have such a command.
pub open spec fn opener(platform: Platform, path: Seq<char>) -> Option<CommandLine> {
    match platform {
        Platform::Windows => Some(
            CommandLine { program: "cmd"@, arguments: seq!["/C"@, "start"@, ""@, path] },
        ),
        Platform::MacOs => Some(CommandLine { program: "open"@, arguments: seq![path] }),
        Platform::Linux => Some(CommandLine { program: "xdg-open"@, arguments: seq![path] }),
        Platform::Other => None,
    }
}

/// Appends a copy of `text` to `list`.
fn push_text(list: &mut Vec<String>, text: &str)
    ensures
        texts(final(list)@) == texts(old(list)@).push(text@),
{
    list.push(text.to_owned());
    assert(texts(list@) =~= texts(old(list)@).push(text@));
}

/// The program name of a tool.
fn program_of(tool: Tool) -> (name: String)
    ensures
        name@ == tool_name(tool),
{
    match tool {
        Tool::Prober => "ffprobe".to_owned(),
        Tool::Encoder => "ffmpeg".to_owned(),
    }
}

/// Builds the command that asks a tool for its version.
pub fn version_command(tool: Tool) -> (command: Invocation)
    ensures
        command@ == version_query(tool),
{
    let mut arguments: Vec<String> = Vec::new();
    assert(texts(arguments@) =~= Seq::empty());
    push_text(&mut arguments, "-version");
    assert(texts(arguments@) =~= version_query(tool).arguments);
    Invocation { program: program_of(tool), arguments }
}

/// Builds the command that asks the prober for the duration of a file.
pub fn duration_command(path: &str) -> (command: Invocation)
    ensures
        command@ == duration_query(path@),
{
    let mut arguments: Vec<String> = Vec::new();
    assert(texts(arguments@) =~= Seq::empty());
    push_text(&mut arguments, "-v");
    push_text(&mut arguments, "quiet");
    push_text(&mut arguments, "-show_entries");
    push_text(&mut arguments, "format=duration");
    push_text(&mut arguments, "-of");
    push_text(&mut arguments, "csv=p=0");
    push_text(&mut arguments, path);
    assert(texts(arguments@) =~= duration_query(path@).arguments);
    Invocation { program: program_of(Tool::Prober), arguments }
}

/// Builds the command that asks the prober for a file's streams and format.
pub fn metadata_command(path: &str) -> (command: Invocation)
    ensures
        command@ == metadata_query(path@),
{
    let mut arguments: Vec<String> = Vec::new();
    assert(texts(arguments@) =~= Seq::empty());
    push_text(&mut arguments, "-v");
    push_text(&mut arguments, "quiet");
    push_text(&mut arguments, "-print_format");
    push_text(&mut arguments, "json");
    push_text(&mut arguments, "-show_streams");
    push_text(&mut arguments, "-show_format");
    push_text(&mut arguments, path);
    assert(texts(arguments@) =~= metadata_query(path@).arguments);
    Invocation { program: program_of(Tool::Prober), arguments }
}

/// Builds the first command tried for the frame at `offset` seconds.
pub fn primary_command(path: &str, offset: &str) -> (command: Invocation)
    ensures
        command@ == primary_extraction(path@, offset@),
{
    let mut arguments: Vec<String> = Vec::new();
    assert(texts(arguments@) =~= Seq::empty());
    push_text(&mut arguments, "-ss");
    push_text(&mut arguments, offset);
    push_text(&mut arguments, "-i");
    push_text(&mut arguments, path);
    push_text(&mut arguments, "-vframes");
    push_text(&mut arguments, "1");
    push_text(&mut arguments, "-f");
    push_text(&mut arguments, "mjpeg");
    push_text(&mut arguments, "-vf");
    push_text(&mut arguments, "scale=320:240");
    push_text(&mut arguments, "-q:v");
    push_text(&mut arguments, "2");
    push_text(&mut arguments, "-y");
    push_text(&mut arguments, "-");
    assert(texts(arguments@) =~= primary_extraction(path@, offset@).arguments);
    Invocation { program: program_of(Tool::Encoder), arguments }
}

/// Builds the command tried where the first one yields no frame.
pub fn fallback_command(path: &str, offset: &str) -> (command: Invocation)
    ensures
        command@ == fallback_extraction(path@, offset@),
{
    let mut arguments: Vec<String> = Vec::new();
    assert(texts(arguments@) =~= Seq::empty());
    push_text(&mut arguments, "-ss");
    push_text(&mut arguments, offset);
    push_text(&mut arguments, "-i");
    push_text(&mut arguments, path);
    push_text(&mut arguments, "-vframes");
    push_text(&mut arguments, "1");
    push_text(&mut arguments, "-f");
    push_text(&mut arguments, "image2");
    push_text(&mut arguments, "-vf");
    push_text(&mut arguments, "scale=320:240");
    push_text(&mut arguments, "-y");
    push_text(&mut arguments, "-");
    assert(texts(arguments@) =~= fallback_extraction(path@, offset@).arguments);
    Invocation { program: program_of(Tool::Encoder), arguments }
}

/// Builds the command that opens a file with the system's program for it.
pub fn open_command(platform: Platform, path: &str) -> (command: Option<Invocation>)
    ensures
        match command {
            Some(found) => opener(platform, path@) == Some(found@),
            None => opener(platform, path@) is None,
        },
{
    let mut arguments: Vec<String> = Vec::new();
    assert(texts(arguments@) =~= Seq::empty());
    match platform {
        Platform::Windows => {
            push_text(&mut arguments, "/C");
            push_text(&mut arguments, "start");
            push_text(&mut arguments, "");
            push_text(&mut arguments, path);
            assert(texts(arguments@) =~= opener(platform, path@)->0.arguments);
            Some(Invocation { program: "cmd".to_owned(), arguments })
        },
        Platform::MacOs => {
            push_text(&mut arguments, path);
            assert(texts(arguments@) =~= opener(platform, path@)->0.arguments);
            Some(Invocation { program: "open".to_owned(), arguments })
        },
        Platform::Linux => {
            push_text(&mut arguments, path);
            assert(texts(arguments@) =~= opener(platform, path@)->0.arguments);
            Some(Invocation { program: "xdg-open".to_owned(), arguments })
        },
        Platform::Other => None,
    }
}

/// Whether the outcome of a version query shows that the tool can run: it
/// can wherever the process started, whatever it exited with.
pub fn tool_available(outcome: &Outcome) -> (available: bool)
    ensures
        available == (outcome@ is Exited),
{
    match outcome {
        Outcome::NotStarted { .. } => false,
        Outcome::Exited { .. } => true,
    }
}

} // verus!
