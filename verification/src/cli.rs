//! The switches that steer a listing.

use vstd::prelude::*;
use crate::entry::{lossy_string, lossy_text, optional_text};
use vstd::string::StrSliceExecFns;
use vstd::utf8::encode_utf8;

verus! {

/// The switches of one run and the path to list.
#[derive(Debug)]
pub struct Flags {
    /// show this help message
    pub help: (),
    /// do not ignore entries starting with `.`
    pub show_hidden: bool,
    /// show sizes of files; use -h for human-readable units
    pub show_size: bool,
    /// print sizes in human-readable units
    pub human: bool,
    /// reverse order when sorting (-S, -t)
    pub reverse_sort: bool,
    /// sort by file size, largest first (specify -r for smallest first)
    pub sort_by_size: bool,
    /// long listing (-l)
    pub long_listing: bool,
    /// sort by time modified, newest first (specify -r for oldest first)
    pub sort_by_modified_time: bool,
    /// list files separated by `, `
    pub stream_output: bool,
    /// path to list entries from, byte for byte as it was given
    pub path: Option<Vec<u8>>,
}

impl Default for Flags {
    /// Every switch off and no path.
    fn default() -> (flags: Flags)
        ensures
            !flags.show_hidden,
            !flags.show_size,
            !flags.human,
            !flags.reverse_sort,
            !flags.sort_by_size,
            !flags.long_listing,
            !flags.sort_by_modified_time,
            !flags.stream_output,
            flags.path is None,
    {
        Flags {
            help: (),
            show_hidden: false,
            show_size: false,
            human: false,
            reverse_sort: false,
            sort_by_size: false,
            long_listing: false,
            sort_by_modified_time: false,
            stream_output: false,
            path: None,
        }
    }
}

/// `clap::Command`: the description of a command line, opaque here.
#[verifier::external_type_specification]
#[verifier::external_body]
pub struct ExCommand(clap::Command);

/// `clap::ArgMatches`: what parsing a command line found, opaque here.
#[verifier::external_type_specification]
#[verifier::external_body]
pub struct ExArgMatches(clap::ArgMatches);

/// Why a command line gave no flags: the text to show for it, and whether it is a
/// failure (a usage error) or the answer to a request (the help).
#[derive(Debug)]
pub struct Refusal {
    pub message: String,
    pub failure: bool,
}

/// What the parser reports of each switch, and the path as it was given. A switch
/// that the parser does not know of is `None`.
#[derive(Debug)]
pub struct Parsed {
    pub show_hidden: Option<bool>,
    pub show_size: Option<bool>,
    pub human: Option<bool>,
    pub reverse_sort: Option<bool>,
    pub sort_by_size: Option<bool>,
    pub long_listing: Option<bool>,
    pub sort_by_modified_time: Option<bool>,
    pub stream_output: Option<bool>,
    pub path: Option<Vec<u8>>,
}

/// The arguments that a command holds, in the order in which they were added: what
/// `clap::Command::get_arguments` lists, each with its id, its short and long form, the
/// name of its value, its help text and its action.
pub uninterp spec fn command_args(command: clap::Command) -> Seq<ArgSpec>;

/// The name of a command and its description: what `clap::Command::get_name` and
/// `clap::Command::get_about` give.
pub uninterp spec fn command_title(command: clap::Command) -> (Seq<char>, Seq<char>);

/// Whether a command is made up of its name, its description and its arguments alone:
/// clap's own help flag is switched off, and nothing else is set, on the command or on
/// an argument, beyond what `clap::Command::new` and `clap::Arg::new` set themselves.
pub uninterp spec fn is_plain(command: clap::Command) -> bool;

/// `clap::Command::new`, `about` and `disable_help_flag(true)`: a command of this name
/// and description that has no arguments yet and will not get clap's own `-h`. The
/// contract states this as clap's source shows it.
#[verifier::external_body]
fn new_command(name: &'static str, about: &'static str) -> (command: clap::Command)
    ensures
        command_args(command) == Seq::<ArgSpec>::empty(),
        command_title(command) == (name@, about@),
        is_plain(command),
{
    clap::Command::new(name).about(about).disable_help_flag(true)
}

/// What an argument of the command line does.
#[derive(Debug, Clone, Copy, PartialEq, Eq, Structural)]
pub enum ArgKind {
    /// A switch that is off unless it is given.
    Switch,
    /// The switch that asks for the help text.
    Help,
    /// An argument that carries a value.
    Value,
}

/// One argument of the command line: how it is written and what the help says of it.
/// An argument with neither a short nor a long form is given by its position.
#[derive(Debug, Clone, Copy)]
pub struct ArgSpec {
    pub id: &'static str,
    pub short: Option<char>,
    pub long: Option<&'static str>,
    pub value_name: Option<&'static str>,
    pub help: &'static str,
    pub kind: ArgKind,
}

/// `clap::Command::arg` with a `clap::Arg` made from `spec`: the command with one more
/// argument. The kinds stand for clap's actions `SetTrue`, `Help` and `Set`. The
/// contract states that the argument is added behind those that are there and that
/// nothing else changes, as clap's source shows. A hyphen is no short form: clap
/// asserts that.
#[verifier::external_body]
fn with_arg(command: clap::Command, spec: ArgSpec) -> (extended: clap::Command)
    requires
        spec.short != Some('-'),
    ensures
        command_args(extended) == command_args(command).push(spec),
        command_title(extended) == command_title(command),
        is_plain(extended) == is_plain(command),
{
    let action = match spec.kind {
        ArgKind::Switch => clap::ArgAction::SetTrue,
        ArgKind::Help => clap::ArgAction::Help,
        ArgKind::Value => clap::ArgAction::Set,
    };
    command.arg(
        clap::Arg::new(spec.id).short(spec.short).long(spec.long).value_name(
            spec.value_name,
        ).help(spec.help).action(action),
    )
}

/// A switch with this id, short form, long form and help text.
pub open spec fn switch_spec(
    id: &'static str,
    short: char,
    long: &'static str,
    help: &'static str,
) -> ArgSpec {
    ArgSpec {
        id,
        short: Some(short),
        long: Some(long),
        value_name: None,
        help,
        kind: ArgKind::Switch,
    }
}

/// The switch that asks for the help text: `--help`, with no short form.
pub open spec fn help_spec() -> ArgSpec {
    ArgSpec {
        id: "help",
        short: None,
        long: Some("help"),
        value_name: None,
        help: "show this help message",
        kind: ArgKind::Help,
    }
}

/// The path to list, given by its position.
pub open spec fn path_spec() -> ArgSpec {
    ArgSpec {
        id: "path",
        short: None,
        long: None,
        value_name: Some("PATH"),
        help: "path to list entries from",
        kind: ArgKind::Value,
    }
}

/// The arguments of the command line, in the order in which the help lists them.
pub open spec fn flag_table() -> Seq<ArgSpec> {
    seq![
        help_spec(),
        switch_spec("show_hidden", 'a', "all", "do not ignore entries starting with `.`"),
        switch_spec(
            "show_size",
            's',
            "sizes",
            "show sizes of files; use -h for human-readable units",
        ),
        switch_spec("human", 'h', "human", "print sizes in human-readable units"),
        switch_spec("reverse_sort", 'r', "reverse", "reverse order when sorting (-S, -t)"),
        switch_spec(
            "sort_by_size",
            'S',
            "sort-size",
            "sort by file size, largest first (specify -r for smallest first)",
        ),
        switch_spec("long_listing", 'l', "long-listing", "long listing (-l)"),
        switch_spec(
            "sort_by_modified_time",
            't',
            "sort-mtime",
            "sort by time modified, newest first (specify -r for oldest first)",
        ),
        switch_spec("stream_output", 'm', "stream-output", "list files separated by `, `"),
        path_spec(),
    ]
}

/// Computes [`switch_spec`].
fn switch(id: &'static str, short: char, long: &'static str, help: &'static str) -> (spec: ArgSpec)
    ensures
        spec == switch_spec(id, short, long, help),
{
    ArgSpec {
        id,
        short: Some(short),
        long: Some(long),
        value_name: None,
        help,
        kind: ArgKind::Switch,
    }
}

/// What clap finds in a command line, for a plain command of this name and description
/// that holds these arguments. Where clap takes the line: the switches and the texts by
/// id. Where it refuses the line: whether that is a failure, which belongs on the error
/// stream, or the answer to a request for the help. The first item of `line` is the
/// program's name.
pub uninterp spec fn clap_finds(
    name: Seq<char>,
    about: Seq<char>,
    args: Seq<ArgSpec>,
    line: Seq<Seq<char>>,
) -> Result<(Map<Seq<char>, bool>, Map<Seq<char>, Seq<char>>), bool>;

/// `clap::Command::try_get_matches_from`: parses `args`, of which the first is the
/// program's name. An error of clap is handed on as its rendered text
/// (`clap::Error::render`) and whether it belongs on the error stream
/// (`clap::Error::use_stderr`). Parsing depends on the command and the line alone, so
/// the contract names its outcome; of the text of a refusal it says nothing. It is
/// asked for the command of [`flag_table`] only, which clap accepts as well formed.
#[verifier::external_body]
fn match_args(command: clap::Command, args: &Vec<String>) -> (found: Result<
    clap::ArgMatches,
    Refusal,
>)
    requires
        is_plain(command),
        command_args(command) == flag_table(),
        command_title(command) == (program_name(), program_about()),
    ensures
        match clap_finds(
            command_title(command).0,
            command_title(command).1,
            command_args(command),
            args.deep_view(),
        ) {
            Ok(held) => found matches Ok(matches) && switches_in(matches) == held.0
                && texts_in(matches) == held.1,
            Err(failure) => found matches Err(refusal) && refusal.failure == failure,
        },
{
    match command.try_get_matches_from(args) {
        Ok(matches) => Ok(matches),
        Err(error) => Err(
            Refusal { message: error.render().to_string(), failure: error.use_stderr() },
        ),
    }
}

/// The switches that matches hold, by id: what `clap::ArgMatches::try_get_one::<bool>`
/// finds under each id.
pub uninterp spec fn switches_in(matches: clap::ArgMatches) -> Map<Seq<char>, bool>;

/// The texts that matches hold, by id: what `clap::ArgMatches::try_get_one::<String>`
/// finds under each id.
pub uninterp spec fn texts_in(matches: clap::ArgMatches) -> Map<Seq<char>, Seq<char>>;

/// `clap::ArgMatches::try_get_one::<bool>`: whether the switch `id` was given; `None`
/// where the matches hold no switch of this id. The contract names what is found.
#[verifier::external_body]
fn switch_value(matches: &clap::ArgMatches, id: &str) -> (value: Option<bool>)
    ensures
        value == if switches_in(*matches).contains_key(id@) {
            Some(switches_in(*matches)[id@])
        } else {
            None
        },
{
    matches.try_get_one::<bool>(id).ok().flatten().copied()
}

/// `clap::ArgMatches::try_get_one::<String>`: the value of the argument `id`, if one
/// was given. The contract names what is found.
#[verifier::external_body]
fn text_value(matches: &clap::ArgMatches, id: &str) -> (value: Option<String>)
    ensures
        optional_text(value) == if texts_in(*matches).contains_key(id@) {
            Some(texts_in(*matches)[id@])
        } else {
            None
        },
{
    matches.try_get_one::<String>(id).ok().flatten().cloned()
}

/// Whether `switches` hold the switch `id` as given.
pub open spec fn switch_on(switches: Map<Seq<char>, bool>, id: Seq<char>) -> bool {
    switches.contains_key(id) && switches[id]
}

/// The text that `texts` hold under `id`, if they hold one.
pub open spec fn text_in(texts: Map<Seq<char>, Seq<char>>, id: Seq<char>) -> Option<Seq<char>> {
    if texts.contains_key(id) {
        Some(texts[id])
    } else {
        None
    }
}

/// The text of each argument of a command line, which is what clap is asked about:
/// bytes that are no text are replaced.
pub open spec fn line_text(args: Seq<Vec<u8>>) -> Seq<Seq<char>> {
    Seq::new(args.len(), |i: int| lossy_text(args[i]@))
}

/// The bytes of the argument that `text` is the text of: those of the first argument
/// from place `from` on that has this text, and the bytes of the text itself if there
/// is none.
pub open spec fn given_from(args: Seq<Vec<u8>>, text: Seq<char>, from: int) -> Seq<u8>
    decreases args.len() - from,
{
    if from >= args.len() {
        encode_utf8(text)
    } else if lossy_text(args[from]@) == text {
        args[from]@
    } else {
        given_from(args, text, from + 1)
    }
}

/// Whether `flags` are what was found in a command line: each switch is on where the
/// argument of its name is held as given, and the path is the argument, behind the
/// program's name, whose text is held under `path`, byte for byte.
pub open spec fn flags_fit(
    flags: Flags,
    switches: Map<Seq<char>, bool>,
    texts: Map<Seq<char>, Seq<char>>,
    args: Seq<Vec<u8>>,
) -> bool {
    &&& flags.show_hidden == switch_on(switches, "show_hidden"@)
    &&& flags.show_size == switch_on(switches, "show_size"@)
    &&& flags.human == switch_on(switches, "human"@)
    &&& flags.reverse_sort == switch_on(switches, "reverse_sort"@)
    &&& flags.sort_by_size == switch_on(switches, "sort_by_size"@)
    &&& flags.long_listing == switch_on(switches, "long_listing"@)
    &&& flags.sort_by_modified_time == switch_on(switches, "sort_by_modified_time"@)
    &&& flags.stream_output == switch_on(switches, "stream_output"@)
    &&& match text_in(texts, "path"@) {
        Some(text) => flags.path matches Some(path) && path@ == given_from(args, text, 1),
        None => flags.path is None,
    }
}

/// The name of the command.
pub open spec fn program_name() -> Seq<char> {
    "lsrs"@
}

/// The description of the command, as the help shows it.
pub open spec fn program_about() -> Seq<char> {
    "lsrs - list directory contents"@
}

impl Flags {
    /// The description of the command line: a plain command named `lsrs` that holds
    /// the arguments of [`flag_table`] in their order.
    pub fn command() -> (command: clap::Command)
        ensures
            command_args(command) == flag_table(),
            command_title(command) == (program_name(), program_about()),
            is_plain(command),
    {
        let help = ArgSpec {
            id: "help",
            short: None,
            long: Some("help"),
            value_name: None,
            help: "show this help message",
            kind: ArgKind::Help,
        };
        let path = ArgSpec {
            id: "path",
            short: None,
            long: None,
            value_name: Some("PATH"),
            help: "path to list entries from",
            kind: ArgKind::Value,
        };
        let command = new_command("lsrs", "lsrs - list directory contents");
        let command = with_arg(command, help);
        let command = with_arg(
            command,
            switch("show_hidden", 'a', "all", "do not ignore entries starting with `.`"),
        );
        let command = with_arg(
            command,
            switch(
                "show_size",
                's',
                "sizes",
                "show sizes of files; use -h for human-readable units",
            ),
        );
        let command = with_arg(
            command,
            switch("human", 'h', "human", "print sizes in human-readable units"),
        );
        let command = with_arg(
            command,
            switch("reverse_sort", 'r', "reverse", "reverse order when sorting (-S, -t)"),
        );
        let command = with_arg(
            command,
            switch(
                "sort_by_size",
                'S',
                "sort-size",
                "sort by file size, largest first (specify -r for smallest first)",
            ),
        );
        let command = with_arg(
            command,
            switch("long_listing", 'l', "long-listing", "long listing (-l)"),
        );
        let command = with_arg(
            command,
            switch(
                "sort_by_modified_time",
                't',
                "sort-mtime",
                "sort by time modified, newest first (specify -r for oldest first)",
            ),
        );
        let command = with_arg(
            command,
            switch("stream_output", 'm', "stream-output", "list files separated by `, `"),
        );
        let command = with_arg(command, path);
        assert(command_args(command) =~= flag_table());
        command
    }

    /// The flags that a parsed command line stands for: a switch is on where the parser
    /// reports it as given.
    pub fn from_parsed(parsed: Parsed) -> (flags: Flags)
        ensures
            flags.show_hidden == (parsed.show_hidden == Some(true)),
            flags.show_size == (parsed.show_size == Some(true)),
            flags.human == (parsed.human == Some(true)),
            flags.reverse_sort == (parsed.reverse_sort == Some(true)),
            flags.sort_by_size == (parsed.sort_by_size == Some(true)),
            flags.long_listing == (parsed.long_listing == Some(true)),
            flags.sort_by_modified_time == (parsed.sort_by_modified_time == Some(true)),
            flags.stream_output == (parsed.stream_output == Some(true)),
            flags.path == parsed.path,
    {
        Flags {
            help: (),
            show_hidden: is_on(parsed.show_hidden),
            show_size: is_on(parsed.show_size),
            human: is_on(parsed.human),
            reverse_sort: is_on(parsed.reverse_sort),
            sort_by_size: is_on(parsed.sort_by_size),
            long_listing: is_on(parsed.long_listing),
            sort_by_modified_time: is_on(parsed.sort_by_modified_time),
            stream_output: is_on(parsed.stream_output),
            path: parsed.path,
        }
    }

    /// The flags that matches stand for, with the path taken from the command line
    /// `args` that the matches were found in.
    pub fn from_matches(matches: &clap::ArgMatches, args: &Vec<Vec<u8>>) -> (flags: Flags)
        ensures
            flags_fit(flags, switches_in(*matches), texts_in(*matches), args@),
    {
        let path = match text_value(matches, "path") {
            Some(text) => Some(given_bytes(args, &text)),
            None => None,
        };
        let parsed = Parsed {
            show_hidden: switch_value(matches, "show_hidden"),
            show_size: switch_value(matches, "show_size"),
            human: switch_value(matches, "human"),
            reverse_sort: switch_value(matches, "reverse_sort"),
            sort_by_size: switch_value(matches, "sort_by_size"),
            long_listing: switch_value(matches, "long_listing"),
            sort_by_modified_time: switch_value(matches, "sort_by_modified_time"),
            stream_output: switch_value(matches, "stream_output"),
            path,
        };
        Self::from_parsed(parsed)
    }

    /// Parses a command line, of which the first argument is the program's name, as
    /// [`Flags::command`] describes it. Clap is asked about the text of the arguments.
    /// The flags are returned where clap takes the line, and are what it finds in it,
    /// with the path byte for byte as it was given; where clap refuses the line, for an
    /// error or to show the help, the refusal is returned, marked as a failure or not as
    /// clap has it.
    pub fn from_args(args: &Vec<Vec<u8>>) -> (found: Result<Flags, Refusal>)
        ensures
            match clap_finds(program_name(), program_about(), flag_table(), line_text(args@)) {
                Ok(held) => found matches Ok(flags) && flags_fit(flags, held.0, held.1, args@),
                Err(failure) => found matches Err(refusal) && refusal.failure == failure,
            },
    {
        let mut texts: Vec<String> = Vec::new();
        let mut index: usize = 0;
        while index < args.len()
            invariant
                index <= args.len(),
                texts.len() == index,
                forall|i: int| 0 <= i < index ==> (#[trigger] texts@[i])@ == lossy_text(args@[i]@),
            decreases args.len() - index,
        {
            texts.push(lossy_string(&args[index]));
            index = index + 1;
        }
        assert(texts.deep_view() =~= line_text(args@));
        match match_args(Self::command(), &texts) {
            Ok(matches) => Ok(Self::from_matches(&matches, args)),
            Err(refusal) => Err(refusal),
        }
    }
}

/// Computes [`given_from`] from the argument behind the program's name on.
fn given_bytes(args: &Vec<Vec<u8>>, text: &String) -> (bytes: Vec<u8>)
    ensures
        bytes@ == given_from(args@, text@, 1),
{
    let mut index: usize = 1;
    while index < args.len()
        invariant
            1 <= index,
            given_from(args@, text@, 1) == given_from(args@, text@, index as int),
        decreases args.len() - index,
    {
        if lossy_string(&args[index]) == *text {
            return copy_of(&args[index]);
        }
        index = index + 1;
    }
    text.as_str().as_bytes_vec()
}

/// A copy of `bytes`.
fn copy_of(bytes: &Vec<u8>) -> (copy: Vec<u8>)
    ensures
        copy@ == bytes@,
{
    let mut copy: Vec<u8> = Vec::new();
    let mut index: usize = 0;
    while index < bytes.len()
        invariant
            index <= bytes.len(),
            copy@ == bytes@.take(index as int),
        decreases bytes.len() - index,
    {
        copy.push(bytes[index]);
        assert(copy@ =~= bytes@.take(index + 1));
        index = index + 1;
    }
    assert(bytes@.take(bytes.len() as int) =~= bytes@);
    copy
}

fn is_on(value: Option<bool>) -> (on: bool)
    ensures
        on == (value == Some(true)),
{
    match value {
        Some(on) => on,
        None => false,
    }
}

} // verus!
