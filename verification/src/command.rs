//! The command line: what can be asked for, and how the words of a command
//! line say it.
//!
//! The grammar knows two subcommands and no flags. Flags that a front end
//! offers of its own, such as one for help, are its business: here every word
//! that starts with a hyphen is refused.

use crate::order::{rank, Rank};
use crate::render::{report_lines, text_of};
use crate::report::ReportView;
use crate::resolver::{
    covers, get_runtime_version, resolve, version_label, version_line, ResolveError,
};
use vstd::prelude::*;
use vstd::std_specs::iter::IteratorSpec;
use vstd::string::*;

verus! {

broadcast use vstd::string::group_string_axioms;

/// What the tool is asked to do.
#[derive(Debug)]
pub enum Command {
    /// Report the interpreter's version.
    Version,
    /// Report which of `names` can be imported. A command made by `parse`
    /// holds at least one name.
    PackageCheck { names: Vec<String> },
}

/// A command, with its names as plain sequences.
pub enum CommandView {
    Version,
    PackageCheck { names: Seq<Seq<char>> },
}

impl View for Command {
    type V = CommandView;

    open spec fn view(&self) -> CommandView {
        match self {
            Command::Version => CommandView::Version,
            Command::PackageCheck { names } => CommandView::PackageCheck {
                names: names.deep_view(),
            },
        }
    }
}

/// Why a command line says nothing that can be done.
#[derive(Debug)]
pub enum UsageError {
    /// No subcommand was given.
    MissingSubcommand,
    /// `package` was given without a name.
    MissingNames,
    /// The first word is no subcommand.
    UnknownSubcommand { word: String },
    /// A flag, or a word after `version`: nothing is expected there.
    UnexpectedArgument { word: String },
}

/// A usage error, with its word as a plain sequence.
pub enum UsageErrorView {
    MissingSubcommand,
    MissingNames,
    UnknownSubcommand { word: Seq<char> },
    UnexpectedArgument { word: Seq<char> },
}

impl View for UsageError {
    type V = UsageErrorView;

    open spec fn view(&self) -> UsageErrorView {
        match self {
            UsageError::MissingSubcommand => UsageErrorView::MissingSubcommand,
            UsageError::MissingNames => UsageErrorView::MissingNames,
            UsageError::UnknownSubcommand { word } => UsageErrorView::UnknownSubcommand {
                word: word@,
            },
            UsageError::UnexpectedArgument { word } => UsageErrorView::UnexpectedArgument {
                word: word@,
            },
        }
    }
}

/// A word that starts with a hyphen.
pub open spec fn is_flag(word: Seq<char>) -> bool {
    word.len() > 0 && word[0] == '-'
}

/// The first flag among `words`, if there is one.
pub open spec fn first_flag(words: Seq<Seq<char>>) -> Option<Seq<char>>
    decreases words.len(),
{
    if words.len() == 0 {
        None
    } else if is_flag(words[0]) {
        Some(words[0])
    } else {
        first_flag(words.drop_first())
    }
}

/// What a command line means. Its first word is the program's name and is
/// passed over; the second is the subcommand; the names follow.
pub open spec fn parse_spec(argv: Seq<Seq<char>>) -> Result<CommandView, UsageErrorView> {
    if argv.len() < 2 {
        Err(UsageErrorView::MissingSubcommand)
    } else if is_flag(argv[1]) {
        Err(UsageErrorView::UnexpectedArgument { word: argv[1] })
    } else if argv[1] == "version"@ {
        if argv.len() == 2 {
            Ok(CommandView::Version)
        } else {
            Err(UsageErrorView::UnexpectedArgument { word: argv[2] })
        }
    } else if argv[1] == "package"@ {
        if argv.len() == 2 {
            Err(UsageErrorView::MissingNames)
        } else {
            match first_flag(argv.skip(2)) {
                Some(flag) => Err(UsageErrorView::UnexpectedArgument { word: flag }),
                None => Ok(CommandView::PackageCheck { names: argv.skip(2) }),
            }
        }
    } else {
        Err(UsageErrorView::UnknownSubcommand { word: argv[1] })
    }
}

/// The outcome of `parse`, with command and error as plain values.
pub open spec fn outcome(r: Result<Command, UsageError>) -> Result<CommandView, UsageErrorView> {
    match r {
        Ok(command) => Ok(command@),
        Err(error) => Err(error@),
    }
}

/// A command that can be carried out: a package check names at least one
/// package.
pub open spec fn well_formed(command: CommandView) -> bool {
    command is PackageCheck ==> command->names.len() > 0
}

/// Every command that a command line is read as is well formed; and
/// `package` alone, as any command line without a subcommand, is read as
/// none.
pub proof fn lemma_parsed_names(argv: Seq<Seq<char>>)
    ensures
        parse_spec(argv) matches Ok(command) ==> well_formed(command),
        argv.len() < 2 ==> parse_spec(argv) is Err,
        argv.len() == 2 && argv[1] == "package"@ ==> parse_spec(argv) matches Err(
            UsageErrorView::MissingNames,
        ),
{
    reveal_strlit("package");
    reveal_strlit("version");
}

/// Whether `word` starts with a hyphen.
fn starts_with_hyphen(word: &str) -> (r: bool)
    ensures
        r == is_flag(word@),
{
    let mut letters = word.chars();
    match letters.next() {
        Some(first) => first == '-',
        None => false,
    }
}

/// The place of the first flag at or after `from`, or the length of `argv`
/// if there is none.
fn find_flag(argv: &Vec<String>, from: usize) -> (r: usize)
    requires
        from <= argv.len(),
    ensures
        from <= r <= argv.len(),
        r == argv.len() ==> first_flag(argv.deep_view().skip(from as int)) is None,
        r < argv.len() ==> first_flag(argv.deep_view().skip(from as int)) == Some(
            argv.deep_view()[r as int],
        ),
{
    let ghost words = argv.deep_view();
    let mut at: usize = from;
    while at < argv.len()
        invariant
            from <= at <= argv.len(),
            words == argv.deep_view(),
            first_flag(words.skip(from as int)) == first_flag(words.skip(at as int)),
        decreases argv.len() - at,
    {
        assert(words.skip(at as int).drop_first() =~= words.skip(at + 1));
        assert(words.skip(at as int)[0] == words[at as int]);
        if starts_with_hyphen(argv[at].as_str()) {
            return at;
        }
        at += 1;
    }
    at
}

/// Reads a command line. It is refused where no subcommand is given, where
/// `package` is given without a name, where the first word is no subcommand,
/// and where a flag or a word after `version` appears; else the command is
/// the one that the words name.
pub fn parse(argv: &Vec<String>) -> (r: Result<Command, UsageError>)
    ensures
        outcome(r) == parse_spec(argv.deep_view()),
{
    let ghost words = argv.deep_view();
    if argv.len() < 2 {
        return Err(UsageError::MissingSubcommand);
    }
    let word = argv[1].as_str();
    if starts_with_hyphen(word) {
        return Err(UsageError::UnexpectedArgument { word: argv[1].clone() });
    }
    if rank(word, "version") == Rank::Same {
        if argv.len() == 2 {
            return Ok(Command::Version);
        }
        return Err(UsageError::UnexpectedArgument { word: argv[2].clone() });
    }
    if rank(word, "package") == Rank::Same {
        if argv.len() == 2 {
            return Err(UsageError::MissingNames);
        }
        let at = find_flag(argv, 2);
        if at < argv.len() {
            return Err(UsageError::UnexpectedArgument { word: argv[at].clone() });
        }
        let mut names: Vec<String> = Vec::new();
        let mut i: usize = 2;
        assert(names.deep_view() =~= words.subrange(2, 2));
        while i < argv.len()
            invariant
                2 <= i <= argv.len(),
                words == argv.deep_view(),
                names.deep_view() == words.subrange(2, i as int),
            decreases argv.len() - i,
        {
            let ghost before = names.deep_view();
            names.push(argv[i].clone());
            assert(names.deep_view() =~= before.push(words[i as int]));
            assert(names.deep_view() =~= words.subrange(2, i + 1));
            i += 1;
        }
        assert(words.subrange(2, i as int) =~= words.skip(2));
        return Ok(Command::PackageCheck { names });
    }
    Err(UsageError::UnknownSubcommand { word: argv[1].clone() })
}

/// What is said of a usage error.
pub open spec fn message_of(error: UsageErrorView) -> Seq<char> {
    match error {
        UsageErrorView::MissingSubcommand => "a subcommand is required"@,
        UsageErrorView::MissingNames => "at least one package name is required"@,
        UsageErrorView::UnknownSubcommand { word } => "unrecognized subcommand '"@ + word + "'"@,
        UsageErrorView::UnexpectedArgument { word } => "unexpected argument '"@ + word + "'"@,
    }
}

/// How the tool is called.
pub open spec fn usage_text() -> Seq<char> {
    "Usage: pyq <version | package NAME...>"@
}

impl UsageError {
    /// What went wrong, in words; the word that was refused stands in quotes.
    pub fn message(&self) -> (r: String)
        ensures
            r@ == message_of(self@),
    {
        match self {
            UsageError::MissingSubcommand => String::from_str("a subcommand is required"),
            UsageError::MissingNames => String::from_str("at least one package name is required"),
            UsageError::UnknownSubcommand { word } => {
                let mut text = String::from_str("unrecognized subcommand '");
                text.append(word.as_str());
                text.append("'");
                text
            },
            UsageError::UnexpectedArgument { word } => {
                let mut text = String::from_str("unexpected argument '");
                text.append(word.as_str());
                text.append("'");
                text
            },
        }
    }

    /// One line that shows how the tool is called.
    pub fn usage() -> (r: String)
        ensures
            r@ == usage_text(),
    {
        String::from_str("Usage: pyq <version | package NAME...>")
    }
}

/// The text that reports `version`: its line, and a line feed.
pub open spec fn version_text(version: Seq<char>) -> Seq<char> {
    version_label() + version + seq!['\n']
}

/// `text` is the report `v`, written out, and `v` covers `names`.
pub open spec fn writes_out(text: Seq<char>, v: ReportView, names: Seq<Seq<char>>) -> bool {
    covers(v, names) && text == text_of(report_lines(v))
}

/// `text` reports some version.
pub open spec fn is_version_text(text: Seq<char>) -> bool {
    exists|version: Seq<char>| text == #[trigger] version_text(version)
}

/// `text` is some report that covers `names`, written out.
pub open spec fn is_report_text(text: Seq<char>, names: Seq<Seq<char>>) -> bool {
    exists|v: ReportView| writes_out(text, v, names)
}

/// `text` is something that `command` may print: for `Version` the report of
/// some version, for `PackageCheck` some report that covers its names,
/// written out.
pub open spec fn may_print(command: CommandView, text: Seq<char>) -> bool {
    match command {
        CommandView::Version => is_version_text(text),
        CommandView::PackageCheck { names } => is_report_text(text, names),
    }
}

/// Does what `command` asks and hands back the text to print. A command
/// that is not well formed is refused; the only other failure is that the
/// interpreter could not be asked.
pub fn run(command: &Command) -> (r: Result<String, ResolveError>)
    ensures
        r matches Ok(text) ==> may_print(command@, text@),
        !well_formed(command@) <==> r matches Err(ResolveError::InvalidInput),
{
    match command {
        Command::Version => {
            match get_runtime_version() {
                Ok(version) => {
                    let mut text = version_line(version.as_str());
                    text.append("\n");
                    proof {
                        reveal_strlit("\n");
                        assert("\n"@ =~= seq!['\n']);
                        assert(text@ == version_text(version@));
                    }
                    Ok(text)
                },
                Err(error) => Err(error),
            }
        },
        Command::PackageCheck { names } => {
            match resolve(names) {
                Ok(report) => {
                    let text = report.render();
                    assert(writes_out(text@, report@, names.deep_view()));
                    Ok(text)
                },
                Err(error) => Err(error),
            }
        },
    }
}

} // verus!
