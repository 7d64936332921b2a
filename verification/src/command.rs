//! The command line: which lookup is asked for, and of what.
//!
//! The words are scanned from first to last and the last of each sort counts: the function
//! is the last word that names one, the argument is the word after the last function word
//! that has a word after it, and the list file is the word after the last list flag that
//! has a word after it. Other words are passed over. A command needs a function and an
//! argument; where a list file is named as well, the identifiers are those that the file
//! lists and the argument is not looked up.

use vstd::prelude::*;
use vstd::string::*;
use crate::page::Operation;
use crate::text::{same_text, trim, trimmed};

verus! {

/// Where the identifiers to look up come from.
#[derive(Clone, Debug, PartialEq, Eq)]
pub enum Source {
    /// The one identifier given on the command line.
    Argument(String),
    /// The file that lists the identifiers, one to a line.
    ListFile(String),
}

/// The model of a [`Source`].
pub enum SourceView {
    /// The identifier.
    Argument(Seq<char>),
    /// The path of the file.
    ListFile(Seq<char>),
}

impl View for Source {
    type V = SourceView;

    open spec fn view(&self) -> SourceView {
        match self {
            Source::Argument(identifier) => SourceView::Argument(identifier@),
            Source::ListFile(path) => SourceView::ListFile(path@),
        }
    }
}

/// What a command line asks for.
#[derive(Clone, Debug, PartialEq, Eq)]
pub struct Command {
    /// The lookup to make.
    pub operation: Operation,
    /// What to look up.
    pub source: Source,
}

/// The model of a [`Command`].
pub struct CommandView {
    /// The lookup to make.
    pub operation: Operation,
    /// What to look up.
    pub source: SourceView,
}

impl View for Command {
    type V = CommandView;

    open spec fn view(&self) -> CommandView {
        CommandView { operation: self.operation, source: self.source@ }
    }
}

/// Why a command line asks for nothing.
#[derive(Clone, Copy, Debug, PartialEq, Eq, Structural)]
pub enum UsageError {
    /// No word names a function.
    MissingFunction,
    /// No function word has a word after it.
    MissingArgument,
}

/// The function that a word names, if it names one.
pub open spec fn function_of(word: Seq<char>) -> Option<Operation> {
    if word == "subnet"@ {
        Some(Operation::Subnet)
    } else if word == "asn"@ {
        Some(Operation::Asn)
    } else {
        None
    }
}

/// The word is a list flag.
pub open spec fn is_list_flag(word: Seq<char>) -> bool {
    word == "-l"@ || word == "--list"@
}

/// The index of the last of the first `n` words that names a function.
pub open spec fn last_function(words: Seq<Seq<char>>, n: int) -> Option<int>
    decreases n,
{
    if n <= 0 {
        None
    } else if function_of(words[n - 1]) is Some {
        Some(n - 1)
    } else {
        last_function(words, n - 1)
    }
}

/// The index of the last of the first `n` words that is a list flag.
pub open spec fn last_list_flag(words: Seq<Seq<char>>, n: int) -> Option<int>
    decreases n,
{
    if n <= 0 {
        None
    } else if is_list_flag(words[n - 1]) {
        Some(n - 1)
    } else {
        last_list_flag(words, n - 1)
    }
}

/// How many of the first `n` words have a word after them.
pub open spec fn scanned(words: Seq<Seq<char>>, n: int) -> int {
    if n < words.len() {
        n
    } else {
        words.len() - 1
    }
}

/// What the words of a command line ask for.
pub open spec fn parsed(words: Seq<Seq<char>>) -> Result<CommandView, UsageError> {
    match last_function(words, words.len() as int) {
        None => Err(UsageError::MissingFunction),
        Some(function) => match last_function(words, words.len() - 1) {
            None => Err(UsageError::MissingArgument),
            Some(before) => Ok(
                CommandView {
                    operation: function_of(words[function])->0,
                    source: match last_list_flag(words, words.len() - 1) {
                        Some(flag) => SourceView::ListFile(words[flag + 1]),
                        None => SourceView::Argument(words[before + 1]),
                    },
                },
            ),
        },
    }
}

/// [`last_function`] finds a word that names a function and has none after it; it finds
/// nothing only where no word names one.
pub proof fn lemma_last_function(words: Seq<Seq<char>>, n: int)
    requires
        n <= words.len(),
    ensures
        match last_function(words, n) {
            Some(i) => 0 <= i < n && function_of(words[i]) is Some && forall|k: int|
                i < k < n ==> function_of(#[trigger] words[k]) is None,
            None => forall|k: int| 0 <= k < n ==> function_of(#[trigger] words[k]) is None,
        },
    decreases n,
{
    if n > 0 && function_of(words[n - 1]) is None {
        lemma_last_function(words, n - 1);
    }
}

/// [`last_list_flag`] finds a list flag that has none after it; it finds nothing only where
/// no word is one.
pub proof fn lemma_last_list_flag(words: Seq<Seq<char>>, n: int)
    requires
        n <= words.len(),
    ensures
        match last_list_flag(words, n) {
            Some(i) => 0 <= i < n && is_list_flag(words[i]) && forall|k: int|
                i < k < n ==> !is_list_flag(#[trigger] words[k]),
            None => forall|k: int| 0 <= k < n ==> !is_list_flag(#[trigger] words[k]),
        },
    decreases n,
{
    if n > 0 && !is_list_flag(words[n - 1]) {
        lemma_last_list_flag(words, n - 1);
    }
}

/// The function that `word` names.
pub fn function_named(word: &str) -> (r: Option<Operation>)
    ensures
        r == function_of(word@),
{
    if same_text(word, "subnet") {
        Some(Operation::Subnet)
    } else if same_text(word, "asn") {
        Some(Operation::Asn)
    } else {
        None
    }
}

/// Reads a command line, the program's own name included or not.
///
/// Fails where no word names a function, and where none of the function words has a word
/// after it. Otherwise the command is that of the last function word, on the list file
/// where one is named and on the argument where none is.
pub fn parse_command(args: &Vec<String>) -> (r: Result<Command, UsageError>)
    ensures
        match r {
            Ok(command) => parsed(args.deep_view()) == Ok::<CommandView, UsageError>(command@),
            Err(error) => parsed(args.deep_view()) == Err::<CommandView, UsageError>(error),
        },
{
    let ghost words = args.deep_view();
    let mut function: Option<Operation> = None;
    let mut argument: Option<usize> = None;
    let mut list: Option<usize> = None;
    let mut i: usize = 0;
    while i < args.len()
        invariant
            i <= args.len(),
            words == args.deep_view(),
            match last_function(words, i as int) {
                Some(at) => 0 <= at < i && function is Some && function == function_of(words[at]),
                None => function is None,
            },
            match argument {
                Some(at) => 1 <= at < words.len() && last_function(words, scanned(words, i as int))
                    == Some(at - 1),
                None => last_function(words, scanned(words, i as int)) is None,
            },
            match list {
                Some(at) => 1 <= at < words.len() && last_list_flag(words, scanned(words, i as int))
                    == Some(at - 1),
                None => last_list_flag(words, scanned(words, i as int)) is None,
            },
        decreases args.len() - i,
    {
        let word = args[i].as_str();
        if same_text(word, "-l") || same_text(word, "--list") {
            if i + 1 < args.len() {
                list = Some(i + 1);
            }
        }
        match function_named(word) {
            Some(operation) => {
                function = Some(operation);
                if i + 1 < args.len() {
                    argument = Some(i + 1);
                }
            },
            None => {},
        }
        i = i + 1;
    }
    match function {
        None => Err(UsageError::MissingFunction),
        Some(operation) => match argument {
            None => Err(UsageError::MissingArgument),
            Some(at) => {
                let source = match list {
                    Some(path) => Source::ListFile(args[path].clone()),
                    None => Source::Argument(args[at].clone()),
                };
                Ok(Command { operation, source })
            },
        },
    }
}

/// Each line without the white space around it. No line is left out, an empty one neither.
pub open spec fn trimmed_each(lines: Seq<Seq<char>>) -> Seq<Seq<char>> {
    Seq::new(lines.len(), |i: int| trimmed(lines[i]))
}

/// The identifiers that the lines of a list hold: each line without the white space around
/// it, in order.
pub fn list_identifiers(lines: &Vec<String>) -> (r: Vec<String>)
    ensures
        r.deep_view() == trimmed_each(lines.deep_view()),
{
    let mut identifiers: Vec<String> = Vec::new();
    let mut i: usize = 0;
    while i < lines.len()
        invariant
            i <= lines.len(),
            identifiers@.len() == i,
            forall|k: int| 0 <= k < i ==> (#[trigger] identifiers@[k])@ == trimmed(lines@[k]@),
        decreases lines.len() - i,
    {
        identifiers.push(trim(lines[i].as_str()));
        i = i + 1;
    }
    identifiers
}

} // verus!
