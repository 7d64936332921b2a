//! What a traversal hands out: records for the output stream and diagnostics for the error
//! stream, and how a diagnostic reads.

use vstd::prelude::*;
use vstd::string::*;
use crate::fetch::FetchError;
use crate::page::{Operation, Target};

verus! {

/// The report of a lookup whose page could not be had.
#[derive(Clone, Debug, PartialEq, Eq)]
pub struct Diagnostic {
    pub operation: Operation,
    pub identifier: String,
    pub error: FetchError,
}

impl Diagnostic {
    /// The lookup that failed.
    pub open spec fn target(&self) -> Target {
        Target { operation: self.operation, identifier: self.identifier@ }
    }
}

/// What a traversal hands out for printing.
#[derive(Clone, Debug, PartialEq, Eq)]
pub enum Output {
    /// A hostname, for the output stream.
    Record(String),
    /// A failed lookup, for the error stream.
    Failure(Diagnostic),
}

/// The model of an [`Output`].
pub enum Emission {
    /// A record and its text.
    Record(Seq<char>),
    /// The lookup that failed and why.
    Failure(Target, FetchError),
}

impl View for Output {
    type V = Emission;

    open spec fn view(&self) -> Emission {
        match self {
            Output::Record(text) => Emission::Record(text@),
            Output::Failure(diagnostic) => Emission::Failure(diagnostic.target(), diagnostic.error),
        }
    }
}

/// The ten digits.
pub open spec fn digits() -> Seq<char> {
    seq!['0', '1', '2', '3', '4', '5', '6', '7', '8', '9']
}

/// The decimal numeral of `n`, without leading zeros.
pub open spec fn decimal_text(n: nat) -> Seq<char>
    decreases n,
{
    if n < 10 {
        seq![digits()[n as int]]
    } else {
        decimal_text(n / 10).push(digits()[(n % 10) as int])
    }
}

/// How an operation is called in a diagnostic.
pub open spec fn operation_text(operation: Operation) -> Seq<char> {
    match operation {
        Operation::Subnet => "subnet"@,
        Operation::Asn => "ASN"@,
    }
}

/// How the cause of a failure reads.
pub open spec fn cause_text(error: FetchError) -> Seq<char> {
    match error {
        FetchError::Transport => "the registry could not be reached"@,
        FetchError::Status(status) => "request failed with status code "@ + decimal_text(
            status as nat,
        ),
    }
}

/// How the diagnostic of a failed lookup reads: what was looked up, as what, and why it
/// failed.
pub open spec fn message_text(target: Target, error: FetchError) -> Seq<char> {
    "Failed to fetch data for "@ + operation_text(target.operation) + " "@ + target.identifier
        + ": "@ + cause_text(error)
}

/// The numeral of one digit.
fn digit(d: u16) -> (r: &'static str)
    requires
        d < 10,
    ensures
        r@ == seq![digits()[d as int]],
{
    proof {
        reveal_strlit("0");
        reveal_strlit("1");
        reveal_strlit("2");
        reveal_strlit("3");
        reveal_strlit("4");
        reveal_strlit("5");
        reveal_strlit("6");
        reveal_strlit("7");
        reveal_strlit("8");
        reveal_strlit("9");
    }
    match d {
        0 => "0",
        1 => "1",
        2 => "2",
        3 => "3",
        4 => "4",
        5 => "5",
        6 => "6",
        7 => "7",
        8 => "8",
        _ => "9",
    }
}

/// The decimal numeral of `n`.
pub fn decimal(n: u16) -> (r: String)
    ensures
        r@ == decimal_text(n as nat),
    decreases n,
{
    if n < 10 {
        String::from_str(digit(n))
    } else {
        let mut numeral = decimal(n / 10);
        numeral.append(digit(n % 10));
        numeral
    }
}

impl FetchError {
    /// How the cause reads in a diagnostic.
    pub fn cause(&self) -> (r: String)
        ensures
            r@ == cause_text(*self),
    {
        match self {
            FetchError::Transport => String::from_str("the registry could not be reached"),
            FetchError::Status(status) => {
                let mut text = String::from_str("request failed with status code ");
                let numeral = decimal(*status);
                text.append(numeral.as_str());
                text
            },
        }
    }
}

impl Diagnostic {
    /// The diagnostic as a line of text that names the identifier and the cause.
    pub fn message(&self) -> (r: String)
        ensures
            r@ == message_text(self.target(), self.error),
    {
        let mut line = String::from_str("Failed to fetch data for ");
        match self.operation {
            Operation::Subnet => line.append("subnet"),
            Operation::Asn => line.append("ASN"),
        }
        line.append(" ");
        line.append(self.identifier.as_str());
        line.append(": ");
        let cause = self.error.cause();
        line.append(cause.as_str());
        line
    }
}

/// The text holds no line break.
pub open spec fn one_line(text: Seq<char>) -> bool {
    forall|i: int| 0 <= i < text.len() ==> (#[trigger] text[i]) != '\n' && text[i] != '\r'
}

/// A numeral holds no line break.
pub proof fn lemma_decimal_one_line(n: nat)
    ensures
        one_line(decimal_text(n)),
    decreases n,
{
    if n >= 10 {
        lemma_decimal_one_line(n / 10);
    }
}

/// A diagnostic names the identifier of the lookup that failed, and it is one line of text
/// where the identifier is.
pub proof fn lemma_message_names_identifier(target: Target, error: FetchError)
    ensures
        exists|at: int|
            0 <= at && at + target.identifier.len() <= message_text(target, error).len()
                && #[trigger] message_text(target, error).subrange(
                at,
                at + target.identifier.len() as int,
            ) == target.identifier,
        one_line(target.identifier) ==> one_line(message_text(target, error)),
{
    let head = "Failed to fetch data for "@ + operation_text(target.operation) + " "@;
    let message = message_text(target, error);
    assert(message.subrange(head.len() as int, (head.len() + target.identifier.len()) as int)
        =~= target.identifier);
    if one_line(target.identifier) {
        reveal_strlit("Failed to fetch data for ");
        reveal_strlit("subnet");
        reveal_strlit("ASN");
        reveal_strlit(" ");
        reveal_strlit(": ");
        reveal_strlit("the registry could not be reached");
        reveal_strlit("request failed with status code ");
        if let FetchError::Status(status) = error {
            lemma_decimal_one_line(status as nat);
        }
    }
}

} // verus!
