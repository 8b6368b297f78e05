//! What the subcommands share in reading their arguments.

use vstd::prelude::*;

use crate::float_key::FloatKey;
use crate::text::{concat2, same_text, starts_with};

verus! {

/// An argument and what it reads as where a number is asked for.
#[derive(Debug, Clone)]
pub struct CliToken {
    pub text: String,
    /// The number that the text writes.
    pub number: Option<FloatKey>,
    /// The number that the text writes behind its first equals sign.
    pub amount: Option<FloatKey>,
}

/// What a subcommand makes of the arguments of the program.
#[derive(Debug, Clone)]
pub enum CliRequest<C> {
    /// The arguments are not for this subcommand.
    Other,
    /// The arguments are for this subcommand and cannot be used.
    Refused(String),
    /// The subcommand is to run.
    Run(C),
}

/// Whether an argument is an option.
pub open spec fn option_like(text: Seq<char>) -> bool {
    "--"@.is_prefix_of(text)
}

/// What is said of an option that a subcommand does not have.
pub open spec fn unknown_option(text: Seq<char>) -> Seq<char> {
    "unknown option "@ + text
}

/// What is said of an argument for which there is no place.
pub open spec fn unexpected_argument(text: Seq<char>) -> Seq<char> {
    "unexpected positional argument "@ + text
}

pub fn is_option(text: &str) -> (r: bool)
    ensures
        r == option_like(text@),
{
    starts_with(text, "--")
}

pub fn unknown_option_message(text: &str) -> (r: String)
    ensures
        r@ == unknown_option(text@),
{
    concat2("unknown option ", text)
}

pub fn unexpected_argument_message(text: &str) -> (r: String)
    ensures
        r@ == unexpected_argument(text@),
{
    concat2("unexpected positional argument ", text)
}

/// Whether the arguments of the program name a subcommand.
pub open spec fn names_command(args: Seq<Seq<char>>, command: Seq<char>) -> bool {
    args.len() > 0 && args[0] == command
}

/// Whether the arguments of the program name a subcommand.
pub fn is_command(args: &Vec<String>, command: &str) -> (r: bool)
    ensures
        r == names_command(crate::text::texts(args@), command@),
{
    args.len() > 0 && same_text(args[0].as_str(), command)
}

/// The texts of arguments.
pub open spec fn token_texts(args: Seq<CliToken>) -> Seq<Seq<char>> {
    args.map_values(|a: CliToken| a.text@)
}

/// Whether the arguments of the program name a subcommand.
pub fn is_token_command(args: &Vec<CliToken>, command: &str) -> (r: bool)
    ensures
        r == names_command(token_texts(args@), command@),
{
    args.len() > 0 && same_text(args[0].text.as_str(), command)
}

} // verus!
