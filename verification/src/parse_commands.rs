//! The command parser: one framed message in, one `Command` or an error
//! message out.
//!
//! The grammar is stated as spec functions on sequences of characters; the
//! executable parser is proved to compute exactly what they say.

use crate::commands::{Command, CommandView};
use crate::text::{trim, uppercase, Scanner};
use vstd::prelude::*;
use vstd::string::StringExecFns;
use vstd::utf8::{decode_utf8, valid_utf8};

verus! {

pub type ParseResult = Result<Command, String>;

/// A parse result as a mathematical value.
pub type ParseModel = Result<CommandView, Seq<char>>;

pub open spec fn parse_model(result: ParseResult) -> ParseModel {
    match result {
        Ok(command) => Ok(command@),
        Err(message) => Err(message@),
    }
}

// ---------------------------------------------------------------------------
// Error messages
// ---------------------------------------------------------------------------

pub open spec fn non_utf8_message() -> Seq<char> {
    "Non utf8 characters in command"@
}

pub open spec fn malformed_message() -> Seq<char> {
    "Malformed command"@
}

pub open spec fn unquoted_message(c: char) -> Seq<char> {
    "Unqouted character: "@.push(c)
}

pub open spec fn unescapeable_message(c: char) -> Seq<char> {
    "unescapeable character: "@.push(c)
}

pub open spec fn missing_quote_message() -> Seq<char> {
    "Missing end quote"@
}

pub open spec fn unknown_command_message(name: Seq<char>) -> Seq<char> {
    "Unknown Command: "@ + name
}

pub open spec fn arity_message(verb: Seq<char>) -> Seq<char> {
    "Incorrect number of arguments for "@ + verb
}

// ---------------------------------------------------------------------------
// The grammar
// ---------------------------------------------------------------------------

/// How many characters stand before the first space, or the length where
/// there is no space.
pub open spec fn name_len(s: Seq<char>) -> nat
    decreases s.len(),
{
    if s.len() == 0 || s[0] == ' ' {
        0
    } else {
        1 + name_len(s.drop_first())
    }
}

/// The command name as written: everything before the first space.
pub open spec fn raw_name(s: Seq<char>) -> Seq<char> {
    s.take(name_len(s) as int)
}

/// What follows the command name and the space that ends it.
pub open spec fn after_name(s: Seq<char>) -> Seq<char> {
    if name_len(s) < s.len() {
        s.skip(name_len(s) as int + 1)
    } else {
        Seq::empty()
    }
}

/// A command name may hold neither a quote nor a backslash.
pub open spec fn name_is_malformed(s: Seq<char>) -> bool {
    raw_name(s).contains('\'') || raw_name(s).contains('\\')
}

pub open spec fn after_spaces(s: Seq<char>) -> Seq<char>
    decreases s.len(),
{
    if s.len() > 0 && s[0] == ' ' {
        after_spaces(s.drop_first())
    } else {
        s
    }
}

/// The result of reading a token: its value and what follows it.
pub type Token = Result<(Seq<char>, Seq<char>), Seq<char>>;

/// The token with `prefix` put before its value.
pub open spec fn with_prefix(prefix: Seq<char>, token: Token) -> Token {
    match token {
        Ok((value, rest)) => Ok((prefix + value, rest)),
        Err(message) => Err(message),
    }
}

/// Reads the body of a quoted argument; `s` is what follows the opening
/// quote. A backslash stands before a quote or a backslash that belongs to
/// the value; the first quote without one ends the argument. Where the
/// message ends before that quote, be it right after a backslash, the
/// argument was not closed.
pub open spec fn spec_quoted_string(s: Seq<char>) -> Token
    decreases s.len(),
{
    if s.len() == 0 {
        Err(missing_quote_message())
    } else if s[0] == '\'' {
        Ok((Seq::empty(), s.drop_first()))
    } else if s[0] == '\\' {
        if s.len() == 1 {
            Err(missing_quote_message())
        } else if s[1] == '\'' || s[1] == '\\' {
            with_prefix(seq![s[1]], spec_quoted_string(s.skip(2)))
        } else {
            Err(unescapeable_message(s[1]))
        }
    } else {
        with_prefix(seq![s[0]], spec_quoted_string(s.drop_first()))
    }
}

pub open spec fn with_arguments(
    first: Seq<Seq<char>>,
    more: Result<Seq<Seq<char>>, Seq<char>>,
) -> Result<Seq<Seq<char>>, Seq<char>> {
    match more {
        Ok(arguments) => Ok(first + arguments),
        Err(message) => Err(message),
    }
}

/// Reads the arguments: quoted strings with spaces before, between and
/// after them.
pub open spec fn spec_arguments(s: Seq<char>) -> Result<Seq<Seq<char>>, Seq<char>>
    decreases s.len(),
    via spec_arguments_decreases
{
    let t = after_spaces(s);
    if t.len() == 0 {
        Ok(Seq::empty())
    } else if t[0] != '\'' {
        Err(unquoted_message(t[0]))
    } else {
        match spec_quoted_string(t.drop_first()) {
            Ok((argument, rest)) => with_arguments(seq![argument], spec_arguments(rest)),
            Err(message) => Err(message),
        }
    }
}

#[via_fn]
proof fn spec_arguments_decreases(s: Seq<char>) {
    let t = after_spaces(s);
    lemma_after_spaces_is_suffix(s);
    if t.len() > 0 {
        lemma_quoted_string_consumes(t.drop_first());
    }
}

pub proof fn lemma_name_len_bound(s: Seq<char>)
    ensures
        name_len(s) <= s.len(),
    decreases s.len(),
{
    if s.len() > 0 && s[0] != ' ' {
        lemma_name_len_bound(s.drop_first());
    }
}

/// The seven verbs, character by character.
pub proof fn lemma_verbs()
    ensures
        "PUSH"@ == seq!['P', 'U', 'S', 'H'],
        "POP"@ == seq!['P', 'O', 'P'],
        "BPOP"@ == seq!['B', 'P', 'O', 'P'],
        "QUIT"@ == seq!['Q', 'U', 'I', 'T'],
        "BEGIN"@ == seq!['B', 'E', 'G', 'I', 'N'],
        "COMMIT"@ == seq!['C', 'O', 'M', 'M', 'I', 'T'],
        "ABORT"@ == seq!['A', 'B', 'O', 'R', 'T'],
{
    reveal_strlit("PUSH");
    reveal_strlit("POP");
    reveal_strlit("BPOP");
    reveal_strlit("QUIT");
    reveal_strlit("BEGIN");
    reveal_strlit("COMMIT");
    reveal_strlit("ABORT");
}

pub proof fn lemma_after_spaces_is_suffix(s: Seq<char>)
    ensures
        after_spaces(s).len() <= s.len(),
        after_spaces(s) == s.skip(s.len() - after_spaces(s).len()),
        after_spaces(s).len() > 0 ==> after_spaces(s)[0] != ' ',
    decreases s.len(),
{
    if s.len() > 0 && s[0] == ' ' {
        lemma_after_spaces_is_suffix(s.drop_first());
    }
}

pub proof fn lemma_quoted_string_consumes(s: Seq<char>)
    ensures
        spec_quoted_string(s) is Ok ==> spec_quoted_string(s)->Ok_0.1.len() < s.len(),
    decreases s.len(),
{
    if s.len() > 0 && s[0] != '\'' {
        if s[0] != '\\' {
            lemma_quoted_string_consumes(s.drop_first());
        } else if s.len() > 1 && (s[1] == '\'' || s[1] == '\\') {
            lemma_quoted_string_consumes(s.skip(2));
        }
    }
}

// ---------------------------------------------------------------------------
// Dispatch
// ---------------------------------------------------------------------------

/// The command that an upper-case name and its arguments stand for.
pub open spec fn spec_build_command(name: Seq<char>, arguments: Seq<Seq<char>>) -> ParseModel {
    if name == "PUSH"@ {
        if arguments.len() == 2 {
            Ok(CommandView::Push(arguments[1], arguments[0]))
        } else {
            Err(arity_message(name))
        }
    } else if name == "POP"@ {
        if arguments.len() == 1 {
            Ok(CommandView::Pop(arguments[0]))
        } else {
            Err(arity_message(name))
        }
    } else if name == "BPOP"@ {
        if arguments.len() == 1 {
            Ok(CommandView::BlockingPop(arguments[0]))
        } else {
            Err(arity_message(name))
        }
    } else if name == "QUIT"@ {
        if arguments.len() == 0 {
            Ok(CommandView::Quit)
        } else {
            Err(arity_message(name))
        }
    } else if name == "BEGIN"@ {
        if arguments.len() == 0 {
            Ok(CommandView::Begin)
        } else {
            Err(arity_message(name))
        }
    } else if name == "COMMIT"@ {
        if arguments.len() == 0 {
            Ok(CommandView::Commit)
        } else {
            Err(arity_message(name))
        }
    } else if name == "ABORT"@ {
        if arguments.len() == 0 {
            Ok(CommandView::Abort)
        } else {
            Err(arity_message(name))
        }
    } else {
        Err(unknown_command_message(name))
    }
}

/// The command that a message's text stands for.
pub open spec fn spec_parse_text(text: Seq<char>) -> ParseModel {
    let s = trim(text);
    if name_is_malformed(s) {
        Err(malformed_message())
    } else {
        match spec_arguments(after_name(s)) {
            Ok(arguments) => spec_build_command(uppercase(raw_name(s)), arguments),
            Err(message) => Err(message),
        }
    }
}

/// The command that a message's bytes stand for.
pub open spec fn spec_parse_command(buffer: Seq<u8>) -> ParseModel {
    if valid_utf8(buffer) {
        spec_parse_text(decode_utf8(buffer))
    } else {
        Err(non_utf8_message())
    }
}

// ---------------------------------------------------------------------------
// The parser
// ---------------------------------------------------------------------------

/// The arguments by their characters.
pub open spec fn texts(arguments: Seq<String>) -> Seq<Seq<char>> {
    Seq::new(arguments.len(), |i: int| arguments[i]@)
}

/// Reads one framed message, the delimiter already taken off.
pub fn parse_command(buffer: Vec<u8>) -> (result: ParseResult)
    ensures
        parse_model(result) == spec_parse_command(buffer@),
{
    let text = match string_from_utf8(buffer) {
        Ok(text) => text,
        Err(message) => {
            return Err(message);
        },
    };
    let mut chars = Scanner::new(text.as_str());
    let command_name = match parse_command_name(&mut chars) {
        Ok(command_name) => command_name,
        Err(message) => {
            return Err(message);
        },
    };
    let arguments = match parse_arguments(&mut chars) {
        Ok(arguments) => arguments,
        Err(message) => {
            return Err(message);
        },
    };
    build_command(command_name, arguments)
}

fn string_from_utf8(buffer: Vec<u8>) -> (result: Result<String, String>)
    ensures
        result is Ok <==> valid_utf8(buffer@),
        result is Ok ==> result->Ok_0@ == decode_utf8(buffer@),
        result is Err ==> result->Err_0@ == non_utf8_message(),
{
    match String::from_utf8(buffer) {
        Ok(text) => Ok(text),
        Err(_) => Err("Non utf8 characters in command".to_string()),
    }
}

/// `prefix` followed by the character `c`.
fn message_about(prefix: &str, c: char) -> (message: String)
    ensures
        message@ == prefix@.push(c),
{
    let mut message = prefix.to_string();
    message.push(c);
    message
}

/// `prefix` followed by `name`.
fn message_naming(prefix: &str, name: &str) -> (message: String)
    ensures
        message@ == prefix@ + name@,
{
    let mut message = prefix.to_string();
    message.append(name);
    message
}

fn parse_command_name(buffer: &mut Scanner) -> (result: Result<String, String>)
    ensures
        result is Err <==> name_is_malformed(old(buffer).remaining()),
        result is Err ==> result->Err_0@ == malformed_message(),
        result is Ok ==> result->Ok_0@ == uppercase(raw_name(old(buffer).remaining()))
            && final(buffer).remaining() == after_name(old(buffer).remaining()),
{
    let ghost text = buffer.remaining();
    let mut command_name = String::new();
    loop
        invariant_except_break
            text == old(buffer).remaining(),
            command_name@.len() + buffer.remaining().len() == text.len(),
            command_name@ == text.take(command_name@.len() as int),
            buffer.remaining() == text.skip(command_name@.len() as int),
            name_len(text) == command_name@.len() + name_len(buffer.remaining()),
            !command_name@.contains('\'') && !command_name@.contains('\\'),
        ensures
            text == old(buffer).remaining(),
            raw_name(text) == command_name@,
            !name_is_malformed(text),
            buffer.remaining() == after_name(text),
        decreases buffer.remaining().len(),
    {
        let ghost read = command_name@;
        let ghost rest = buffer.remaining();
        match buffer.next() {
            Some(c) => {
                proof {
                    lemma_name_len_bound(rest.drop_first());
                }
                if c == '\'' || c == '\\' {
                    proof {
                        assert(raw_name(text)[read.len() as int] == c);
                    }
                    return Err("Malformed command".to_string());
                } else if c == ' ' {
                    break ;
                } else {
                    command_name.push(c);
                    proof {
                        assert forall|i: int| 0 <= i < command_name@.len() implies command_name@[i]
                            != '\'' && command_name@[i] != '\\' by {
                            if i < read.len() {
                                assert(read.contains(read[i]));
                            }
                        }
                    }
                }
            },
            None => {
                break ;
            },
        }
    }
    Ok(command_name.as_str().to_uppercase())
}

/// What reading one argument gives: nothing at the end of the message, else
/// the argument and what follows it.
pub open spec fn spec_argument(s: Seq<char>) -> Result<Option<(Seq<char>, Seq<char>)>, Seq<char>> {
    let t = after_spaces(s);
    if t.len() == 0 {
        Ok(None)
    } else if t[0] != '\'' {
        Err(unquoted_message(t[0]))
    } else {
        match spec_quoted_string(t.drop_first()) {
            Ok(token) => Ok(Some(token)),
            Err(message) => Err(message),
        }
    }
}

fn parse_arguments(buffer: &mut Scanner) -> (result: Result<Vec<String>, String>)
    ensures
        match spec_arguments(old(buffer).remaining()) {
            Ok(arguments) => result is Ok && texts(result->Ok_0@) == arguments,
            Err(message) => result is Err && result->Err_0@ == message,
        },
{
    let ghost text = buffer.remaining();
    let mut arguments: Vec<String> = Vec::new();
    loop
        invariant
            text == old(buffer).remaining(),
            spec_arguments(text) == with_arguments(
                texts(arguments@),
                spec_arguments(buffer.remaining()),
            ),
        decreases buffer.remaining().len(),
    {
        let ghost rest = buffer.remaining();
        let ghost read = texts(arguments@);
        proof {
            lemma_after_spaces_is_suffix(rest);
            if after_spaces(rest).len() > 0 {
                lemma_quoted_string_consumes(after_spaces(rest).drop_first());
            }
        }
        match parse_argument(buffer) {
            Ok(Some(argument)) => {
                arguments.push(argument);
                proof {
                    let more = spec_arguments(buffer.remaining());
                    assert(texts(arguments@) =~= read + seq![argument@]);
                    if more is Ok {
                        assert((read + seq![argument@]) + more->Ok_0 =~= read + (seq![argument@]
                            + more->Ok_0));
                    }
                }
            },
            Ok(None) => {
                return Ok(arguments);
            },
            Err(message) => {
                return Err(message);
            },
        }
    }
}

/// Skips spaces and reads the character after them.
fn skip_spaces(buffer: &mut Scanner) -> (c: Option<char>)
    ensures
        c is Some <==> after_spaces(old(buffer).remaining()).len() > 0,
        c is Some ==> c->0 == after_spaces(old(buffer).remaining())[0],
        c is Some ==> final(buffer).remaining() == after_spaces(
            old(buffer).remaining(),
        ).drop_first(),
{
    loop
        invariant
            after_spaces(buffer.remaining()) == after_spaces(old(buffer).remaining()),
        decreases buffer.remaining().len(),
    {
        match buffer.next() {
            Some(c) => {
                if c != ' ' {
                    return Some(c);
                }
            },
            None => {
                return None;
            },
        }
    }
}

fn parse_argument(buffer: &mut Scanner) -> (result: Result<Option<String>, String>)
    ensures
        match spec_argument(old(buffer).remaining()) {
            Ok(Some((argument, rest))) => result is Ok && result->Ok_0 is Some
                && result->Ok_0->0@ == argument && final(buffer).remaining() == rest,
            Ok(None) => result is Ok && result->Ok_0 is None,
            Err(message) => result is Err && result->Err_0@ == message,
        },
{
    match skip_spaces(buffer) {
        Some(c) => {
            if c == '\'' {
                match parse_quoted_string(buffer) {
                    Ok(argument) => Ok(Some(argument)),
                    Err(message) => Err(message),
                }
            } else {
                Err(message_about("Unqouted character: ", c))
            }
        },
        None => Ok(None),
    }
}

fn parse_quoted_string(buffer: &mut Scanner) -> (result: Result<String, String>)
    ensures
        match spec_quoted_string(old(buffer).remaining()) {
            Ok((value, rest)) => result is Ok && result->Ok_0@ == value
                && final(buffer).remaining() == rest,
            Err(message) => result is Err && result->Err_0@ == message,
        },
{
    let ghost text = buffer.remaining();
    let mut current_string = String::new();
    loop
        invariant
            text == old(buffer).remaining(),
            spec_quoted_string(text) == with_prefix(
                current_string@,
                spec_quoted_string(buffer.remaining()),
            ),
        decreases buffer.remaining().len(),
    {
        let ghost read = current_string@;
        let ghost rest = buffer.remaining();
        match buffer.next() {
            Some(c) => {
                if c == '\'' {
                    return Ok(current_string);
                } else if c == '\\' {
                    match parse_escaped_string(buffer) {
                        Ok(c) => {
                            current_string.push(c);
                            proof {
                                assert(buffer.remaining() =~= rest.skip(2));
                                let more = spec_quoted_string(buffer.remaining());
                                if more is Ok {
                                    assert(read.push(c) + more->Ok_0.0 =~= read + (seq![c]
                                        + more->Ok_0.0));
                                }
                            }
                        },
                        Err(message) => {
                            return Err(message);
                        },
                    }
                } else {
                    current_string.push(c);
                    proof {
                        let more = spec_quoted_string(buffer.remaining());
                        if more is Ok {
                            assert(read.push(c) + more->Ok_0.0 =~= read + (seq![c] + more->Ok_0.0));
                        }
                    }
                }
            },
            None => {
                return Err("Missing end quote".to_string());
            },
        }
    }
}

/// Reads the character after a backslash: a quote or a backslash, which is
/// the value's next character. Any other character is an error, and so is
/// the end of the message, where the argument was never closed. The
/// character is read in either case.
fn parse_escaped_string(buffer: &mut Scanner) -> (result: Result<char, String>)
    ensures
        ({
            let s = old(buffer).remaining();
            if s.len() == 0 {
                result is Err && result->Err_0@ == missing_quote_message() && final(buffer).remaining() == s
            } else if s[0] == '\'' || s[0] == '\\' {
                result == Ok::<char, String>(s[0]) && final(buffer).remaining() == s.drop_first()
            } else {
                result is Err && result->Err_0@ == unescapeable_message(s[0]) && final(buffer).remaining() == s.drop_first()
            }
        }),
{
    match buffer.next() {
        Some(c) => {
            if c == '\'' || c == '\\' {
                Ok(c)
            } else {
                Err(message_about("unescapeable character: ", c))
            }
        },
        None => Err("Missing end quote".to_string()),
    }
}

/// Whether `name` is the verb `verb`.
fn is_verb(name: &String, verb: &str) -> (result: bool)
    ensures
        result == (name@ == verb@),
{
    let verb = verb.to_string();
    *name == verb
}

/// The command that an upper-case name and its arguments stand for.
pub fn build_command(command_name: String, arguments: Vec<String>) -> (result: ParseResult)
    ensures
        parse_model(result) == spec_build_command(command_name@, texts(arguments@)),
{
    if is_verb(&command_name, "PUSH") {
        build_push(arguments)
    } else if is_verb(&command_name, "POP") {
        build_pop(arguments)
    } else if is_verb(&command_name, "BPOP") {
        build_bpop(arguments)
    } else if is_verb(&command_name, "QUIT") {
        build_with_no_args(arguments, "QUIT", Command::Quit)
    } else if is_verb(&command_name, "BEGIN") {
        build_with_no_args(arguments, "BEGIN", Command::Begin)
    } else if is_verb(&command_name, "COMMIT") {
        build_with_no_args(arguments, "COMMIT", Command::Commit)
    } else if is_verb(&command_name, "ABORT") {
        build_with_no_args(arguments, "ABORT", Command::Abort)
    } else {
        Err(message_naming("Unknown Command: ", command_name.as_str()))
    }
}

fn build_push(arguments: Vec<String>) -> (result: Result<Command, String>)
    ensures
        parse_model(result) == spec_build_command("PUSH"@, texts(arguments@)),
{
    proof {
        lemma_verbs();
    }
    if arguments.len() == 2 {
        let queue_name = arguments[0].clone();
        let value = arguments[1].clone();
        Ok(Command::Push(value, queue_name))
    } else {
        Err(message_naming("Incorrect number of arguments for ", "PUSH"))
    }
}

fn build_pop(arguments: Vec<String>) -> (result: Result<Command, String>)
    ensures
        parse_model(result) == spec_build_command("POP"@, texts(arguments@)),
{
    proof {
        lemma_verbs();
    }
    if arguments.len() == 1 {
        let queue_name = arguments[0].clone();
        Ok(Command::Pop(queue_name))
    } else {
        Err(message_naming("Incorrect number of arguments for ", "POP"))
    }
}

fn build_bpop(arguments: Vec<String>) -> (result: Result<Command, String>)
    ensures
        parse_model(result) == spec_build_command("BPOP"@, texts(arguments@)),
{
    proof {
        lemma_verbs();
    }
    if arguments.len() == 1 {
        let queue_name = arguments[0].clone();
        Ok(Command::BlockingPop(queue_name))
    } else {
        Err(message_naming("Incorrect number of arguments for ", "BPOP"))
    }
}

fn build_with_no_args(
    arguments: Vec<String>,
    command_name: &'static str,
    command: Command,
) -> (result: Result<Command, String>)
    ensures
        arguments@.len() == 0 ==> result == Ok::<Command, String>(command),
        arguments@.len() != 0 ==> result is Err && result->Err_0@ == arity_message(command_name@),
{
    if arguments.len() == 0 {
        Ok(command)
    } else {
        Err(message_naming("Incorrect number of arguments for ", command_name))
    }
}

} // verus!
