//! Writing a command as a message, and the proof that the parser reads it
//! back.

use crate::commands::{Command, CommandView};
use crate::parse_commands::{
    after_name, after_spaces, lemma_verbs, name_is_malformed, name_len, raw_name, spec_arguments,
    spec_build_command, spec_parse_command, spec_parse_text, spec_quoted_string, with_arguments,
    with_prefix,
};
use crate::text::{ascii_uppercase, is_white_space, trim, trim_end, trim_start, uppercase};
use vstd::prelude::*;
use vstd::utf8::{encode_utf8, encode_utf8_decode_utf8, encode_utf8_valid_utf8, is_ascii_chars};

verus! {

/// A character as it stands inside quotes: a quote or a backslash gets a
/// backslash before it.
pub open spec fn escaped_char(c: char) -> Seq<char> {
    if c == '\'' || c == '\\' {
        seq!['\\', c]
    } else {
        seq![c]
    }
}

/// A value as it stands inside quotes.
pub open spec fn escaped(s: Seq<char>) -> Seq<char>
    decreases s.len(),
{
    if s.len() == 0 {
        Seq::empty()
    } else {
        escaped_char(s[0]) + escaped(s.drop_first())
    }
}

/// A value as an argument: escaped, between two quotes.
pub open spec fn quoted(s: Seq<char>) -> Seq<char> {
    seq!['\''] + escaped(s) + seq!['\'']
}

/// The verb of a command.
pub open spec fn verb_of(cmd: CommandView) -> Seq<char> {
    match cmd {
        CommandView::Quit => "QUIT"@,
        CommandView::Push(_, _) => "PUSH"@,
        CommandView::Pop(_) => "POP"@,
        CommandView::BlockingPop(_) => "BPOP"@,
        CommandView::Begin => "BEGIN"@,
        CommandView::Commit => "COMMIT"@,
        CommandView::Abort => "ABORT"@,
    }
}

/// The arguments of a command in the order in which they are written: a
/// push names its queue first.
pub open spec fn arguments_of(cmd: CommandView) -> Seq<Seq<char>> {
    match cmd {
        CommandView::Push(value, queue_name) => seq![queue_name, value],
        CommandView::Pop(queue_name) => seq![queue_name],
        CommandView::BlockingPop(queue_name) => seq![queue_name],
        _ => Seq::empty(),
    }
}

/// The arguments as they are written: each quoted, with one space before it.
pub open spec fn arguments_text(arguments: Seq<Seq<char>>) -> Seq<char>
    decreases arguments.len(),
{
    if arguments.len() == 0 {
        Seq::empty()
    } else {
        seq![' '] + quoted(arguments[0]) + arguments_text(arguments.drop_first())
    }
}

/// The message that stands for a command: the verb, then the arguments.
pub open spec fn spec_format(cmd: CommandView) -> Seq<char> {
    verb_of(cmd) + arguments_text(arguments_of(cmd))
}

/// The text of one argument and of two.
proof fn lemma_arguments_text(first: Seq<char>, second: Seq<char>)
    ensures
        arguments_text(seq![first]) == seq![' '] + quoted(first),
        arguments_text(seq![first, second]) == seq![' '] + quoted(first) + seq![' '] + quoted(
            second,
        ),
{
    reveal_with_fuel(arguments_text, 3);
}

pub proof fn lemma_escaped_push(s: Seq<char>, c: char)
    ensures
        escaped(s.push(c)) == escaped(s) + escaped_char(c),
    decreases s.len(),
{
    if s.len() == 0 {
        let one = s.push(c);
        assert(escaped(one) == escaped_char(c) + escaped(one.drop_first()));
    } else {
        assert(s.push(c).drop_first() =~= s.drop_first().push(c));
        lemma_escaped_push(s.drop_first(), c);
    }
}

/// Appends `argument`, quoted, to `text`.
fn push_quoted(text: &mut String, argument: &str)
    ensures
        final(text)@ == old(text)@ + quoted(argument@),
{
    let ghost start = text@;
    text.push('\'');
    for c in it: argument.chars()
        invariant
            it.seq() == argument@,
            text@ == start + seq!['\''] + escaped(it.seq().take(it.index() as int)),
    {
        proof {
            let read = it.seq().take(it.index() as int);
            assert(it.seq().take(it.index() + 1) =~= read.push(c));
            lemma_escaped_push(read, c);
        }
        if c == '\'' || c == '\\' {
            text.push('\\');
        }
        text.push(c);
    }
    assert(argument@.take(argument@.len() as int) =~= argument@);
    text.push('\'');
}

impl Command {
    /// The message that stands for this command, without the delimiter.
    pub fn format(&self) -> (text: String)
        ensures
            text@ == spec_format(self@),
    {
        match self {
            Command::Quit => "QUIT".to_string(),
            Command::Push(value, queue_name) => {
                let mut text = "PUSH".to_string();
                text.push(' ');
                push_quoted(&mut text, queue_name.as_str());
                text.push(' ');
                push_quoted(&mut text, value.as_str());
                proof {
                    lemma_arguments_text(queue_name@, value@);
                }
                text
            },
            Command::Pop(queue_name) => {
                let mut text = "POP".to_string();
                text.push(' ');
                push_quoted(&mut text, queue_name.as_str());
                proof {
                    lemma_arguments_text(queue_name@, queue_name@);
                }
                text
            },
            Command::BlockingPop(queue_name) => {
                let mut text = "BPOP".to_string();
                text.push(' ');
                push_quoted(&mut text, queue_name.as_str());
                proof {
                    lemma_arguments_text(queue_name@, queue_name@);
                }
                text
            },
            Command::Begin => "BEGIN".to_string(),
            Command::Commit => "COMMIT".to_string(),
            Command::Abort => "ABORT".to_string(),
        }
    }
}

// ---------------------------------------------------------------------------
// Reading back what was written
// ---------------------------------------------------------------------------

/// One of the seven verbs.
pub open spec fn is_verb_text(verb: Seq<char>) -> bool {
    verb == "PUSH"@ || verb == "POP"@ || verb == "BPOP"@ || verb == "QUIT"@ || verb == "BEGIN"@
        || verb == "COMMIT"@ || verb == "ABORT"@
}

/// A verb is made of upper-case ASCII letters.
proof fn lemma_verb_letters(verb: Seq<char>)
    requires
        is_verb_text(verb),
    ensures
        verb.len() > 0,
        forall|i: int| 0 <= i < verb.len() ==> 'A' <= #[trigger] verb[i] <= 'Z',
{
    lemma_verbs();
}

/// The body of a quoted argument is read back as the value it was written
/// from, up to the closing quote.
pub proof fn lemma_quoted_round_trip(value: Seq<char>, tail: Seq<char>)
    ensures
        spec_quoted_string(escaped(value) + seq!['\''] + tail) == Ok::<
            (Seq<char>, Seq<char>),
            Seq<char>,
        >((value, tail)),
    decreases value.len(),
{
    let s = escaped(value) + seq!['\''] + tail;
    if value.len() == 0 {
        assert(s.drop_first() =~= tail);
        assert(value =~= Seq::<char>::empty());
    } else {
        let c = value[0];
        let rest = value.drop_first();
        let more = escaped(rest) + seq!['\''] + tail;
        lemma_quoted_round_trip(rest, tail);
        assert(seq![c] + rest =~= value);
        if c == '\'' || c == '\\' {
            assert(s.skip(2) =~= more);
        } else {
            assert(s.drop_first() =~= more);
        }
    }
}

/// A quoted argument at the start is read as the first argument.
pub proof fn lemma_arguments_quoted(value: Seq<char>, tail: Seq<char>)
    ensures
        spec_arguments(quoted(value) + tail) == with_arguments(seq![value], spec_arguments(tail)),
{
    let s = quoted(value) + tail;
    assert(s.drop_first() =~= escaped(value) + seq!['\''] + tail);
    lemma_quoted_round_trip(value, tail);
}

/// A space before the arguments changes nothing.
pub proof fn lemma_arguments_space(s: Seq<char>)
    ensures
        spec_arguments(seq![' '] + s) == spec_arguments(s),
{
    let t = seq![' '] + s;
    assert(t.drop_first() =~= s);
    assert(after_spaces(after_spaces(s)) == after_spaces(s)) by {
        crate::parse_commands::lemma_after_spaces_is_suffix(s);
    }
}

proof fn lemma_name_len_of_word(word: Seq<char>, tail: Seq<char>)
    requires
        forall|i: int| 0 <= i < word.len() ==> #[trigger] word[i] != ' ',
        tail.len() == 0 || tail[0] == ' ',
    ensures
        name_len(word + tail) == word.len(),
    decreases word.len(),
{
    if word.len() > 0 {
        let shorter = word.drop_first();
        assert((word + tail).drop_first() =~= shorter + tail);
        assert forall|i: int| 0 <= i < shorter.len() implies #[trigger] shorter[i] != ' ' by {
            assert(shorter[i] == word[i + 1]);
        }
        lemma_name_len_of_word(shorter, tail);
    }
}

/// A verb, alone or followed by a space and arguments that end in a quote,
/// is read as that verb with those arguments.
proof fn lemma_parse_verb(verb: Seq<char>, rest: Seq<char>)
    requires
        is_verb_text(verb),
        rest.len() == 0 || (rest[0] == ' ' && rest.last() == '\''),
    ensures
        spec_parse_text(verb + rest) == (match spec_arguments(
            if rest.len() == 0 {
                rest
            } else {
                rest.drop_first()
            },
        ) {
            Ok(arguments) => spec_build_command(verb, arguments),
            Err(message) => Err(message),
        }),
{
    let s = verb + rest;
    lemma_verb_letters(verb);
    // Nothing is trimmed: the text starts with a letter and ends with a
    // letter or a quote.
    assert(s[0] == verb[0]);
    assert(s.last() == if rest.len() == 0 { verb.last() } else { rest.last() });
    assert(trim(s) == s);
    // The name is the verb, and it is well formed and in upper case already.
    lemma_name_len_of_word(verb, rest);
    assert(raw_name(s) =~= verb);
    assert(!name_is_malformed(s)) by {
        assert forall|i: int| 0 <= i < verb.len() implies verb[i] != '\'' && verb[i]
            != '\\' by {
            assert('A' <= verb[i] <= 'Z');
        }
    }
    assert(uppercase(verb) =~= verb) by {
        assert forall|i: int| 0 <= i < verb.len() implies ascii_uppercase(#[trigger] verb[i])
            == verb[i] by {}
    }
    // The arguments are what follows the space.
    if rest.len() > 0 {
        assert(after_name(s) =~= rest.drop_first());
    } else {
        assert(after_name(s) =~= rest);
    }
}

/// The written arguments are read back as they were.
pub proof fn lemma_arguments_round_trip(arguments: Seq<Seq<char>>)
    ensures
        spec_arguments(arguments_text(arguments)) == Ok::<Seq<Seq<char>>, Seq<char>>(arguments),
        arguments.len() > 0 ==> arguments_text(arguments)[0] == ' ' && arguments_text(
            arguments,
        ).last() == '\'' && spec_arguments(arguments_text(arguments).drop_first()) == Ok::<
            Seq<Seq<char>>,
            Seq<char>,
        >(arguments),
    decreases arguments.len(),
{
    let text = arguments_text(arguments);
    if arguments.len() == 0 {
        assert(arguments =~= Seq::<Seq<char>>::empty());
    } else {
        let rest = arguments.drop_first();
        let more = arguments_text(rest);
        lemma_arguments_round_trip(rest);
        lemma_arguments_space(quoted(arguments[0]) + more);
        assert(text =~= seq![' '] + (quoted(arguments[0]) + more));
        lemma_arguments_quoted(arguments[0], more);
        assert(seq![arguments[0]] + rest =~= arguments);
    }
}

/// A command's verb and arguments stand for that command.
pub proof fn lemma_build_round_trip(cmd: CommandView)
    ensures
        is_verb_text(verb_of(cmd)),
        spec_build_command(verb_of(cmd), arguments_of(cmd)) == Ok::<CommandView, Seq<char>>(cmd),
{
    lemma_verbs();
}

/// Reading what `format` wrote gives the command back, whatever its
/// arguments hold.
pub proof fn lemma_parse_format(cmd: CommandView)
    ensures
        spec_parse_text(spec_format(cmd)) == Ok::<CommandView, Seq<char>>(cmd),
        spec_parse_command(encode_utf8(spec_format(cmd))) == Ok::<CommandView, Seq<char>>(cmd),
{
    lemma_build_round_trip(cmd);
    lemma_arguments_round_trip(arguments_of(cmd));
    lemma_parse_verb(verb_of(cmd), arguments_text(arguments_of(cmd)));
    encode_utf8_valid_utf8(spec_format(cmd));
    encode_utf8_decode_utf8(spec_format(cmd));
}

} // verus!
