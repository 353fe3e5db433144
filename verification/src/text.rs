//! Text handling under the parser: decoding, trimming, case folding and a
//! cursor over characters.

use std::string::FromUtf8Error;
use vstd::prelude::*;
use vstd::utf8::{decode_utf8, is_ascii_chars, valid_utf8};

verus! {

// ---------------------------------------------------------------------------
// Functions of the standard library, specified here and not proved
// ---------------------------------------------------------------------------

/// `std::string::FromUtf8Error`, the error of `String::from_utf8`. Nothing
/// is said of what it holds.
#[verifier::external_type_specification]
#[verifier::external_body]
pub struct ExFromUtf8Error(FromUtf8Error);

/// `String::from_utf8` succeeds exactly on well-formed UTF-8 and then holds
/// the characters that the bytes encode.
pub assume_specification[ String::from_utf8 ](vec: Vec<u8>) -> (result: Result<
    String,
    FromUtf8Error,
>)
    ensures
        result is Ok <==> valid_utf8(vec@),
        result is Ok ==> result->Ok_0@ == decode_utf8(vec@),
;

/// `String::push` appends one character.
pub assume_specification[ String::push ](s: &mut String, ch: char)
    ensures
        final(s)@ == old(s)@.push(ch),
;

/// The upper-case form that `str::to_uppercase` gives a string that holds a
/// character outside ASCII.
pub uninterp spec fn unicode_uppercase(s: Seq<char>) -> Seq<char>;

/// `str::to_uppercase` maps the letters `a` to `z` to `A` to `Z` and leaves
/// every other ASCII character as it is; of a string with a character outside
/// ASCII the contract only names the result.
pub assume_specification[ str::to_uppercase ](s: &str) -> (result: String)
    ensures
        is_ascii_chars(s@) ==> result@ == s@.map_values(|c: char| ascii_uppercase(c)),
        !is_ascii_chars(s@) ==> result@ == unicode_uppercase(s@),
;

// ---------------------------------------------------------------------------
// Case folding
// ---------------------------------------------------------------------------

pub open spec fn ascii_uppercase(c: char) -> char {
    if 'a' <= c <= 'z' {
        ((c as u32) - 32) as char
    } else {
        c
    }
}

/// A string folded to upper case.
pub open spec fn uppercase(s: Seq<char>) -> Seq<char> {
    if is_ascii_chars(s) {
        s.map_values(|c: char| ascii_uppercase(c))
    } else {
        unicode_uppercase(s)
    }
}

// ---------------------------------------------------------------------------
// White space
// ---------------------------------------------------------------------------

/// The characters that Unicode classes as White_Space.
pub open spec fn is_white_space(c: char) -> bool {
    let code = c as u32;
    ||| 0x09 <= code <= 0x0D
    ||| code == 0x20
    ||| code == 0x85
    ||| code == 0xA0
    ||| code == 0x1680
    ||| 0x2000 <= code <= 0x200A
    ||| code == 0x2028
    ||| code == 0x2029
    ||| code == 0x202F
    ||| code == 0x205F
    ||| code == 0x3000
}

pub open spec fn trim_start(s: Seq<char>) -> Seq<char>
    decreases s.len(),
{
    if s.len() > 0 && is_white_space(s[0]) {
        trim_start(s.drop_first())
    } else {
        s
    }
}

pub open spec fn trim_end(s: Seq<char>) -> Seq<char>
    decreases s.len(),
{
    if s.len() > 0 && is_white_space(s.last()) {
        trim_end(s.drop_last())
    } else {
        s
    }
}

/// The message without the white space before and after it.
pub open spec fn trim(s: Seq<char>) -> Seq<char> {
    trim_start(trim_end(s))
}

pub fn is_whitespace(c: char) -> (result: bool)
    ensures
        result == is_white_space(c),
{
    let code: u32 = c as u32;
    (0x09 <= code && code <= 0x0D) || code == 0x20 || code == 0x85 || code == 0xA0 || code
        == 0x1680 || (0x2000 <= code && code <= 0x200A) || code == 0x2028 || code == 0x2029
        || code == 0x202F || code == 0x205F || code == 0x3000
}

// ---------------------------------------------------------------------------
// A cursor over characters
// ---------------------------------------------------------------------------

/// What is left to read of a text.
pub struct Scanner {
    chars: Vec<char>,
    position: usize,
}

impl Scanner {
    #[verifier::type_invariant]
    spec fn inv(self) -> bool {
        self.position <= self.chars@.len()
    }

    /// The characters not read yet.
    pub closed spec fn remaining(&self) -> Seq<char> {
        self.chars@.skip(self.position as int)
    }

    /// A cursor at the start of `text` without the white space around it.
    pub fn new(text: &str) -> (scanner: Scanner)
        ensures
            scanner.remaining() == trim(text@),
    {
        let mut chars: Vec<char> = Vec::new();
        for c in it: text.chars()
            invariant
                chars@ == it.seq().take(it.index() as int),
                it.seq() == text@,
        {
            chars.push(c);
        }
        assert(chars@ =~= text@);
        while chars.len() > 0 && is_whitespace(chars[chars.len() - 1])
            invariant
                trim_end(chars@) == trim_end(text@),
            decreases chars.len(),
        {
            chars.pop();
        }
        let mut position: usize = 0;
        assert(chars@.skip(0) =~= chars@);
        while position < chars.len() && is_whitespace(chars[position])
            invariant
                position <= chars.len(),
                trim_start(chars@.skip(position as int)) == trim_start(chars@),
            decreases chars.len() - position,
        {
            assert(chars@.skip(position as int).drop_first() =~= chars@.skip(position + 1));
            position = position + 1;
        }
        Scanner { chars, position }
    }

    /// Reads one character, or returns `None` at the end.
    pub fn next(&mut self) -> (c: Option<char>)
        ensures
            c is Some <==> old(self).remaining().len() > 0,
            c is Some ==> c->0 == old(self).remaining()[0],
            c is Some ==> final(self).remaining() == old(self).remaining().drop_first(),
            c is None ==> final(self).remaining() == old(self).remaining(),
    {
        proof {
            use_type_invariant(&*self);
        }
        if self.position < self.chars.len() {
            let c = self.chars[self.position];
            self.position = self.position + 1;
            Some(c)
        } else {
            None
        }
    }
}

} // verus!
