//! The line that the user types at the console.

use vstd::prelude::*;
use vstd::string::StringExecFns;
use crate::commands::{from_args, parsed, Command};
use crate::error::LllError;
use crate::text::{chars_of, find_char, first_index_of, lemma_first_index_of, slice_text};

verus! {

#[derive(Clone, Debug)]
pub struct CommandLine {
    pub prefix: String,
    pub suffix: String,
}

/// White space as `char::is_whitespace` knows it.
pub open spec fn is_white(c: char) -> bool {
    ||| c == ' '
    ||| ('\t' <= c && c <= '\r')
    ||| c == '\u{85}'
    ||| c == '\u{a0}'
    ||| c == '\u{1680}'
    ||| ('\u{2000}' <= c && c <= '\u{200a}')
    ||| c == '\u{2028}'
    ||| c == '\u{2029}'
    ||| c == '\u{202f}'
    ||| c == '\u{205f}'
    ||| c == '\u{3000}'
}

/// The number of white characters that `s` begins with.
pub open spec fn leading_white(s: Seq<char>) -> int
    decreases s.len(),
{
    if s.len() > 0 && is_white(s[0]) {
        1 + leading_white(s.drop_first())
    } else {
        0
    }
}

/// `s` without the white space that it begins with.
pub open spec fn trim_start_of(s: Seq<char>) -> Seq<char> {
    s.subrange(leading_white(s), s.len() as int)
}

/// The name of the command in a line: what stands before the first space
/// of the line once the white space before it is gone.
pub open spec fn command_word(line: Seq<char>) -> Seq<char> {
    let t = trim_start_of(line);
    match first_index_of(t, ' ') {
        Some(i) => t.subrange(0, i),
        None => t,
    }
}

/// What follows the name of the command, without the white space between
/// them; nothing where the line holds the name alone.
pub open spec fn argument_text(line: Seq<char>) -> Option<Seq<char>> {
    let t = trim_start_of(line);
    match first_index_of(t, ' ') {
        Some(i) => Some(trim_start_of(t.subrange(i, t.len() as int))),
        None => None,
    }
}

pub proof fn lemma_leading_white(s: Seq<char>)
    ensures
        0 <= leading_white(s) <= s.len(),
        forall|j: int| 0 <= j < leading_white(s) ==> is_white(#[trigger] s[j]),
        leading_white(s) < s.len() ==> !is_white(s[leading_white(s)]),
    decreases s.len(),
{
    if s.len() > 0 && is_white(s[0]) {
        let t = s.drop_first();
        lemma_leading_white(t);
        assert forall|j: int| 0 <= j < leading_white(s) implies is_white(#[trigger] s[j]) by {
            if j > 0 {
                assert(s[j] == t[j - 1]);
            }
        }
    }
}

fn is_white_char(c: char) -> (r: bool)
    ensures
        r == is_white(c),
{
    c == ' ' || (c >= '\t' && c <= '\r') || c == '\u{85}' || c == '\u{a0}' || c == '\u{1680}' || (c
        >= '\u{2000}' && c <= '\u{200a}') || c == '\u{2028}' || c == '\u{2029}' || c == '\u{202f}'
        || c == '\u{205f}' || c == '\u{3000}'
}

/// The number of white characters from `from` on.
fn count_white(chars: &Vec<char>, from: usize) -> (n: usize)
    requires
        from <= chars.len(),
    ensures
        from + n <= chars.len(),
        n == leading_white(chars@.subrange(from as int, chars.len() as int)),
{
    let mut i: usize = from;
    let ghost rest = chars@.subrange(from as int, chars.len() as int);
    while i < chars.len() && is_white_char(chars[i])
        invariant
            from <= i <= chars.len(),
            rest == chars@.subrange(from as int, chars.len() as int),
            leading_white(rest) == (i - from) + leading_white(
                chars@.subrange(i as int, chars.len() as int),
            ),
        decreases chars.len() - i,
    {
        proof {
            let t = chars@.subrange(i as int, chars.len() as int);
            assert(t[0] == chars@[i as int]);
            assert(t.drop_first() =~= chars@.subrange(i + 1, chars.len() as int));
        }
        i += 1;
    }
    proof {
        let t = chars@.subrange(i as int, chars.len() as int);
        if i < chars.len() {
            assert(t[0] == chars@[i as int]);
        }
    }
    i - from
}

/// `wordexp::wordexp` with the flag that forbids command substitution: the
/// words that the shell makes of `s`, or nothing where it refuses `s`, as
/// it does a text that asks for a command to be run. No shell is started,
/// so the call comes back. The words depend on the environment, so nothing
/// is said of them. A text with a NUL character is kept away: the call
/// would panic on it.
#[verifier::external_body]
fn expand_words(s: &str) -> (words: Option<Vec<String>>)
    requires
        !s@.contains('\0'),
{
    match wordexp::wordexp(s, wordexp::Wordexp::new(0), wordexp::WRDE_NOCMD) {
        Ok(words) => Some(words.map(String::from).collect()),
        Err(_) => None,
    }
}

/// The shell is asked for the words of the line: something follows the
/// name of the command, and it holds no NUL character.
pub open spec fn asks_shell(line: Seq<char>) -> bool {
    argument_text(line) matches Some(rest) && !rest.contains('\0')
}

/// `r` is what the name `name` and the arguments `args` ask for, a refusal
/// being one of the key map.
pub open spec fn answered(name: Seq<char>, args: Seq<Seq<char>>, r: Result<Command, LllError>) -> bool {
    match r {
        Ok(c) => parsed(name, args, Ok(c)),
        Err(LllError::Keymap(e)) => parsed(name, args, Err(e)),
        Err(_) => false,
    }
}

/// The same for an answer that may hold no command.
pub open spec fn line_answered(
    name: Seq<char>,
    args: Seq<Seq<char>>,
    r: Result<Option<Command>, LllError>,
) -> bool {
    match r {
        Ok(Some(c)) => parsed(name, args, Ok(c)),
        Ok(None) => false,
        Err(LllError::Keymap(e)) => parsed(name, args, Err(e)),
        Err(_) => false,
    }
}

/// The texts of the words.
pub open spec fn word_texts(words: Seq<String>) -> Seq<Seq<char>> {
    Seq::new(words.len(), |i: int| words[i]@)
}

impl CommandLine {
    pub fn new(prefix: String, suffix: String) -> (command: CommandLine)
        ensures
            command.prefix == prefix,
            command.suffix == suffix,
    {
        CommandLine { prefix, suffix }
    }

    pub fn command() -> (name: &'static str)
        ensures
            name@ == "console"@,
    {
        "console"
    }

    /// The command as a text: its name and, behind a colon, what stands
    /// before and what stands behind the place where the user types.
    pub fn to_string(&self) -> (text: String)
        ensures
            text@ == "console"@ + ": "@ + self.prefix@ + " "@ + self.suffix@,
    {
        let mut text = CommandLine::command().to_owned();
        text.append(": ");
        text.append(self.prefix.as_str());
        text.append(" ");
        text.append(self.suffix.as_str());
        text
    }

    /// Cuts a line into the name of the command and what follows it.
    pub fn split_line(line: &str) -> (r: (String, Option<String>))
        ensures
            r.0@ == command_word(line@),
            match r.1 {
                Some(rest) => argument_text(line@) == Some(rest@),
                None => argument_text(line@) is None,
            },
    {
        let chars = chars_of(line);
        let lead = count_white(&chars, 0);
        let trimmed = slice_text(line, lead, chars.len());
        assert(chars@.subrange(0, chars.len() as int) =~= chars@);
        let t = chars_of(trimmed.as_str());
        proof {
            lemma_first_index_of(t@, ' ');
        }
        match find_char(&t, ' ') {
            Some(i) => {
                let word = slice_text(trimmed.as_str(), 0, i);
                let gap = count_white(&t, i);
                let rest = slice_text(trimmed.as_str(), i + gap, t.len());
                proof {
                    let tail = t@.subrange(i as int, t.len() as int);
                    assert(tail.subrange(gap as int, tail.len() as int) =~= t@.subrange(
                        i + gap,
                        t.len() as int,
                    ));
                }
                (word, Some(rest))
            },
            None => (trimmed, None),
        }
    }

    /// The command that the name `command` and the words `words` ask for.
    /// Words that the shell refused count as no words.
    pub fn interpret(command: &str, words: Option<Vec<String>>) -> (r: Result<Command, LllError>)
        ensures
            answered(
                command@,
                match words {
                    Some(w) => word_texts(w@),
                    None => Seq::empty(),
                },
                r,
            ),
    {
        let words = match words {
            Some(w) => w,
            None => Vec::new(),
        };
        let mut args: Vec<&str> = Vec::new();
        let mut i: usize = 0;
        while i < words.len()
            invariant
                i <= words.len(),
                args.len() == i,
                forall|j: int| 0 <= j < i ==> (#[trigger] args@[j])@ == words@[j]@,
            decreases words.len() - i,
        {
            args.push(words[i].as_str());
            i += 1;
        }
        proof {
            assert(crate::commands::arg_texts(args@) =~= word_texts(words@));
        }
        match from_args(command, args.as_slice()) {
            Ok(c) => Ok(c),
            Err(e) => Err(LllError::Keymap(e)),
        }
    }

    /// The command that the user asked for at the console, where `input`
    /// is the line that was typed, or nothing where the user gave up. The
    /// line is cut into the name and what follows; the shell makes words of
    /// what follows, without running any command; name and words give the
    /// command. A line with the name alone has no words, and so has one in
    /// which a NUL character follows the name: the shell is not asked.
    pub fn readline(&self, input: Option<&str>) -> (r: Result<Option<Command>, LllError>)
        ensures
            input is None ==> r matches Ok(None),
            input matches Some(line) ==> exists|args: Seq<Seq<char>>| #[trigger]
                line_answered(command_word(line@), args, r),
            input matches Some(line) ==> (asks_shell(line@) || line_answered(
                command_word(line@),
                Seq::empty(),
                r,
            )),
    {
        match input {
            None => Ok(None),
            Some(line) => {
                let (word, rest) = CommandLine::split_line(line);
                let words = match rest {
                    Some(xs) => {
                        let chars = chars_of(xs.as_str());
                        proof {
                            lemma_first_index_of(xs@, '\0');
                        }
                        match find_char(&chars, '\0') {
                            Some(_) => None,
                            None => expand_words(xs.as_str()),
                        }
                    },
                    None => Some(Vec::new()),
                };
                let ghost args = if words is Some {
                    word_texts(words->0@)
                } else {
                    Seq::empty()
                };
                proof {
                    if !asks_shell(line@) {
                        assert(args =~= Seq::<Seq<char>>::empty());
                    }
                }
                let r = match CommandLine::interpret(word.as_str(), words) {
                    Ok(c) => Ok(Some(c)),
                    Err(e) => Err(e),
                };
                assert(line_answered(command_word(line@), args, r));
                r
            },
        }
    }
}

} // verus!
