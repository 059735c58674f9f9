use core::cmp::Ordering;
use vstd::prelude::*;

use crate::entry::{compare_bytes, lemma_key_injective};

verus! {

/// An operation requested of the engine.
pub enum Command {
    Unlock(String),
    Lock,
    Create(String),
    Add { service: String, username: String, password: String },
    Remove(String),
    List,
    Get(String),
    Commit,
    Help,
    Exit,
}

/// A command with its texts as character sequences.
pub enum CommandView {
    Unlock(Seq<char>),
    Lock,
    Create(Seq<char>),
    Add { service: Seq<char>, username: Seq<char>, password: Seq<char> },
    Remove(Seq<char>),
    List,
    Get(Seq<char>),
    Commit,
    Help,
    Exit,
}

impl View for Command {
    type V = CommandView;

    open spec fn view(&self) -> CommandView {
        match self {
            Command::Unlock(v) => CommandView::Unlock(v@),
            Command::Lock => CommandView::Lock,
            Command::Create(v) => CommandView::Create(v@),
            Command::Add { service, username, password } => CommandView::Add {
                service: service@,
                username: username@,
                password: password@,
            },
            Command::Remove(s) => CommandView::Remove(s@),
            Command::List => CommandView::List,
            Command::Get(s) => CommandView::Get(s@),
            Command::Commit => CommandView::Commit,
            Command::Help => CommandView::Help,
            Command::Exit => CommandView::Exit,
        }
    }
}

/// White space as `char::is_whitespace` defines it: the Unicode White_Space
/// property.
pub open spec fn is_white_space(c: char) -> bool {
    let u = c as u32;
    u == 0x20 || (0x09 <= u <= 0x0d) || u == 0x85 || u == 0xa0 || u == 0x1680 || (0x2000 <= u
        <= 0x200a) || u == 0x2028 || u == 0x2029 || u == 0x202f || u == 0x205f || u == 0x3000
}

/// The words of `s` after the partial word `cur`: the maximal runs of
/// characters that are not white space, in order.
pub open spec fn words_after(cur: Seq<char>, s: Seq<char>) -> Seq<Seq<char>>
    decreases s.len(),
{
    if s.len() == 0 {
        if cur.len() > 0 {
            seq![cur]
        } else {
            Seq::empty()
        }
    } else if is_white_space(s[0]) {
        if cur.len() > 0 {
            seq![cur] + words_after(Seq::empty(), s.drop_first())
        } else {
            words_after(Seq::empty(), s.drop_first())
        }
    } else {
        words_after(cur.push(s[0]), s.drop_first())
    }
}

/// The words of a text, separated by white space.
pub open spec fn words(s: Seq<char>) -> Seq<Seq<char>> {
    words_after(Seq::empty(), s)
}

/// Relies on str::split_whitespace: the substrings separated by any amount of
/// white space (char::is_whitespace), in order, none of them empty.
#[verifier::external_body]
pub(crate) fn split_words(s: &str) -> (r: Vec<String>)
    ensures
        r@.len() == words(s@).len(),
        forall|i: int| 0 <= i < r@.len() ==> #[trigger] r@[i]@ == words(s@)[i],
{
    s.split_whitespace().map(|w| w.to_owned()).collect()
}

/// Whether `w` is the text `lit`.
pub(crate) fn word_is(w: &String, lit: &str) -> (r: bool)
    ensures
        r == (w@ == lit@),
{
    let c = compare_bytes(w.as_str().as_bytes(), lit.as_bytes());
    if matches!(c, Ordering::Equal) {
        proof {
            lemma_key_injective(w@, lit@);
        }
        true
    } else {
        false
    }
}

/// The command that a list of words asks for: the first word names it, the
/// next ones are its arguments, and further words are ignored.
pub open spec fn command_of(w: Seq<Seq<char>>) -> Option<CommandView> {
    if w.len() == 0 {
        None
    } else if w[0] == "unlock"@ {
        if w.len() > 1 { Some(CommandView::Unlock(w[1])) } else { None }
    } else if w[0] == "lock"@ {
        Some(CommandView::Lock)
    } else if w[0] == "ls"@ {
        Some(CommandView::List)
    } else if w[0] == "get"@ {
        if w.len() > 1 { Some(CommandView::Get(w[1])) } else { None }
    } else if w[0] == "create"@ {
        if w.len() > 1 { Some(CommandView::Create(w[1])) } else { None }
    } else if w[0] == "add"@ {
        if w.len() > 3 {
            Some(CommandView::Add { service: w[1], username: w[2], password: w[3] })
        } else {
            None
        }
    } else if w[0] == "commit"@ {
        Some(CommandView::Commit)
    } else if w[0] == "rm"@ {
        if w.len() > 1 { Some(CommandView::Remove(w[1])) } else { None }
    } else if w[0] == "exit"@ {
        Some(CommandView::Exit)
    } else if w[0] == "help"@ {
        Some(CommandView::Help)
    } else {
        None
    }
}

/// Takes word `i` out of the list, leaving an empty text in its place.
pub(crate) fn take_word(w: &mut Vec<String>, i: usize) -> (r: String)
    requires
        i < old(w)@.len(),
    ensures
        r@ == old(w)@[i as int]@,
        final(w)@.len() == old(w)@.len(),
        forall|j: int| 0 <= j < old(w)@.len() && j != i ==> #[trigger] final(w)@[j] == old(w)@[j],
{
    let mut empty = String::new();
    std::mem::swap(&mut w[i], &mut empty);
    empty
}

/// Parses a command line into a command, or `None` where it names no
/// command or lacks an argument.
pub fn parse_command(input: &str) -> (r: Option<Command>)
    ensures
        r matches Some(c) ==> command_of(words(input@)) == Some(c@),
        r is None ==> command_of(words(input@)) is None,
{
    let mut w = split_words(input);
    let ghost ws = words(input@);
    assert forall|i: int| 0 <= i < w@.len() implies w@[i]@ == ws[i] by {}
    if w.len() == 0 {
        return None;
    }
    let n = w.len();
    if word_is(&w[0], "unlock") {
        if n > 1 {
            Some(Command::Unlock(take_word(&mut w, 1)))
        } else {
            None
        }
    } else if word_is(&w[0], "lock") {
        Some(Command::Lock)
    } else if word_is(&w[0], "ls") {
        Some(Command::List)
    } else if word_is(&w[0], "get") {
        if n > 1 {
            Some(Command::Get(take_word(&mut w, 1)))
        } else {
            None
        }
    } else if word_is(&w[0], "create") {
        if n > 1 {
            Some(Command::Create(take_word(&mut w, 1)))
        } else {
            None
        }
    } else if word_is(&w[0], "add") {
        if n > 3 {
            let service = take_word(&mut w, 1);
            let username = take_word(&mut w, 2);
            let password = take_word(&mut w, 3);
            Some(Command::Add { service, username, password })
        } else {
            None
        }
    } else if word_is(&w[0], "commit") {
        Some(Command::Commit)
    } else if word_is(&w[0], "rm") {
        if n > 1 {
            Some(Command::Remove(take_word(&mut w, 1)))
        } else {
            None
        }
    } else if word_is(&w[0], "exit") {
        Some(Command::Exit)
    } else if word_is(&w[0], "help") {
        Some(Command::Help)
    } else {
        None
    }
}

} // verus!
