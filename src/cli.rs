use vstd::prelude::*;
use vstd::utf8::encode_utf8;

use crate::command::{split_words, word_is, take_word, words};

verus! {

/// An interactive command; passwords are asked for separately, never typed
/// on the command line.
pub enum Command {
    Lock,
    List,
    Help,
    Exit,
    Commit,
    Clear,
    Get(String),
    Unlock(String),
    Create(String),
    Remove(String),
    Add { service: String, username: String },
}

/// An interactive command with its texts as character sequences.
pub enum CliCommandView {
    Lock,
    List,
    Help,
    Exit,
    Commit,
    Clear,
    Get(Seq<char>),
    Unlock(Seq<char>),
    Create(Seq<char>),
    Remove(Seq<char>),
    Add { service: Seq<char>, username: Seq<char> },
}

impl View for Command {
    type V = CliCommandView;

    open spec fn view(&self) -> CliCommandView {
        match self {
            Command::Lock => CliCommandView::Lock,
            Command::List => CliCommandView::List,
            Command::Help => CliCommandView::Help,
            Command::Exit => CliCommandView::Exit,
            Command::Commit => CliCommandView::Commit,
            Command::Clear => CliCommandView::Clear,
            Command::Get(s) => CliCommandView::Get(s@),
            Command::Unlock(s) => CliCommandView::Unlock(s@),
            Command::Create(s) => CliCommandView::Create(s@),
            Command::Remove(s) => CliCommandView::Remove(s@),
            Command::Add { service, username } => CliCommandView::Add {
                service: service@,
                username: username@,
            },
        }
    }
}

/// The interactive command a list of words asks for.
pub open spec fn cli_command_of(w: Seq<Seq<char>>) -> Option<CliCommandView> {
    if w.len() == 0 {
        None
    } else if w[0] == "unlock"@ {
        if w.len() > 1 { Some(CliCommandView::Unlock(w[1])) } else { None }
    } else if w[0] == "create"@ {
        if w.len() > 1 { Some(CliCommandView::Create(w[1])) } else { None }
    } else if w[0] == "add"@ {
        if w.len() > 2 {
            Some(CliCommandView::Add { service: w[1], username: w[2] })
        } else {
            None
        }
    } else if w[0] == "get"@ {
        if w.len() > 1 { Some(CliCommandView::Get(w[1])) } else { None }
    } else if w[0] == "rm"@ {
        if w.len() > 1 { Some(CliCommandView::Remove(w[1])) } else { None }
    } else if w[0] == "commit"@ {
        Some(CliCommandView::Commit)
    } else if w[0] == "ls"@ || w[0] == "list"@ {
        Some(CliCommandView::List)
    } else if w[0] == "lock"@ {
        Some(CliCommandView::Lock)
    } else if w[0] == "help"@ {
        Some(CliCommandView::Help)
    } else if w[0] == "clear"@ {
        Some(CliCommandView::Clear)
    } else if w[0] == "exit"@ {
        Some(CliCommandView::Exit)
    } else {
        None
    }
}

/// Parses an interactive command line, or `None` where it names no command
/// or lacks an argument.
pub fn parse_cli_command(input: &str) -> (r: Option<Command>)
    ensures
        r matches Some(c) ==> cli_command_of(words(input@)) == Some(c@),
        r is None ==> cli_command_of(words(input@)) is None,
{
    let mut w = split_words(input);
    if w.len() == 0 {
        return None;
    }
    let n = w.len();
    if word_is(&w[0], "unlock") {
        if n > 1 {
            Some(Command::Unlock(take_word(&mut w, 1)))
        } else {
            None
        }
    } else if word_is(&w[0], "create") {
        if n > 1 {
            Some(Command::Create(take_word(&mut w, 1)))
        } else {
            None
        }
    } else if word_is(&w[0], "add") {
        if n > 2 {
            let service = take_word(&mut w, 1);
            let username = take_word(&mut w, 2);
            Some(Command::Add { service, username })
        } else {
            None
        }
    } else if word_is(&w[0], "get") {
        if n > 1 {
            Some(Command::Get(take_word(&mut w, 1)))
        } else {
            None
        }
    } else if word_is(&w[0], "rm") {
        if n > 1 {
            Some(Command::Remove(take_word(&mut w, 1)))
        } else {
            None
        }
    } else if word_is(&w[0], "commit") {
        Some(Command::Commit)
    } else if word_is(&w[0], "ls") || word_is(&w[0], "list") {
        Some(Command::List)
    } else if word_is(&w[0], "lock") {
        Some(Command::Lock)
    } else if word_is(&w[0], "help") {
        Some(Command::Help)
    } else if word_is(&w[0], "clear") {
        Some(Command::Clear)
    } else if word_is(&w[0], "exit") {
        Some(Command::Exit)
    } else {
        None
    }
}

/// `p` is a prefix of `s`, byte for byte.
pub open spec fn is_byte_prefix(p: Seq<u8>, s: Seq<u8>) -> bool {
    p.len() <= s.len() && s.subrange(0, p.len() as int) == p
}

/// The commands, in order, whose UTF-8 bytes begin with those of `prefix`.
pub open spec fn completions(commands: Seq<Seq<char>>, prefix: Seq<char>) -> Seq<Seq<char>>
    decreases commands.len(),
{
    if commands.len() == 0 {
        Seq::empty()
    } else {
        let rest = completions(commands.drop_last(), prefix);
        if is_byte_prefix(encode_utf8(prefix), encode_utf8(commands.last())) {
            rest.push(commands.last())
        } else {
            rest
        }
    }
}

fn starts_with_bytes(s: &[u8], p: &[u8]) -> (r: bool)
    ensures
        r == is_byte_prefix(p@, s@),
{
    if p.len() > s.len() {
        return false;
    }
    let mut i: usize = 0;
    while i < p.len()
        invariant
            i <= p@.len() <= s@.len(),
            s@.subrange(0, i as int) == p@.subrange(0, i as int),
        decreases p@.len() - i,
    {
        if s[i] != p[i] {
            assert(s@.subrange(0, p@.len() as int)[i as int] != p@[i as int]);
            return false;
        }
        assert(s@.subrange(0, i + 1) =~= s@.subrange(0, i as int).push(s@[i as int]));
        assert(p@.subrange(0, i + 1) =~= p@.subrange(0, i as int).push(p@[i as int]));
        i += 1;
    }
    assert(p@.subrange(0, i as int) =~= p@);
    true
}

/// Completion of command names.
pub struct VaultHelper {
    commands: Vec<String>,
}

impl VaultHelper {
    /// The command names the helper completes, in order.
    pub closed spec fn commands_view(&self) -> Seq<Seq<char>> {
        self.commands@.map_values(|c: String| c@)
    }

    /// A helper that completes the given command names.
    pub fn new(commands: Vec<&str>) -> (r: VaultHelper)
        ensures
            r.commands_view() == commands@.map_values(|c: &str| c@),
    {
        let mut names: Vec<String> = Vec::new();
        let mut i: usize = 0;
        while i < commands.len()
            invariant
                i <= commands@.len(),
                names@.len() == i,
                forall|j: int| 0 <= j < i ==> #[trigger] names@[j]@ == commands@[j]@,
            decreases commands@.len() - i,
        {
            names.push(commands[i].to_owned());
            i += 1;
        }
        let r = VaultHelper { commands: names };
        assert(r.commands_view() =~= commands@.map_values(|c: &str| c@));
        r
    }

    /// The command names that complete `prefix`, in order.
    pub fn complete(&self, prefix: &str) -> (r: Vec<String>)
        ensures
            r@.len() == completions(self.commands_view(), prefix@).len(),
            forall|i: int| 0 <= i < r@.len() ==> #[trigger] r@[i]@ == completions(self.commands_view(), prefix@)[i],
    {
        complete_command(&self.commands, prefix)
    }
}

/// The commands that complete `prefix`, in the order given.
pub fn complete_command(commands: &Vec<String>, prefix: &str) -> (r: Vec<String>)
    ensures
        r@.len() == completions(commands@.map_values(|c: String| c@), prefix@).len(),
        forall|i: int|
            0 <= i < r@.len() ==> #[trigger] r@[i]@ == completions(
                commands@.map_values(|c: String| c@),
                prefix@,
            )[i],
{
    let ghost all = commands@.map_values(|c: String| c@);
    let p = prefix.as_bytes();
    let mut out: Vec<String> = Vec::new();
    let mut i: usize = 0;
    while i < commands.len()
        invariant
            i <= commands@.len(),
            all == commands@.map_values(|c: String| c@),
            p@ == encode_utf8(prefix@),
            out@.len() == completions(all.take(i as int), prefix@).len(),
            forall|j: int|
                0 <= j < out@.len() ==> #[trigger] out@[j]@ == completions(
                    all.take(i as int),
                    prefix@,
                )[j],
        decreases commands@.len() - i,
    {
        assert(all.take(i + 1).drop_last() =~= all.take(i as int));
        assert(all.take(i + 1).last() == commands@[i as int]@);
        if starts_with_bytes(commands[i].as_str().as_bytes(), p) {
            out.push(commands[i].clone());
        }
        i += 1;
    }
    assert(all.take(i as int) =~= all);
    out
}

} // verus!
