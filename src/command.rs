//! Recognising a submitted line as one of the shell's commands.

use vstd::prelude::*;
use crate::text::{chars_of, is_whitespace, is_ws, same_chars, string_of};

verus! {

/// Scans `s` from the left: the words completed so far and the word being read.
pub open spec fn scan_words(s: Seq<char>) -> (Seq<Seq<char>>, Seq<char>)
    decreases s.len(),
{
    if s.len() == 0 {
        (Seq::empty(), Seq::empty())
    } else {
        let p = scan_words(s.drop_last());
        if is_ws(s.last()) {
            if p.1.len() > 0 {
                (p.0.push(p.1), Seq::empty())
            } else {
                (p.0, Seq::empty())
            }
        } else {
            (p.0, p.1.push(s.last()))
        }
    }
}

/// The words of `s`: its longest runs of characters that are not white space,
/// in order.
pub open spec fn words(s: Seq<char>) -> Seq<Seq<char>> {
    let p = scan_words(s);
    if p.1.len() > 0 {
        p.0.push(p.1)
    } else {
        p.0
    }
}

/// The shell's commands.
#[derive(Clone, Copy, Debug, PartialEq, Eq, Structural)]
pub enum Command {
    Help,
    Version,
    DiskUsage,
    List,
    Start,
    Create,
    Delete,
    Quit,
}

/// The command that the word `w` names, if any.
pub open spec fn command_named(w: Seq<char>) -> Option<Command> {
    if w == "help"@ {
        Some(Command::Help)
    } else if w == "version"@ {
        Some(Command::Version)
    } else if w == "dusage"@ {
        Some(Command::DiskUsage)
    } else if w == "list"@ {
        Some(Command::List)
    } else if w == "start"@ {
        Some(Command::Start)
    } else if w == "create"@ {
        Some(Command::Create)
    } else if w == "delete"@ {
        Some(Command::Delete)
    } else if w == "quit"@ {
        Some(Command::Quit)
    } else {
        None
    }
}

/// A recognised command line: the command and its first argument, if any.
pub struct Invocation {
    pub command: Command,
    pub argument: Option<String>,
}

/// What a submitted line is.
pub enum Dispatch {
    /// The line holds no word.
    Blank,
    /// The first word names no command.
    Unsupported,
    /// The first word names a command; the line is kept in the history.
    Accepted(Invocation),
}

/// Whether `r` is what the line `input` is: blank when it has no word;
/// accepted when its first word names a command, with the second word, if
/// any, as the argument; unsupported otherwise.
pub open spec fn dispatches(input: Seq<char>, r: Dispatch) -> bool {
    let ws = words(input);
    &&& (ws.len() == 0 <==> r is Blank)
    &&& (r is Unsupported <==> (ws.len() > 0 && command_named(ws[0]) is None))
    &&& (r matches Dispatch::Accepted(inv) ==> ws.len() > 0 && command_named(ws[0]) == Some(
        inv.command,
    ) && (ws.len() > 1 ==> inv.argument is Some && inv.argument->0@ == ws[1]) && (ws.len() <= 1
        ==> inv.argument is None))
}

/// Splits `s` into its words.
pub fn split_words(s: &Vec<char>) -> (r: Vec<Vec<char>>)
    ensures
        r@.map_values(|w: Vec<char>| w@) == words(s@),
{
    let mut done: Vec<Vec<char>> = Vec::new();
    let mut cur: Vec<char> = Vec::new();
    let mut i: usize = 0;
    assert(s@.take(0) =~= Seq::<char>::empty());
    assert(done@.map_values(|w: Vec<char>| w@) =~= Seq::<Seq<char>>::empty());
    while i < s.len()
        invariant
            i <= s@.len(),
            done@.map_values(|w: Vec<char>| w@) == scan_words(s@.take(i as int)).0,
            cur@ == scan_words(s@.take(i as int)).1,
        decreases s@.len() - i,
    {
        let c = s[i];
        let ghost before = done@;
        assert(s@.take(i + 1).drop_last() =~= s@.take(i as int));
        assert(s@.take(i + 1).last() == c);
        if is_whitespace(c) {
            if cur.len() > 0 {
                let w = cur;
                done.push(w);
                cur = Vec::new();
                assert(done@.map_values(|w: Vec<char>| w@) =~= before.map_values(
                    |w: Vec<char>| w@,
                ).push(w@));
            } else {
                cur = Vec::new();
            }
            assert(cur@ =~= Seq::<char>::empty());
        } else {
            cur.push(c);
        }
        i += 1;
    }
    assert(s@.take(i as int) =~= s@);
    if cur.len() > 0 {
        let ghost before = done@;
        let w = cur;
        done.push(w);
        assert(done@.map_values(|w: Vec<char>| w@) =~= before.map_values(|w: Vec<char>| w@).push(
            w@,
        ));
    }
    done
}

/// The command that `w` names, if any.
pub fn command_of(w: &Vec<char>) -> (r: Option<Command>)
    ensures
        r == command_named(w@),
{
    if same_chars(w, "help") {
        Some(Command::Help)
    } else if same_chars(w, "version") {
        Some(Command::Version)
    } else if same_chars(w, "dusage") {
        Some(Command::DiskUsage)
    } else if same_chars(w, "list") {
        Some(Command::List)
    } else if same_chars(w, "start") {
        Some(Command::Start)
    } else if same_chars(w, "create") {
        Some(Command::Create)
    } else if same_chars(w, "delete") {
        Some(Command::Delete)
    } else if same_chars(w, "quit") {
        Some(Command::Quit)
    } else {
        None
    }
}

/// Recognises `input` as `dispatches` says.
pub fn parse_user_input(input: &str) -> (r: Dispatch)
    ensures
        dispatches(input@, r),
{
    let chars = chars_of(input);
    let ws = split_words(&chars);
    proof {
        assert(ws@.map_values(|w: Vec<char>| w@).len() == ws@.len());
    }
    if ws.len() == 0 {
        return Dispatch::Blank;
    }
    assert(ws@.map_values(|w: Vec<char>| w@)[0] == ws@[0]@);
    match command_of(&ws[0]) {
        None => Dispatch::Unsupported,
        Some(command) => {
            let argument = if ws.len() > 1 {
                assert(ws@.map_values(|w: Vec<char>| w@)[1] == ws@[1]@);
                Some(string_of(&ws[1]))
            } else {
                None
            };
            Dispatch::Accepted(Invocation { command, argument })
        },
    }
}

} // verus!
