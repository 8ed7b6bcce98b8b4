//! The interactive shell around the line editor: where its files live, and
//! what happens to each submitted line.

use vstd::prelude::*;
use crate::command::{dispatches, parse_user_input, Dispatch};
use crate::history::{parse_history, HistoryStore};

verus! {

/// `part` joined to the path `base`, with a `/` between them unless `base`
/// is empty or already ends in one.
pub open spec fn join_path(base: Seq<char>, part: Seq<char>) -> Seq<char> {
    if base.len() == 0 || base.last() == '/' {
        base + part
    } else {
        base + seq!['/'] + part
    }
}

/// `part` joined to the path `base`.
pub fn join(base: &str, part: &str) -> (r: String)
    ensures
        r@ == join_path(base@, part@),
{
    let mut r = String::from_str(base);
    let n = base.unicode_len();
    if n > 0 && base.get_char(n - 1) != '/' {
        r.append("/");
        proof {
            reveal_strlit("/");
        }
    }
    r.append(part);
    r
}

/// The files of the program.
pub struct ProgramPaths {
    /// The program's directory, where each virtual machine has a directory of its own.
    pub directory: String,
    /// The stored command history.
    pub history: String,
}

/// The paths of the program for the home directory `home`: the directory
/// `.virt-manager` in it, and the history file `.history` in that. The caller
/// creates the directory where it does not exist yet.
pub fn init_program_directory(home: &str) -> (r: ProgramPaths)
    ensures
        r.directory@ == join_path(home@, ".virt-manager"@),
        r.history@ == join_path(r.directory@, ".history"@),
{
    let directory = join(home, ".virt-manager");
    let history = join(directory.as_str(), ".history");
    ProgramPaths { directory, history }
}

/// The state of the interactive shell between two lines: the history.
pub struct Shell {
    history: HistoryStore,
}

impl View for Shell {
    type V = Seq<Seq<char>>;

    closed spec fn view(&self) -> Seq<Seq<char>> {
        self.history@
    }
}

/// The shell at start-up, its history read from the stored text `stored`.
pub fn start_interactive_mode(stored: &str) -> (r: Shell)
    ensures
        r@ == parse_history(stored@),
{
    Shell { history: HistoryStore::load(stored) }
}

impl Shell {
    /// The history, oldest entry first.
    pub fn history(&self) -> (r: &HistoryStore)
        ensures
            r@ == self@,
    {
        &self.history
    }

    /// Takes the submitted line `line`: recognises it as `dispatches` says, and
    /// appends it to the history exactly when it is accepted.
    pub fn submit(&mut self, line: &str) -> (r: Dispatch)
        ensures
            dispatches(line@, r),
            r is Accepted ==> final(self)@ == old(self)@.push(line@),
            !(r is Accepted) ==> final(self)@ == old(self)@,
    {
        let r = parse_user_input(line);
        if let Dispatch::Accepted(_) = &r {
            self.history.append(line);
        }
        r
    }
}

} // verus!
