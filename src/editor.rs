//! The line editor: one edit session turns key events into changes of a text
//! buffer, a cursor within it and a position in the history, and into the
//! terminal operations that show those changes.

use vstd::prelude::*;
use crate::history::HistoryStore;
use crate::text::{copy_range, string_of, trim, trim_chars};

verus! {

/// One key press, as the terminal reports it.
#[derive(Clone, Copy, Debug, PartialEq, Eq, Structural)]
pub enum KeyEvent {
    Char(char),
    Enter,
    Backspace,
    ArrowUp,
    ArrowDown,
    ArrowLeft,
    ArrowRight,
    Other,
}

/// One operation on the terminal. Columns are counted in buffer offsets:
/// offset `n` is the column `n` places to the right of the end of the prompt.
#[derive(Debug)]
pub enum TermOp {
    /// Write the text at the terminal cursor.
    Print(String),
    /// Move the terminal cursor left by the given number of columns.
    Left(usize),
    /// Move the terminal cursor right by the given number of columns.
    Right(usize),
    /// Move the terminal cursor to the column of the given buffer offset, in its row.
    ToOffset(usize),
    /// Erase everything after the terminal cursor.
    ClearAfter,
    /// End the line: a line feed and a carriage return.
    NewLine,
}

/// What a `TermOp` does, in mathematical terms.
pub enum Effect {
    Print(Seq<char>),
    Left(nat),
    Right(nat),
    ToOffset(nat),
    ClearAfter,
    NewLine,
}

impl View for TermOp {
    type V = Effect;

    open spec fn view(&self) -> Effect {
        match self {
            TermOp::Print(s) => Effect::Print(s@),
            TermOp::Left(n) => Effect::Left(*n as nat),
            TermOp::Right(n) => Effect::Right(*n as nat),
            TermOp::ToOffset(n) => Effect::ToOffset(*n as nat),
            TermOp::ClearAfter => Effect::ClearAfter,
            TermOp::NewLine => Effect::NewLine,
        }
    }
}

/// The effects of a list of terminal operations.
pub open spec fn effects(ops: Seq<TermOp>) -> Seq<Effect> {
    ops.map_values(|o: TermOp| o@)
}

/// The state of an edit session: the buffer, the cursor (an offset into the
/// buffer) and the recalled history position (the history's length when no
/// entry is recalled).
pub struct EditState {
    pub buffer: Seq<char>,
    pub cursor: nat,
    pub recall: nat,
}

/// The state at the start of a session over history `h`.
pub open spec fn fresh(h: Seq<Seq<char>>) -> EditState {
    EditState { buffer: Seq::empty(), cursor: 0, recall: h.len() }
}

/// The cursor lies within the buffer and the recall position within the history.
pub open spec fn valid(s: EditState, h: Seq<Seq<char>>) -> bool {
    s.cursor <= s.buffer.len() && s.recall <= h.len()
}

/// `s` showing `text`, recalled from position `r`, with the cursor at its end.
pub open spec fn showing(text: Seq<char>, r: nat) -> EditState {
    EditState { buffer: text, cursor: text.len(), recall: r }
}

/// The state after key `k` in state `s` over history `h`.
pub open spec fn next(s: EditState, h: Seq<Seq<char>>, k: KeyEvent) -> EditState {
    match k {
        KeyEvent::Char(c) => EditState {
            buffer: s.buffer.insert(s.cursor as int, c),
            cursor: s.cursor + 1,
            recall: s.recall,
        },
        KeyEvent::Backspace => if s.cursor > 0 {
            EditState {
                buffer: s.buffer.remove(s.cursor - 1),
                cursor: (s.cursor - 1) as nat,
                recall: s.recall,
            }
        } else {
            s
        },
        KeyEvent::ArrowLeft => if s.cursor > 0 {
            EditState { cursor: (s.cursor - 1) as nat, ..s }
        } else {
            s
        },
        KeyEvent::ArrowRight => if s.cursor < s.buffer.len() {
            EditState { cursor: s.cursor + 1, ..s }
        } else {
            s
        },
        KeyEvent::ArrowUp => if h.len() > 0 {
            let r: nat = if s.recall > 0 { (s.recall - 1) as nat } else { 0 };
            showing(h[r as int], r)
        } else {
            s
        },
        KeyEvent::ArrowDown => if h.len() > 0 {
            if s.recall + 1 < h.len() {
                showing(h[s.recall + 1 as int], s.recall + 1)
            } else {
                showing(Seq::empty(), h.len())
            }
        } else {
            s
        },
        _ => s,
    }
}

/// The operations that draw a whole new buffer `text` after the prompt.
pub open spec fn redraw(text: Seq<char>) -> Seq<Effect> {
    seq![Effect::ToOffset(0), Effect::ClearAfter, Effect::Print(text), Effect::ToOffset(text.len())]
}

/// The terminal operations for key `k` in state `s` over history `h`. Edits
/// at the cursor rewrite only the part of the line after it; history recall
/// rewrites the whole line.
pub open spec fn ops_for(s: EditState, h: Seq<Seq<char>>, k: KeyEvent) -> Seq<Effect> {
    let t = next(s, h, k);
    match k {
        KeyEvent::Char(c) => if t.cursor == t.buffer.len() {
            seq![Effect::Print(seq![c])]
        } else {
            seq![
                Effect::Print(seq![c]),
                Effect::Print(t.buffer.skip(t.cursor as int)),
                Effect::Left((t.buffer.len() - t.cursor) as nat),
            ]
        },
        KeyEvent::Backspace => if s.cursor == 0 {
            seq![]
        } else if t.cursor < t.buffer.len() {
            seq![
                Effect::Left(1),
                Effect::ClearAfter,
                Effect::Print(t.buffer.skip(t.cursor as int)),
                Effect::ToOffset(t.cursor),
            ]
        } else {
            seq![Effect::Left(1), Effect::ClearAfter]
        },
        KeyEvent::ArrowLeft => if s.cursor > 0 {
            seq![Effect::Left(1)]
        } else {
            seq![]
        },
        KeyEvent::ArrowRight => if s.cursor < s.buffer.len() {
            seq![Effect::Right(1)]
        } else {
            seq![]
        },
        KeyEvent::ArrowUp | KeyEvent::ArrowDown => if h.len() > 0 {
            redraw(t.buffer)
        } else {
            seq![]
        },
        KeyEvent::Enter => seq![Effect::NewLine],
        KeyEvent::Other => seq![],
    }
}

/// The line that a session in state `s` hands back on Enter.
pub open spec fn submitted(s: EditState) -> Seq<char> {
    trim(s.buffer)
}


/// The state after the keys `keys`, one after another, from `s`.
pub open spec fn run(s: EditState, h: Seq<Seq<char>>, keys: Seq<KeyEvent>) -> EditState
    decreases keys.len(),
{
    if keys.len() == 0 {
        s
    } else {
        run(next(s, h, keys[0]), h, keys.drop_first())
    }
}

/// The line that a session in state `s` hands back when fed `keys`: the
/// trimmed buffer at the first Enter, or nothing if no Enter comes.
pub open spec fn line_after(s: EditState, h: Seq<Seq<char>>, keys: Seq<KeyEvent>) -> Option<Seq<char>>
    decreases keys.len(),
{
    if keys.len() == 0 {
        None
    } else if keys[0] is Enter {
        Some(submitted(s))
    } else {
        line_after(next(s, h, keys[0]), h, keys.drop_first())
    }
}

/// Whether every key of `keys` types a character.
pub open spec fn all_typing(keys: Seq<KeyEvent>) -> bool {
    forall|i: int| 0 <= i < keys.len() ==> #[trigger] keys[i] is Char
}

/// The characters that the keys `keys` type, in order.
pub open spec fn typed_chars(keys: Seq<KeyEvent>) -> Seq<char> {
    Seq::new(keys.len(), |i: int| keys[i]->Char_0)
}

/// `n` presses of key `k`.
pub open spec fn presses(k: KeyEvent, n: nat) -> Seq<KeyEvent> {
    Seq::new(n, |i: int| k)
}

/// Every key keeps the cursor within the buffer and the recall position
/// within the history.
pub proof fn lemma_next_valid(s: EditState, h: Seq<Seq<char>>, k: KeyEvent)
    requires
        valid(s, h),
    ensures
        valid(next(s, h, k), h),
{
}

/// The cursor stays within the buffer after every key of any sequence.
pub proof fn lemma_run_valid(s: EditState, h: Seq<Seq<char>>, keys: Seq<KeyEvent>)
    requires
        valid(s, h),
    ensures
        valid(run(s, h, keys), h),
    decreases keys.len(),
{
    if keys.len() > 0 {
        lemma_next_valid(s, h, keys[0]);
        lemma_run_valid(next(s, h, keys[0]), h, keys.drop_first());
    }
}

/// Moving left at the start of the buffer, or right at its end, changes nothing.
pub proof fn lemma_edge_moves_change_nothing(s: EditState, h: Seq<Seq<char>>)
    ensures
        s.cursor == 0 ==> next(s, h, KeyEvent::ArrowLeft) == s,
        s.cursor == s.buffer.len() ==> next(s, h, KeyEvent::ArrowRight) == s,
{
}

proof fn lemma_typing(s: EditState, h: Seq<Seq<char>>, keys: Seq<KeyEvent>)
    requires
        s.cursor == s.buffer.len(),
        all_typing(keys),
    ensures
        run(s, h, keys) == (EditState {
            buffer: s.buffer + typed_chars(keys),
            cursor: s.buffer.len() + keys.len(),
            recall: s.recall,
        }),
        line_after(s, h, keys.push(KeyEvent::Enter)) == Some(trim(s.buffer + typed_chars(keys))),
    decreases keys.len(),
{
    let all = keys.push(KeyEvent::Enter);
    if keys.len() == 0 {
        assert(s.buffer + typed_chars(keys) =~= s.buffer);
        assert(all[0] == KeyEvent::Enter);
    } else {
        let c = keys[0]->Char_0;
        assert(keys[0] is Char);
        let t = next(s, h, keys[0]);
        assert(t.buffer =~= s.buffer.push(c));
        let rest = keys.drop_first();
        assert(all_typing(rest)) by {
            assert forall|i: int| 0 <= i < rest.len() implies #[trigger] rest[i] is Char by {
                assert(rest[i] == keys[i + 1]);
            }
        }
        assert(all.drop_first() =~= rest.push(KeyEvent::Enter));
        assert(all[0] == keys[0]);
        assert(t.buffer + typed_chars(rest) =~= s.buffer + typed_chars(keys));
        lemma_typing(t, h, rest);
    }
}

/// Typing characters and pressing Enter hands back exactly those characters,
/// trimmed.
pub proof fn lemma_typed_line(h: Seq<Seq<char>>, keys: Seq<KeyEvent>)
    requires
        all_typing(keys),
    ensures
        run(fresh(h), h, keys).buffer == typed_chars(keys),
        line_after(fresh(h), h, keys.push(KeyEvent::Enter)) == Some(trim(typed_chars(keys))),
{
    lemma_typing(fresh(h), h, keys);
    assert(Seq::<char>::empty() + typed_chars(keys) =~= typed_chars(keys));
}

proof fn lemma_ups(s: EditState, h: Seq<Seq<char>>, n: nat)
    requires
        valid(s, h),
        h.len() > 0,
        n >= 1,
    ensures
        ({
            let r: nat = if s.recall >= n { (s.recall - n) as nat } else { 0 };
            run(s, h, presses(KeyEvent::ArrowUp, n)) == showing(h[r as int], r)
        }),
    decreases n,
{
    let keys = presses(KeyEvent::ArrowUp, n);
    let t = next(s, h, KeyEvent::ArrowUp);
    assert(keys[0] == KeyEvent::ArrowUp);
    assert(keys.drop_first() =~= presses(KeyEvent::ArrowUp, (n - 1) as nat));
    if n > 1 {
        lemma_ups(t, h, (n - 1) as nat);
    } else {
        assert(keys.drop_first() =~= Seq::<KeyEvent>::empty());
        assert(run(t, h, keys.drop_first()) == t);
    }
}

/// Over history `h`, a fresh session recalls the entries newest first, one
/// per Up press; Up at the oldest entry stays there.
pub proof fn lemma_recall_newest_first(h: Seq<Seq<char>>, i: nat)
    requires
        1 <= i <= h.len(),
    ensures
        run(fresh(h), h, presses(KeyEvent::ArrowUp, i)).buffer == h[h.len() - i],
        run(fresh(h), h, presses(KeyEvent::ArrowUp, h.len() + 1)) == run(
            fresh(h),
            h,
            presses(KeyEvent::ArrowUp, h.len()),
        ),
        run(fresh(h), h, presses(KeyEvent::ArrowUp, h.len() + 1)).buffer == h[0],
{
    lemma_ups(fresh(h), h, i);
    lemma_ups(fresh(h), h, h.len());
    lemma_ups(fresh(h), h, h.len() + 1);
}

proof fn lemma_downs(s: EditState, h: Seq<Seq<char>>, n: nat)
    requires
        valid(s, h),
        h.len() > 0,
    ensures
        run(s, h, presses(KeyEvent::ArrowDown, n)) == (if n == 0 {
            s
        } else if s.recall + n < h.len() {
            showing(h[s.recall + n as int], s.recall + n)
        } else {
            showing(Seq::empty(), h.len())
        }),
    decreases n,
{
    let keys = presses(KeyEvent::ArrowDown, n);
    if n > 0 {
        let t = next(s, h, KeyEvent::ArrowDown);
        assert(keys[0] == KeyEvent::ArrowDown);
        assert(keys.drop_first() =~= presses(KeyEvent::ArrowDown, (n - 1) as nat));
        lemma_downs(t, h, (n - 1) as nat);
    }
}

/// From the oldest recalled entry, Down presses walk towards the newest
/// entry and then to an empty buffer, which further Down presses keep.
pub proof fn lemma_down_reaches_empty(s: EditState, h: Seq<Seq<char>>, n: nat)
    requires
        valid(s, h),
        h.len() > 0,
        s.recall == 0,
    ensures
        n < h.len() ==> run(s, h, presses(KeyEvent::ArrowDown, n)).buffer == (if n == 0 {
            s.buffer
        } else {
            h[n as int]
        }),
        n >= h.len() ==> run(s, h, presses(KeyEvent::ArrowDown, n)).buffer == Seq::<char>::empty(),
        n >= h.len() ==> run(s, h, presses(KeyEvent::ArrowDown, n + 1)) == run(
            s,
            h,
            presses(KeyEvent::ArrowDown, n),
        ),
{
    lemma_downs(s, h, n);
    lemma_downs(s, h, n + 1);
}

/// What one key press gives: the terminal operations to perform, and on
/// Enter the finished line.
pub struct Reaction {
    pub ops: Vec<TermOp>,
    pub line: Option<String>,
}

/// One edit session.
pub struct Editor {
    buffer: Vec<char>,
    cursor: usize,
    recall: usize,
}

impl View for Editor {
    type V = EditState;

    closed spec fn view(&self) -> EditState {
        EditState { buffer: self.buffer@, cursor: self.cursor as nat, recall: self.recall as nat }
    }
}

impl Editor {
    /// A session with an empty buffer over `history`, recalling nothing.
    pub fn new(history: &HistoryStore) -> (r: Editor)
        ensures
            r@ == fresh(history@),
    {
        let r = Editor { buffer: Vec::new(), cursor: 0, recall: history.len() };
        assert(r@.buffer =~= Seq::<char>::empty());
        r
    }

    /// The text in the buffer.
    pub fn text(&self) -> (r: String)
        ensures
            r@ == self@.buffer,
    {
        string_of(&self.buffer)
    }

    /// The cursor's offset in the buffer.
    pub fn cursor(&self) -> (r: usize)
        ensures
            r == self@.cursor,
    {
        self.cursor
    }

    /// The recalled history position; the history's length when none is recalled.
    pub fn history_cursor(&self) -> (r: usize)
        ensures
            r == self@.recall,
    {
        self.recall
    }

    fn suffix(&self) -> (r: String)
        requires
            self.cursor <= self.buffer@.len(),
        ensures
            r@ == self.buffer@.skip(self.cursor as int),
    {
        let v = copy_range(&self.buffer, self.cursor, self.buffer.len());
        string_of(&v)
    }

    fn show(&mut self, text: Vec<char>, r: usize) -> (ops: Vec<TermOp>)
        ensures
            final(self)@ == showing(text@, r as nat),
            effects(ops@) == redraw(text@),
    {
        let n = text.len();
        let printed = string_of(&text);
        self.buffer = text;
        self.cursor = n;
        self.recall = r;
        let ops = vec![TermOp::ToOffset(0), TermOp::ClearAfter, TermOp::Print(printed), TermOp::ToOffset(n)];
        assert(effects(ops@) =~= redraw(text@));
        ops
    }

    /// Applies key `key`: changes the session as `next` says and returns the
    /// operations that `ops_for` gives; on Enter also the finished line, the
    /// buffer without leading and trailing white space.
    pub fn handle_key(&mut self, history: &HistoryStore, key: KeyEvent) -> (r: Reaction)
        requires
            valid(old(self)@, history@),
        ensures
            final(self)@ == next(old(self)@, history@, key),
            effects(r.ops@) == ops_for(old(self)@, history@, key),
            key is Enter ==> r.line is Some && r.line->0@ == submitted(old(self)@),
            !(key is Enter) ==> r.line is None,
    {
        let ghost s = self@;
        let ghost h = history@;
        match key {
            KeyEvent::Char(c) => {
                self.buffer.insert(self.cursor, c);
                let n = self.buffer.len();
                self.cursor = self.cursor + 1;
                let typed = vec![c];
                assert(typed@ =~= seq![c]);
                let mut ops: Vec<TermOp> = Vec::new();
                ops.push(TermOp::Print(string_of(&typed)));
                assert(self@ == next(s, h, key));
                if self.cursor != n {
                    ops.push(TermOp::Print(self.suffix()));
                    ops.push(TermOp::Left(n - self.cursor));
                }
                assert(effects(ops@) =~= ops_for(s, h, key));
                Reaction { ops, line: None }
            },
            KeyEvent::Backspace => {
                let mut ops: Vec<TermOp> = Vec::new();
                if self.cursor > 0 {
                    self.cursor = self.cursor - 1;
                    self.buffer.remove(self.cursor);
                    ops.push(TermOp::Left(1));
                    ops.push(TermOp::ClearAfter);
                    if self.cursor < self.buffer.len() {
                        ops.push(TermOp::Print(self.suffix()));
                        ops.push(TermOp::ToOffset(self.cursor));
                    }
                }
                assert(effects(ops@) =~= ops_for(s, h, key));
                Reaction { ops, line: None }
            },
            KeyEvent::ArrowLeft => {
                let mut ops: Vec<TermOp> = Vec::new();
                if self.cursor > 0 {
                    self.cursor = self.cursor - 1;
                    ops.push(TermOp::Left(1));
                }
                assert(effects(ops@) =~= ops_for(s, h, key));
                Reaction { ops, line: None }
            },
            KeyEvent::ArrowRight => {
                let mut ops: Vec<TermOp> = Vec::new();
                if self.cursor < self.buffer.len() {
                    self.cursor = self.cursor + 1;
                    ops.push(TermOp::Right(1));
                }
                assert(effects(ops@) =~= ops_for(s, h, key));
                Reaction { ops, line: None }
            },
            KeyEvent::ArrowUp => {
                if history.len() == 0 {
                    let ops: Vec<TermOp> = Vec::new();
                    assert(effects(ops@) =~= ops_for(s, h, key));
                    return Reaction { ops, line: None };
                }
                let r: usize = if self.recall > 0 { self.recall - 1 } else { 0 };
                let text = history.entry_chars(r);
                let ops = self.show(text, r);
                Reaction { ops, line: None }
            },
            KeyEvent::ArrowDown => {
                let n = history.len();
                if n == 0 {
                    let ops: Vec<TermOp> = Vec::new();
                    assert(effects(ops@) =~= ops_for(s, h, key));
                    return Reaction { ops, line: None };
                }
                if self.recall < n - 1 {
                    let r = self.recall + 1;
                    let text = history.entry_chars(r);
                    let ops = self.show(text, r);
                    Reaction { ops, line: None }
                } else {
                    let ops = self.show(Vec::new(), n);
                    Reaction { ops, line: None }
                }
            },
            KeyEvent::Enter => {
                let line = string_of(&trim_chars(&self.buffer));
                let ops = vec![TermOp::NewLine];
                assert(effects(ops@) =~= ops_for(s, h, key));
                Reaction { ops, line: Some(line) }
            },
            KeyEvent::Other => {
                let ops: Vec<TermOp> = Vec::new();
                assert(effects(ops@) =~= ops_for(s, h, key));
                Reaction { ops, line: None }
            },
        }
    }
}

/// Runs a session over `history` on the keys `keys`, and hands back the line
/// at the first Enter; nothing if no Enter comes. The terminal operations are
/// dropped.
pub fn read_line(history: &HistoryStore, keys: &Vec<KeyEvent>) -> (r: Option<String>)
    ensures
        match line_after(fresh(history@), history@, keys@) {
            Some(l) => r is Some && r->0@ == l,
            None => r is None,
        },
{
    let mut ed = Editor::new(history);
    let mut i: usize = 0;
    assert(keys@.skip(0) =~= keys@);
    while i < keys.len()
        invariant
            i <= keys@.len(),
            valid(ed@, history@),
            line_after(fresh(history@), history@, keys@) == line_after(
                ed@,
                history@,
                keys@.skip(i as int),
            ),
        decreases keys@.len() - i,
    {
        let ghost before = ed@;
        let reaction = ed.handle_key(history, keys[i]);
        proof {
            lemma_next_valid(before, history@, keys@[i as int]);
            assert(keys@.skip(i as int)[0] == keys@[i as int]);
            assert(keys@.skip(i as int).drop_first() =~= keys@.skip(i + 1));
        }
        if reaction.line.is_some() {
            return reaction.line;
        }
        i += 1;
    }
    None
}

} // verus!
