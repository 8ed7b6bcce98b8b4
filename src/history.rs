//! The command history: an append-only list of submitted lines, oldest first.

use vstd::prelude::*;
use crate::text::{chars_of, copy_chars, is_ws, string_of, trim, trim_chars, trim_end, trim_start};

verus! {

/// The pieces of `s` between line feeds; one empty piece for an empty `s`.
pub open spec fn split_lines(s: Seq<char>) -> Seq<Seq<char>>
    decreases s.len(),
{
    if s.len() == 0 {
        seq![Seq::empty()]
    } else {
        let p = split_lines(s.drop_last());
        if s.last() == '\n' {
            p.push(Seq::empty())
        } else {
            p.update(p.len() - 1, p.last().push(s.last()))
        }
    }
}

/// Each of `p`, trimmed.
pub open spec fn trim_all(p: Seq<Seq<char>>) -> Seq<Seq<char>> {
    p.map_values(|l: Seq<char>| trim(l))
}

/// The entries that a stored history text holds: its lines, each trimmed,
/// once the text itself is trimmed; none for a text of white space alone.
pub open spec fn parse_history(text: Seq<char>) -> Seq<Seq<char>> {
    if trim(text).len() == 0 {
        Seq::empty()
    } else {
        trim_all(split_lines(trim(text)))
    }
}

/// What appending `line` adds to the stored history text.
pub open spec fn record_of(line: Seq<char>) -> Seq<char> {
    line.push('\n')
}

proof fn lemma_views_push(v: Seq<Vec<char>>, x: Vec<char>)
    ensures
        v.push(x).map_values(|e: Vec<char>| e@) == v.map_values(|e: Vec<char>| e@).push(x@),
{
    assert(v.push(x).map_values(|e: Vec<char>| e@) =~= v.map_values(|e: Vec<char>| e@).push(x@));
}

proof fn lemma_trim_all_push(p: Seq<Seq<char>>, l: Seq<char>)
    ensures
        trim_all(p.push(l)) == trim_all(p).push(trim(l)),
{
    assert(trim_all(p.push(l)) =~= trim_all(p).push(trim(l)));
}

proof fn lemma_split_lines_nonempty(s: Seq<char>)
    ensures
        split_lines(s).len() >= 1,
    decreases s.len(),
{
    if s.len() > 0 {
        lemma_split_lines_nonempty(s.drop_last());
    }
}

/// The stored history text after `lines` were appended one by one.
pub open spec fn stored_text(lines: Seq<Seq<char>>) -> Seq<char>
    decreases lines.len(),
{
    if lines.len() == 0 {
        Seq::empty()
    } else {
        stored_text(lines.drop_last()) + record_of(lines.last())
    }
}

/// A line that the stored history gives back as it is: not empty, without a
/// line feed, and without white space at either end.
pub open spec fn storable(l: Seq<char>) -> bool {
    l.len() > 0 && !l.contains('\n') && trim(l) == l
}

proof fn lemma_trim_start_len(s: Seq<char>)
    ensures
        trim_start(s).len() <= s.len(),
    decreases s.len(),
{
    if s.len() > 0 && is_ws(s[0]) {
        lemma_trim_start_len(s.drop_first());
    }
}

proof fn lemma_trim_end_len(s: Seq<char>)
    ensures
        trim_end(s).len() <= s.len(),
    decreases s.len(),
{
    if s.len() > 0 && is_ws(s.last()) {
        lemma_trim_end_len(s.drop_last());
    }
}

proof fn lemma_storable_ends(l: Seq<char>)
    requires
        storable(l),
    ensures
        !is_ws(l[0]),
        !is_ws(l.last()),
{
    lemma_trim_start_len(l);
    if is_ws(l[0]) {
        lemma_trim_start_len(l.drop_first());
        lemma_trim_end_len(trim_start(l));
    }
    assert(trim_start(l) == l);
    if is_ws(l.last()) {
        lemma_trim_end_len(l.drop_last());
    }
}

proof fn lemma_split_no_feed(x: Seq<char>, l: Seq<char>)
    requires
        !l.contains('\n'),
    ensures
        split_lines(x).len() >= 1,
        split_lines(x + l) == split_lines(x).update(
            split_lines(x).len() - 1,
            split_lines(x).last() + l,
        ),
    decreases l.len(),
{
    lemma_split_lines_nonempty(x);
    if l.len() == 0 {
        assert(x + l =~= x);
        assert(split_lines(x).last() + l =~= split_lines(x).last());
        assert(split_lines(x).update(split_lines(x).len() - 1, split_lines(x).last())
            =~= split_lines(x));
    } else {
        let m = l.drop_last();
        assert(!m.contains('\n')) by {
            if m.contains('\n') {
                let k = choose|k: int| 0 <= k < m.len() && m[k] == '\n';
                assert(l[k] == '\n');
            }
        }
        lemma_split_no_feed(x, m);
        assert((x + l).drop_last() =~= x + m);
        assert((x + l).last() == l.last());
        assert(l.last() != '\n') by {
            assert(l[l.len() - 1] == l.last());
        }
        let p = split_lines(x + m);
        let q = split_lines(x);
        assert(p.len() == q.len());
        assert(p.last() =~= q.last() + m);
        assert(p.last().push(l.last()) =~= q.last() + l);
        assert(split_lines(x).last() + m + seq![l.last()] =~= split_lines(x).last() + l);
        assert(p.update(p.len() - 1, p.last().push(l.last())) =~= split_lines(x).update(
            split_lines(x).len() - 1,
            split_lines(x).last() + l,
        ));
    }
}

proof fn lemma_stored_text_shape(lines: Seq<Seq<char>>)
    requires
        lines.len() > 0,
        forall|i: int| 0 <= i < lines.len() ==> storable(#[trigger] lines[i]),
    ensures
        stored_text(lines).len() > 1,
        stored_text(lines).last() == '\n',
        stored_text(lines)[0] == lines[0][0],
        split_lines(stored_text(lines).drop_last()) == lines,
    decreases lines.len(),
{
    let pre = lines.drop_last();
    let l = lines.last();
    assert(storable(lines[lines.len() - 1]));
    let t = stored_text(lines);
    assert(t == stored_text(pre) + l.push('\n'));
    assert(t.drop_last() =~= stored_text(pre) + l);
    if pre.len() == 0 {
        assert(stored_text(pre) =~= Seq::<char>::empty());
        lemma_split_no_feed(Seq::<char>::empty(), l);
        assert(Seq::<char>::empty() + l =~= l);
        assert(stored_text(pre) + l =~= l);
        assert(split_lines(Seq::<char>::empty()) == seq![Seq::<char>::empty()]);
        assert(seq![Seq::<char>::empty()].update(0, Seq::<char>::empty() + l) =~= lines);
    } else {
        assert forall|i: int| 0 <= i < pre.len() implies storable(#[trigger] pre[i]) by {
            assert(pre[i] == lines[i]);
        }
        lemma_stored_text_shape(pre);
        let sp = stored_text(pre);
        let x = sp.drop_last();
        assert(sp =~= x.push('\n'));
        assert(split_lines(sp) == split_lines(x).push(Seq::<char>::empty())) by {
            assert(sp.drop_last() =~= x);
        }
        lemma_split_no_feed(sp, l);
        assert(Seq::<char>::empty() + l =~= l);
        assert(split_lines(sp).update(split_lines(sp).len() - 1, l) =~= lines);
        assert(t[0] == sp[0]);
        assert(pre[0] == lines[0]);
    }
}

/// The stored history text gives back, entry for entry, the lines appended
/// to it, when each line is storable.
pub proof fn lemma_records_load_back(lines: Seq<Seq<char>>)
    requires
        forall|i: int| 0 <= i < lines.len() ==> storable(#[trigger] lines[i]),
    ensures
        parse_history(stored_text(lines)) == lines,
{
    let t = stored_text(lines);
    if lines.len() == 0 {
        assert(trim(t).len() == 0);
    } else {
        lemma_stored_text_shape(lines);
        assert(storable(lines[0]));
        lemma_storable_ends(lines[0]);
        assert(trim_start(t) == t);
        let l = lines.last();
        assert(storable(lines[lines.len() - 1]));
        lemma_storable_ends(l);
        let u = t.drop_last();
        assert(trim_end(t) == trim_end(u));
        assert(u.last() == l.last()) by {
            assert(t == stored_text(lines.drop_last()) + l.push('\n'));
        }
        assert(trim_end(u) == u);
        assert(trim(t) == u);
        assert(trim_all(lines) =~= lines) by {
            assert forall|i: int| 0 <= i < lines.len() implies #[trigger] trim_all(lines)[i]
                == lines[i] by {
                assert(storable(lines[i]));
            }
        }
    }
}

/// Submitted command lines, oldest first.
pub struct HistoryStore {
    entries: Vec<Vec<char>>,
}

impl View for HistoryStore {
    type V = Seq<Seq<char>>;

    closed spec fn view(&self) -> Seq<Seq<char>> {
        self.entries@.map_values(|e: Vec<char>| e@)
    }
}

impl HistoryStore {
    /// An empty history.
    pub fn new() -> (r: HistoryStore)
        ensures
            r@ == Seq::<Seq<char>>::empty(),
    {
        let r = HistoryStore { entries: Vec::new() };
        assert(r@ =~= Seq::<Seq<char>>::empty());
        r
    }

    /// The history stored as `text`: one entry per line, each trimmed, as
    /// `parse_history` says. A line of the text never holds a line feed, so
    /// an entry that held one comes back as two.
    pub fn load(text: &str) -> (r: HistoryStore)
        ensures
            r@ == parse_history(text@),
    {
        let all = chars_of(text);
        let t = trim_chars(&all);
        if t.len() == 0 {
            return HistoryStore::new();
        }
        let mut entries: Vec<Vec<char>> = Vec::new();
        let mut cur: Vec<char> = Vec::new();
        let mut i: usize = 0;
        proof {
            assert(t@.take(0) =~= Seq::<char>::empty());
            assert(entries@.map_values(|e: Vec<char>| e@) =~= trim_all(split_lines(t@.take(0)).drop_last()));
        }
        while i < t.len()
            invariant
                i <= t@.len(),
                split_lines(t@.take(i as int)).len() >= 1,
                entries@.map_values(|e: Vec<char>| e@) == trim_all(split_lines(t@.take(i as int)).drop_last()),
                cur@ == split_lines(t@.take(i as int)).last(),
            decreases t@.len() - i,
        {
            let ghost p = split_lines(t@.take(i as int));
            let ghost before = entries@;
            let c = t[i];
            assert(t@.take(i + 1).drop_last() =~= t@.take(i as int));
            assert(t@.take(i + 1).last() == c);
            if c == '\n' {
                let line = trim_chars(&cur);
                entries.push(line);
                cur = Vec::new();
                proof {
                    let q = split_lines(t@.take(i + 1));
                    assert(q == p.push(Seq::empty()));
                    assert(q.drop_last() =~= p);
                    assert(p =~= p.drop_last().push(p.last()));
                    lemma_views_push(before, line);
                    lemma_trim_all_push(p.drop_last(), p.last());
                    assert(cur@ =~= q.last());
                }
            } else {
                cur.push(c);
                proof {
                    let q = split_lines(t@.take(i + 1));
                    assert(q.drop_last() =~= p.drop_last());
                    assert(cur@ == q.last());
                }
            }
            i += 1;
            proof {
                lemma_split_lines_nonempty(t@.take(i as int));
            }
        }
        let ghost p = split_lines(t@);
        assert(t@.take(i as int) =~= t@);
        let ghost before = entries@;
        entries.push(trim_chars(&cur));
        proof {
            assert(p =~= p.drop_last().push(p.last()));
            lemma_views_push(before, entries@.last());
            assert(entries@ == before.push(entries@.last()));
            lemma_trim_all_push(p.drop_last(), p.last());
        }
        HistoryStore { entries }
    }

    /// The text to add to the stored history for a newly accepted `line`:
    /// the line and a line feed.
    pub fn record(line: &str) -> (r: String)
        ensures
            r@ == record_of(line@),
    {
        let mut r = String::from_str(line);
        r.append("\n");
        proof {
            reveal_strlit("\n");
        }
        assert(r@ =~= record_of(line@));
        r
    }

    /// The number of entries.
    pub fn len(&self) -> (r: usize)
        ensures
            r == self@.len(),
    {
        self.entries.len()
    }

    /// The entry at `i`, counted from the oldest.
    pub fn entry(&self, i: usize) -> (r: String)
        requires
            i < self@.len(),
        ensures
            r@ == self@[i as int],
    {
        string_of(&self.entries[i])
    }

    /// A copy of the characters of the entry at `i`.
    pub fn entry_chars(&self, i: usize) -> (r: Vec<char>)
        requires
            i < self@.len(),
        ensures
            r@ == self@[i as int],
    {
        copy_chars(&self.entries[i])
    }

    /// Adds `line` as the newest entry.
    pub fn append(&mut self, line: &str)
        ensures
            final(self)@ == old(self)@.push(line@),
    {
        let ghost before = self@;
        self.entries.push(chars_of(line));
        assert(self@ =~= before.push(line@));
    }
}

} // verus!
