//! The history log: the lines that were run, numbered from one.

use crate::number::{decimal, pad_left, push_padded};
use crate::text::views;
use vstd::prelude::*;

verus! {

/// The lines that were run, oldest first.
#[derive(Debug, PartialEq, Eq)]
pub struct History {
    pub lines: Vec<String>,
}

impl View for History {
    type V = Seq<Seq<char>>;

    open spec fn view(&self) -> Seq<Seq<char>> {
        views(self.lines@)
    }
}

/// The width that an entry's number is padded to.
pub open spec fn index_width() -> nat {
    5
}

/// One line of the log: the number, right-aligned, two spaces, the text as it
/// was typed, and a line break.
pub open spec fn history_line(index: nat, line: Seq<char>) -> Seq<char> {
    pad_left(decimal(index), index_width()) + seq![' ', ' '] + line + seq!['\n']
}

/// The log as text: one line for each entry, numbered from one, oldest first.
pub open spec fn history_text(entries: Seq<Seq<char>>) -> Seq<char>
    decreases entries.len(),
{
    if entries.len() == 0 {
        Seq::empty()
    } else {
        history_text(entries.drop_last()) + history_line(entries.len(), entries.last())
    }
}

impl History {
    /// An empty log.
    pub fn new() -> (h: History)
        ensures
            h@ == Seq::<Seq<char>>::empty(),
    {
        let h = History { lines: Vec::new() };
        assert(h@ =~= Seq::<Seq<char>>::empty());
        h
    }

    /// The number of entries.
    pub fn len(&self) -> (n: usize)
        ensures
            n == self@.len(),
    {
        self.lines.len()
    }

    /// Adds `line` as the newest entry.
    pub fn record(&mut self, line: &str)
        ensures
            final(self)@ == old(self)@.push(line@),
    {
        let mut entry = String::new();
        entry.append(line);
        assert(entry@ =~= line@);
        self.lines.push(entry);
        assert(self@ =~= old(self)@.push(line@));
    }

    /// The log as text, which is the result of `history`.
    pub fn listing(&self) -> (out: String)
        ensures
            out@ == history_text(self@),
    {
        let mut out = String::new();
        let n = self.lines.len();
        let mut i: usize = 0;
        assert(self@.take(0).len() == 0);
        while i < n
            invariant
                n == self.lines.len(),
                i <= n,
                out@ == history_text(self@.take(i as int)),
            decreases n - i,
        {
            let ghost before = out@;
            let ghost now = self@.take(i + 1);
            assert(now.drop_last() == self@.take(i as int));
            assert(now.last() == self.lines@[i as int]@);
            push_padded(&mut out, i + 1, 5);
            out.append("  ");
            out.append(self.lines[i].as_str());
            out.push('\n');
            proof {
                reveal_strlit("  ");
                assert("  "@ =~= seq![' ', ' ']);
                assert(out@ =~= before + history_line((i + 1) as nat, now.last()));
            }
            i += 1;
        }
        assert(self@.take(n as int) == self@);
        out
    }
}

} // verus!
