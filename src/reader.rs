//! Splitting a stream of text lines into per-record sequences.
//!
//! A line that starts with `>` closes the record being gathered, if it holds
//! anything. Any other line, once its trailing whitespace is removed, is
//! added to the record when each of its characters is a nucleotide letter
//! (ambiguity codes included), and skipped otherwise. When the input ends,
//! the record being gathered is handed out if it holds anything.

use vstd::prelude::*;
use crate::alphabet::{extended_letters, is_nucleotide, within};
use crate::text::{chars_of, text_of, texts, trim_end, trimmed_end_of};

verus! {

/// The line opens a new record.
pub open spec fn is_header(line: Seq<char>) -> bool {
    line.len() > 0 && line[0] == '>'
}

/// The residues a line adds to the current record, if it adds any.
pub open spec fn residues(line: Seq<char>) -> Option<Seq<char>> {
    if !is_header(line) && within(trimmed_end_of(line), extended_letters()) {
        Some(trimmed_end_of(line))
    } else {
        None
    }
}

/// One line taken in: the record gathered afterwards, and the record handed
/// out, if any.
pub open spec fn step(buffer: Seq<char>, line: Seq<char>) -> (Seq<char>, Option<Seq<char>>) {
    if is_header(line) && buffer.len() > 0 {
        (Seq::empty(), Some(buffer))
    } else {
        match residues(line) {
            Some(r) => (buffer + r, None),
            None => (buffer, None),
        }
    }
}

/// The record still being gathered after `lines`, and the records handed out.
pub open spec fn scan(lines: Seq<Seq<char>>) -> (Seq<char>, Seq<Seq<char>>)
    decreases lines.len(),
{
    if lines.len() == 0 {
        (Seq::empty(), Seq::empty())
    } else {
        let (buffer, done) = scan(lines.drop_last());
        let (next, out) = step(buffer, lines.last());
        match out {
            Some(rec) => (next, done.push(rec)),
            None => (next, done),
        }
    }
}

/// The records of a whole input: those closed by a header, then the one
/// still gathered at the end, if it is not empty.
pub open spec fn records(lines: Seq<Seq<char>>) -> Seq<Seq<char>> {
    if scan(lines).0.len() > 0 {
        scan(lines).1.push(scan(lines).0)
    } else {
        scan(lines).1
    }
}

/// Gathers the residues of one record at a time from lines fed in order.
pub struct RecordReader {
    buffer: Vec<char>,
}

impl View for RecordReader {
    type V = Seq<char>;

    closed spec fn view(&self) -> Seq<char> {
        self.buffer@
    }
}

impl RecordReader {
    /// A reader with nothing gathered.
    pub fn new() -> (r: RecordReader)
        ensures
            r@ == Seq::<char>::empty(),
    {
        RecordReader { buffer: Vec::new() }
    }

    /// Takes one line in; hands out the record it closes, if any.
    pub fn feed(&mut self, line: &str) -> (r: Option<String>)
        ensures
            final(self)@ == step(old(self)@, line@).0,
            match r {
                Some(s) => step(old(self)@, line@).1 == Some(s@),
                None => step(old(self)@, line@).1 is None,
            },
    {
        let cs = chars_of(line);
        if cs.len() > 0 && cs[0] == '>' {
            if self.buffer.len() > 0 {
                let rec = text_of(&self.buffer, 0, self.buffer.len());
                assert(self.buffer@.subrange(0, self.buffer@.len() as int) =~= self.buffer@);
                self.buffer = Vec::new();
                return Some(rec);
            }
            return None;
        }
        let tc = chars_of(trim_end(line));
        let mut i: usize = 0;
        let mut ok = true;
        while i < tc.len()
            invariant
                i <= tc@.len(),
                ok == within(tc@.take(i as int), extended_letters()),
            decreases tc.len() - i,
        {
            let c = tc[i];
            let good = is_nucleotide(c);
            proof {
                let prev = tc@.take(i as int);
                let next = tc@.take(i + 1);
                assert(next =~= prev.push(c));
                if within(next, extended_letters()) {
                    assert forall|k: int| 0 <= k < prev.len() implies extended_letters().contains(
                        #[trigger] prev[k],
                    ) by {
                        assert(next[k] == prev[k]);
                    }
                    assert(next[i as int] == c);
                }
                if within(prev, extended_letters()) && good {
                    assert forall|k: int| 0 <= k < next.len() implies extended_letters().contains(
                        #[trigger] next[k],
                    ) by {
                        if k < i {
                            assert(next[k] == prev[k]);
                        }
                    }
                }
            }
            ok = ok && good;
            i = i + 1;
        }
        assert(tc@.take(tc@.len() as int) =~= tc@);
        if ok {
            let ghost start = self.buffer@;
            let mut j: usize = 0;
            while j < tc.len()
                invariant
                    j <= tc@.len(),
                    self.buffer@ == start + tc@.take(j as int),
                decreases tc.len() - j,
            {
                self.buffer.push(tc[j]);
                assert(tc@.take(j + 1) =~= tc@.take(j as int).push(tc@[j as int]));
                j = j + 1;
            }
        }
        None
    }

    /// The record gathered when the input ends, if it holds anything.
    pub fn finish(self) -> (r: Option<String>)
        ensures
            self@.len() > 0 ==> r is Some && r->Some_0@ == self@,
            self@.len() == 0 ==> r is None,
    {
        if self.buffer.len() == 0 {
            return None;
        }
        assert(self.buffer@.subrange(0, self.buffer@.len() as int) =~= self.buffer@);
        Some(text_of(&self.buffer, 0, self.buffer.len()))
    }
}

/// Splits a whole input into its records: each one closed by a header line,
/// then the one gathered when the input ends, unless it is empty.
pub fn split_records(lines: &Vec<String>) -> (r: Vec<String>)
    ensures
        texts(r@) == records(texts(lines@)),
{
    let ghost ls = texts(lines@);
    let mut reader = RecordReader::new();
    let mut out: Vec<String> = Vec::new();
    let mut k: usize = 0;
    while k < lines.len()
        invariant
            ls == texts(lines@),
            k <= lines@.len(),
            reader@ == scan(ls.take(k as int)).0,
            texts(out@) == scan(ls.take(k as int)).1,
        decreases lines.len() - k,
    {
        proof {
            assert(ls.take(k + 1).drop_last() =~= ls.take(k as int));
        }
        match reader.feed(lines[k].as_str()) {
            Some(rec) => {
                out.push(rec);
                assert(texts(out@) =~= scan(ls.take(k + 1)).1);
            },
            None => {},
        }
        k = k + 1;
    }
    assert(ls.take(lines@.len() as int) =~= ls);
    match reader.finish() {
        Some(last) => {
            out.push(last);
        },
        None => {},
    }
    assert(texts(out@) =~= records(ls));
    out
}

} // verus!
