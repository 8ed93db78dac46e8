//! Trigger generation: every fixed-length window of each sequence,
//! upper-cased, merged across sequences without duplicates and restricted
//! to an alphabet.

use vstd::prelude::*;
use crate::alphabet::{outside_flags, within, Alphabet};
use crate::args::Cli;
use crate::tally::{
    distinct_texts, entries_of, lemma_text_set_take_step, map_insert, map_keys, map_new, text_set,
};
use crate::text::{ascii_text, chars_of, text_of, texts, upper, upper_of};

verus! {

/// The windows of length `len` of `s`, by start position, before any case change.
pub open spec fn raw_windows(s: Seq<char>, len: nat) -> Seq<Seq<char>> {
    if len <= s.len() {
        Seq::new((s.len() - len + 1) as nat, |i: int| s.subrange(i, i + len))
    } else {
        Seq::empty()
    }
}

/// `w` is the upper-cased form of some window of length `len` of one of the sequences.
pub open spec fn is_window_of(seqs: Seq<Seq<char>>, len: nat, w: Seq<char>) -> bool {
    exists|k: int, i: int|
        0 <= k < seqs.len() && 0 <= i < raw_windows(seqs[k], len).len() && w == upper_of(
            #[trigger] raw_windows(seqs[k], len)[i],
        )
}

/// The triggers of a set of sequences: each distinct upper-cased window of
/// length `len` whose characters all belong to `letters`.
pub open spec fn trigger_set(seqs: Seq<Seq<char>>, len: nat, letters: Seq<char>) -> Set<Seq<char>> {
    Set::new(|w: Seq<char>| is_window_of(seqs, len, w) && within(w, letters))
}

/// A sequence of length `n` has `n - len + 1` windows when `len <= n`, each of
/// length `len` and starting at its index; it has none when `len > n`.
pub proof fn lemma_raw_window_count(s: Seq<char>, len: nat)
    ensures
        len <= s.len() ==> raw_windows(s, len).len() == s.len() - len + 1,
        len > s.len() ==> raw_windows(s, len).len() == 0,
        forall|i: int|
            0 <= i < raw_windows(s, len).len() ==> (#[trigger] raw_windows(s, len)[i]).len() == len
                && raw_windows(s, len)[i] == s.subrange(i, i + len),
{
}

/// A sequence shorter than the window length, placed anywhere among the
/// sequences, adds no trigger and takes none away.
pub proof fn lemma_short_sequence_adds_nothing(
    seqs: Seq<Seq<char>>,
    pos: int,
    s: Seq<char>,
    len: nat,
    letters: Seq<char>,
)
    requires
        0 <= pos <= seqs.len(),
        s.len() < len,
    ensures
        trigger_set(seqs.insert(pos, s), len, letters) == trigger_set(seqs, len, letters),
{
    let more = seqs.insert(pos, s);
    assert forall|w: Seq<char>| is_window_of(more, len, w) implies is_window_of(seqs, len, w) by {
        let (k, i) = choose|k: int, i: int|
            0 <= k < more.len() && 0 <= i < raw_windows(more[k], len).len() && w == upper_of(
                #[trigger] raw_windows(more[k], len)[i],
            );
        if k < pos {
            assert(more[k] == seqs[k]);
            assert(raw_windows(seqs[k], len)[i] == raw_windows(more[k], len)[i]);
        } else if k > pos {
            assert(more[k] == seqs[k - 1]);
            assert(raw_windows(seqs[k - 1], len)[i] == raw_windows(more[k], len)[i]);
        } else {
            assert(more[k] == s);
        }
    }
    assert forall|w: Seq<char>| is_window_of(seqs, len, w) implies is_window_of(more, len, w) by {
        let (k, i) = choose|k: int, i: int|
            0 <= k < seqs.len() && 0 <= i < raw_windows(seqs[k], len).len() && w == upper_of(
                #[trigger] raw_windows(seqs[k], len)[i],
            );
        if k < pos {
            assert(more[k] == seqs[k]);
            assert(raw_windows(more[k], len)[i] == raw_windows(seqs[k], len)[i]);
        } else {
            assert(more[k + 1] == seqs[k]);
            assert(raw_windows(more[k + 1], len)[i] == raw_windows(seqs[k], len)[i]);
        }
    }
    assert(trigger_set(more, len, letters) =~= trigger_set(seqs, len, letters));
}

/// Generating triggers twice from the same sequences, length and alphabet
/// gives the same set: the result is determined by the input alone.
pub proof fn lemma_generation_repeatable(
    seqs: Seq<Seq<char>>,
    len: nat,
    letters: Seq<char>,
    first: Seq<String>,
    second: Seq<String>,
)
    requires
        text_set(first) == trigger_set(seqs, len, letters),
        text_set(second) == trigger_set(seqs, len, letters),
    ensures
        text_set(first) == text_set(second),
{
}

/// No trigger holds a character outside the alphabet it was filtered by.
pub proof fn lemma_triggers_within_alphabet(
    seqs: Seq<Seq<char>>,
    len: nat,
    letters: Seq<char>,
    w: Seq<char>,
)
    requires
        trigger_set(seqs, len, letters).contains(w),
    ensures
        within(w, letters),
        is_window_of(seqs, len, w),
{
}

/// The upper-cased windows of length `trg_len` of `genome`, by start position.
/// A genome shorter than `trg_len` has none.
pub fn make_windows(genome: &str, trg_len: usize) -> (r: Vec<String>)
    requires
        trg_len > 0,
    ensures
        r@.len() == raw_windows(genome@, trg_len as nat).len(),
        forall|i: int|
            0 <= i < r@.len() ==> (#[trigger] r@[i])@ == upper_of(
                raw_windows(genome@, trg_len as nat)[i],
            ),
        ascii_text(genome@) ==> forall|i: int|
            0 <= i < r@.len() ==> (#[trigger] r@[i])@.len() == trg_len,
{
    let cs = chars_of(genome);
    let mut out: Vec<String> = Vec::new();
    if trg_len > cs.len() {
        return out;
    }
    let n = cs.len();
    let last = n - trg_len;
    let mut i: usize = 0;
    while i <= last
        invariant
            cs@ == genome@,
            n == cs@.len(),
            trg_len > 0,
            last == cs@.len() - trg_len,
            trg_len <= cs@.len(),
            i <= last + 1,
            out@.len() == i,
            forall|k: int|
                0 <= k < i ==> (#[trigger] out@[k])@ == upper_of(
                    cs@.subrange(k, k + trg_len as int),
                ),
            ascii_text(genome@) ==> forall|k: int| 0 <= k < i ==> (#[trigger] out@[k])@.len() == trg_len,
        decreases last + 1 - i,
    {
        let w = text_of(&cs, i, i + trg_len);
        let u = upper(w.as_str());
        proof {
            if ascii_text(genome@) {
                assert forall|j: int| 0 <= j < w@.len() implies (#[trigger] w@[j] as u32) < 128 by {
                    assert(w@[j] == cs@[i + j]);
                }
            }
        }
        out.push(u);
        i = i + 1;
    }
    out
}

/// The triggers of the given sequences under the settings: every distinct
/// upper-cased window of length `cli.trg_len` whose letters belong to the
/// chosen alphabet, each once, in no particular order.
pub fn collect_windows(sequences: &Vec<String>, cli: &Cli) -> (r: Vec<String>)
    requires
        cli.trg_len > 0,
    ensures
        distinct_texts(r@),
        text_set(r@) == trigger_set(
            texts(sequences@),
            cli.trg_len as nat,
            Alphabet::from_flag(cli.include_non_standard).letters(),
        ),
        forall|i: int|
            0 <= i < r@.len() ==> within(
                (#[trigger] r@[i])@,
                Alphabet::from_flag(cli.include_non_standard).letters(),
            ),
{
    let alphabet = Alphabet::from_flag(cli.include_non_standard);
    let len = cli.trg_len;
    let ghost seqs = texts(sequences@);
    let mut pool = TriggerPool::new();
    let mut k: usize = 0;
    while k < sequences.len()
        invariant
            len > 0,
            seqs == texts(sequences@),
            k <= sequences@.len(),
            pool@ == Set::new(|w: Seq<char>| is_window_of(seqs.take(k as int), len as nat, w)),
        decreases sequences.len() - k,
    {
        let batch = make_windows(sequences[k].as_str(), len);
        let ghost before = pool@;
        pool.add_windows(&batch);
        proof {
            let kk = k as int;
            let after = Set::new(|w: Seq<char>| is_window_of(seqs.take(kk + 1), len as nat, w));
            assert(seqs.take(kk + 1)[kk] == sequences@[kk]@);
            assert forall|w: Seq<char>| #[trigger] after.contains(w) implies pool@.contains(w) by {
                let (a, b) = choose|a: int, b: int|
                    0 <= a < kk + 1 && 0 <= b < raw_windows(seqs.take(kk + 1)[a], len as nat).len()
                        && w == upper_of(
                        #[trigger] raw_windows(seqs.take(kk + 1)[a], len as nat)[b],
                    );
                if a < kk {
                    assert(seqs.take(kk)[a] == seqs.take(kk + 1)[a]);
                    assert(is_window_of(seqs.take(kk), len as nat, w));
                } else {
                    assert(batch@[b]@ == w);
                    assert(text_set(batch@).contains(w));
                }
            }
            assert forall|w: Seq<char>| #[trigger] pool@.contains(w) implies after.contains(w) by {
                if before.contains(w) {
                    let (a, b) = choose|a: int, b: int|
                        0 <= a < kk && 0 <= b < raw_windows(seqs.take(kk)[a], len as nat).len()
                            && w == upper_of(#[trigger] raw_windows(seqs.take(kk)[a], len as nat)[b]);
                    assert(seqs.take(kk)[a] == seqs.take(kk + 1)[a]);
                    assert(raw_windows(seqs.take(kk + 1)[a], len as nat)[b] == raw_windows(seqs.take(kk)[a], len as nat)[b]);
                } else {
                    let b = choose|b: int| 0 <= b < batch@.len() && batch@[b]@ == w;
                    assert(raw_windows(seqs.take(kk + 1)[kk], len as nat)[b] == raw_windows(sequences@[kk]@, len as nat)[b]);
                }
            }
            assert(pool@ =~= after);
        }
        k = k + 1;
    }
    let r = pool.into_triggers(alphabet);
    proof {
        assert(seqs.take(sequences@.len() as int) =~= seqs);
        assert(text_set(r@) =~= trigger_set(seqs, len as nat, alphabet.letters()));
        assert forall|i: int| 0 <= i < r@.len() implies within(
            (#[trigger] r@[i])@,
            alphabet.letters(),
        ) by {
            assert(text_set(r@).contains(r@[i]@));
        }
    }
    r
}

/// The distinct windows gathered so far from any number of sequences.
pub struct TriggerPool {
    seen: ahash::AHashMap<String, usize>,
}

impl View for TriggerPool {
    type V = Set<Seq<char>>;

    closed spec fn view(&self) -> Set<Seq<char>> {
        entries_of(self.seen).dom()
    }
}

impl TriggerPool {
    /// An empty pool.
    pub fn new() -> (r: TriggerPool)
        ensures
            r@ == Set::<Seq<char>>::empty(),
    {
        let r = TriggerPool { seen: map_new() };
        assert(r@ =~= Set::<Seq<char>>::empty());
        r
    }

    /// Adds every window of `windows`; one already present is kept once.
    pub fn add_windows(&mut self, windows: &Vec<String>)
        ensures
            final(self)@ == old(self)@ + text_set(windows@),
    {
        let n = windows.len();
        let mut i: usize = 0;
        while i < n
            invariant
                n == windows@.len(),
                i <= n,
                self@ == old(self)@ + text_set(windows@.take(i as int)),
            decreases n - i,
        {
            let w = windows[i].clone();
            map_insert(&mut self.seen, w, 0);
            proof {
                lemma_text_set_take_step(windows@, i as int);
                assert(self@ =~= old(self)@ + text_set(windows@.take(i + 1)));
            }
            i = i + 1;
        }
        assert(windows@.take(n as int) =~= windows@);
    }

    /// The distinct windows of the pool whose characters all belong to
    /// `alphabet`, each once, in no particular order.
    pub fn into_triggers(self, alphabet: Alphabet) -> (r: Vec<String>)
        ensures
            distinct_texts(r@),
            text_set(r@) == self@.filter(|w: Seq<char>| within(w, alphabet.letters())),
    {
        let letters = alphabet.chars();
        let keys = map_keys(&self.seen);
        let flags = outside_flags(&letters, &keys);
        let ghost allowed = self@.filter(|w: Seq<char>| within(w, alphabet.letters()));
        let mut out: Vec<String> = Vec::new();
        let ghost mut origin: Seq<int> = Seq::empty();
        let mut i: usize = 0;
        while i < keys.len()
            invariant
                flags@.len() == keys@.len(),
                letters@ == alphabet.letters(),
                forall|j: int| 0 <= j < keys@.len() ==> flags@[j] == !within(#[trigger] keys@[j]@, letters@),
                distinct_texts(keys@),
                text_set(keys@) == self@,
                allowed == self@.filter(|w: Seq<char>| within(w, alphabet.letters())),
                i <= keys@.len(),
                origin.len() == out@.len(),
                forall|k: int| 0 <= k < out@.len() ==> 0 <= #[trigger] origin[k] < i,
                forall|k: int| 0 <= k < out@.len() ==> (#[trigger] out@[k])@ == keys@[origin[k]]@,
                forall|k: int| 0 <= k < out@.len() ==> within(keys@[#[trigger] origin[k]]@, letters@),
                forall|k1: int, k2: int| 0 <= k1 < k2 < out@.len() ==> origin[k1] < origin[k2],
                forall|j: int| 0 <= j < i && within(#[trigger] keys@[j]@, letters@) ==> exists|k: int| 0 <= k < out@.len() && origin[k] == j,
            decreases keys.len() - i,
        {
            let ghost origin0 = origin;
            let ghost len0 = out@.len();
            if !flags[i] {
                out.push(keys[i].clone());
                proof {
                    origin = origin.push(i as int);
                }
            }
            proof {
                assert forall|j: int| 0 <= j < i + 1 && within(#[trigger] keys@[j]@, letters@) implies exists|k: int| 0 <= k < out@.len() && origin[k] == j by {
                    if j == i {
                        assert(origin[out@.len() - 1] == j);
                    } else {
                        let k = choose|k: int| 0 <= k < len0 && origin0[k] == j;
                        assert(origin[k] == origin0[k]);
                    }
                }
            }
            i = i + 1;
        }
        proof {
            assert forall|k1: int, k2: int| 0 <= k1 < out@.len() && 0 <= k2 < out@.len() && k1 != k2 implies out@[k1]@ != out@[k2]@ by {
                if k1 < k2 {
                    assert(origin[k1] < origin[k2]);
                } else {
                    assert(origin[k2] < origin[k1]);
                }
            }
            assert(distinct_texts(out@));
        }
        proof {
            assert forall|t: Seq<char>| text_set(out@).contains(t) <==> allowed.contains(t) by {
                if text_set(out@).contains(t) {
                    let k = choose|k: int| 0 <= k < out@.len() && out@[k]@ == t;
                    let j = choose|j: int| 0 <= j < keys@.len() && (#[trigger] out@[k])@ == keys@[j]@ && within(keys@[j]@, letters@);
                    assert(text_set(keys@).contains(t));
                }
                if allowed.contains(t) {
                    assert(text_set(keys@).contains(t));
                    let j = choose|j: int| 0 <= j < keys@.len() && keys@[j]@ == t;
                    let k = choose|k: int| 0 <= k < out@.len() && origin[k] == j;
                    assert(out@[k]@ == t);
                }
            }
            assert(text_set(out@) =~= allowed);
        }
        out
    }
}

} // verus!
