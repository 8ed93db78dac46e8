//! Coverage counting: for each trigger, how many library sequences hold it
//! at least once.

use vstd::prelude::*;
use crate::tally::{
    distinct_texts, entries_of, lemma_text_set_take_step, map_get, map_insert, map_keys, map_new,
    text_set,
};
use crate::text::{contains_text, occurs_in, texts, upper, upper_of};

verus! {

/// 1 when `trigger` occurs in the upper-cased `genome`, else 0.
pub open spec fn hit(trigger: Seq<char>, genome: Seq<char>) -> nat {
    if occurs_in(trigger, upper_of(genome)) {
        1
    } else {
        0
    }
}

/// The number of sequences of `library` in which `trigger` occurs once
/// upper-cased.
pub open spec fn presence_count(library: Seq<Seq<char>>, trigger: Seq<char>) -> nat
    decreases library.len(),
{
    if library.len() == 0 {
        0
    } else {
        presence_count(library.drop_last(), trigger) + hit(trigger, library.last())
    }
}

/// A trigger is never counted in more sequences than the library holds.
pub proof fn lemma_presence_at_most_total(library: Seq<Seq<char>>, trigger: Seq<char>)
    ensures
        presence_count(library, trigger) <= library.len(),
    decreases library.len(),
{
    if library.len() > 0 {
        lemma_presence_at_most_total(library.drop_last(), trigger);
    }
}

/// One more sequence adds exactly 1 to a trigger's count when the trigger
/// occurs in it, however many times, and 0 otherwise.
pub proof fn lemma_presence_step(library: Seq<Seq<char>>, genome: Seq<char>, trigger: Seq<char>)
    ensures
        occurs_in(trigger, upper_of(genome)) ==> presence_count(library.push(genome), trigger)
            == presence_count(library, trigger) + 1,
        !occurs_in(trigger, upper_of(genome)) ==> presence_count(library.push(genome), trigger)
            == presence_count(library, trigger),
{
    assert(library.push(genome).drop_last() =~= library);
}

/// Running counts of trigger presence over the library sequences seen so far.
pub struct Coverage {
    counts: ahash::AHashMap<String, usize>,
    total: usize,
}

impl Coverage {
    /// Per trigger text, the number of sequences seen that hold it.
    pub closed spec fn counts(&self) -> Map<Seq<char>, usize> {
        entries_of(self.counts)
    }

    /// The number of library sequences seen.
    pub closed spec fn total(&self) -> nat {
        self.total as nat
    }

    /// No count exceeds the number of sequences seen.
    pub open spec fn wf(&self) -> bool {
        forall|t: Seq<char>| #[trigger] self.counts().contains_key(t) ==> self.counts()[t] <= self.total()
    }

    /// Counts for the given triggers, all 0, with no sequence seen.
    pub fn new(triggers: &Vec<String>) -> (r: Coverage)
        ensures
            r.wf(),
            r.total() == 0,
            r.counts().dom() == text_set(triggers@),
            forall|t: Seq<char>| #[trigger] r.counts().contains_key(t) ==> r.counts()[t] == 0,
    {
        let mut counts = map_new();
        let mut i: usize = 0;
        while i < triggers.len()
            invariant
                i <= triggers@.len(),
                entries_of(counts).dom() == text_set(triggers@.take(i as int)),
                forall|t: Seq<char>| #[trigger] entries_of(counts).contains_key(t) ==> entries_of(counts)[t] == 0,
            decreases triggers.len() - i,
        {
            map_insert(&mut counts, triggers[i].clone(), 0);
            proof {
                lemma_text_set_take_step(triggers@, i as int);
                assert(entries_of(counts).dom() =~= text_set(triggers@.take(i + 1)));
            }
            i = i + 1;
        }
        assert(triggers@.take(triggers@.len() as int) =~= triggers@);
        Coverage { counts, total: 0 }
    }

    /// Takes one library sequence into account: the number of sequences seen
    /// grows by 1, and each trigger's count by 1 when the trigger occurs in
    /// the upper-cased sequence, by 0 otherwise.
    pub fn tabulate(&mut self, genome: &str)
        requires
            old(self).wf(),
            old(self).total() < usize::MAX,
        ensures
            final(self).wf(),
            final(self).total() == old(self).total() + 1,
            final(self).counts().dom() == old(self).counts().dom(),
            forall|t: Seq<char>|
                #[trigger] final(self).counts().contains_key(t) ==> final(self).counts()[t]
                    == old(self).counts()[t] + hit(t, genome@),
    {
        let g = upper(genome);
        let keys = map_keys(&self.counts);
        let ghost start = entries_of(self.counts);
        let ghost total0 = self.total;
        assert forall|t: Seq<char>| #[trigger] start.contains_key(t) implies start[t] <= self.total by {
            assert(self.counts().contains_key(t));
        }
        let mut i: usize = 0;
        while i < keys.len()
            invariant
                self.total < usize::MAX,
                self.total == total0,
                total0 == old(self).total,
                start == old(self).counts(),
                g@ == upper_of(genome@),
                distinct_texts(keys@),
                text_set(keys@) == start.dom(),
                forall|t: Seq<char>| #[trigger] start.contains_key(t) ==> start[t] <= self.total,
                i <= keys@.len(),
                entries_of(self.counts).dom() == start.dom(),
                forall|j: int|
                    0 <= j < keys@.len() ==> entries_of(self.counts)[#[trigger] keys@[j]@] == start[keys@[j]@]
                        + (if j < i { hit(keys@[j]@, genome@) } else { 0 }),
            decreases keys.len() - i,
        {
            let ghost cur = entries_of(self.counts);
            let key = &keys[i];
            assert(text_set(keys@).contains(keys@[i as int]@));
            if contains_text(g.as_str(), key.as_str()) {
                match map_get(&self.counts, key.as_str()) {
                    Some(c) => {
                        map_insert(&mut self.counts, key.clone(), c + 1);
                    },
                    None => {},
                }
            }
            proof {
                assert(entries_of(self.counts).dom() =~= start.dom());
                assert forall|j: int| 0 <= j < keys@.len() implies entries_of(self.counts)[#[trigger] keys@[j]@]
                    == start[keys@[j]@] + (if j < i + 1 { hit(keys@[j]@, genome@) } else { 0 }) by {
                    if j != i {
                        assert(keys@[j]@ != keys@[i as int]@);
                        assert(entries_of(self.counts)[keys@[j]@] == cur[keys@[j]@]);
                    }
                }
            }
            i = i + 1;
        }
        self.total = self.total + 1;
        proof {
            assert forall|t: Seq<char>| #[trigger] self.counts().contains_key(t) implies self.counts()[t]
                == start[t] + hit(t, genome@) by {
                assert(text_set(keys@).contains(t));
                let j = choose|j: int| 0 <= j < keys@.len() && keys@[j]@ == t;
            }
        }
    }

    /// The number of sequences seen, and each trigger with its count, every
    /// trigger once, in no particular order.
    pub fn into_counts(self) -> (r: (usize, Vec<(String, usize)>))
        ensures
            r.0 == self.total(),
            forall|i: int, j: int|
                0 <= i < r.1@.len() && 0 <= j < r.1@.len() && i != j ==> r.1@[i].0@ != r.1@[j].0@,
            forall|i: int|
                0 <= i < r.1@.len() ==> self.counts().contains_key((#[trigger] r.1@[i]).0@)
                    && r.1@[i].1 == self.counts()[r.1@[i].0@],
            forall|t: Seq<char>|
                #[trigger] self.counts().contains_key(t) ==> exists|i: int|
                    0 <= i < r.1@.len() && r.1@[i].0@ == t,
    {
        let keys = map_keys(&self.counts);
        let mut out: Vec<(String, usize)> = Vec::new();
        let mut i: usize = 0;
        while i < keys.len()
            invariant
                distinct_texts(keys@),
                text_set(keys@) == entries_of(self.counts).dom(),
                i <= keys@.len(),
                out@.len() == i,
                forall|k: int| 0 <= k < i ==> (#[trigger] out@[k]).0@ == keys@[k]@ && out@[k].1
                    == entries_of(self.counts)[keys@[k]@],
            decreases keys.len() - i,
        {
            assert(text_set(keys@).contains(keys@[i as int]@));
            let c = match map_get(&self.counts, keys[i].as_str()) {
                Some(c) => c,
                None => 0,
            };
            out.push((keys[i].clone(), c));
            i = i + 1;
        }
        proof {
            assert forall|t: Seq<char>| #[trigger] self.counts().contains_key(t) implies exists|i: int|
                0 <= i < out@.len() && out@[i].0@ == t by {
                assert(self.counts() == entries_of(self.counts));
                assert(text_set(keys@).contains(t));
                let j = choose|j: int| 0 <= j < keys@.len() && keys@[j]@ == t;
                assert(out@[j].0@ == t);
            }
        }
        let r = (self.total, out);
        assert(r.1@ == out@);
        r
    }
}

/// Counts, for each trigger, the library sequences that hold it at least
/// once (matched after upper-casing the sequence), together with the number
/// of library sequences.
pub fn check_coverage(trg_windows: Vec<String>, library: &Vec<String>) -> (r: (usize, Vec<(String, usize)>))
    ensures
        r.0 == library@.len(),
        forall|i: int, j: int|
            0 <= i < r.1@.len() && 0 <= j < r.1@.len() && i != j ==> r.1@[i].0@ != r.1@[j].0@,
        forall|i: int|
            0 <= i < r.1@.len() ==> text_set(trg_windows@).contains((#[trigger] r.1@[i]).0@)
                && r.1@[i].1 == presence_count(texts(library@), r.1@[i].0@)
                && r.1@[i].1 <= r.0,
        forall|t: Seq<char>|
            #[trigger] text_set(trg_windows@).contains(t) ==> exists|i: int|
                0 <= i < r.1@.len() && r.1@[i].0@ == t,
{
    let mut cov = Coverage::new(&trg_windows);
    let ghost lib = texts(library@);
    let mut k: usize = 0;
    while k < library.len()
        invariant
            lib == texts(library@),
            k <= library@.len(),
            cov.wf(),
            cov.total() == k,
            cov.counts().dom() == text_set(trg_windows@),
            forall|t: Seq<char>| #[trigger] cov.counts().contains_key(t) ==> cov.counts()[t] == presence_count(lib.take(k as int), t),
        decreases library.len() - k,
    {
        let ghost before = cov.counts();
        cov.tabulate(library[k].as_str());
        proof {
            let kk = k as int;
            assert(lib.take(kk + 1) =~= lib.take(kk).push(library@[kk]@));
            assert forall|t: Seq<char>| #[trigger] cov.counts().contains_key(t) implies cov.counts()[t] == presence_count(lib.take(kk + 1), t) by {
                lemma_presence_step(lib.take(kk), library@[kk]@, t);
            }
        }
        k = k + 1;
    }
    proof {
        assert(lib.take(library@.len() as int) =~= lib);
    }
    let r = cov.into_counts();
    r
}

} // verus!
