//! Instruction storage with deduplication and ranking.

use vstd::prelude::*;
use crate::ratio::Ratio;
use crate::sort::{
    insert_desc, insert_pos, is_desc, key_is, lemma_kept_outrank_dropped, lemma_sort_desc,
    lemma_sort_desc_stable, sort_desc,
};
use crate::text::chars_of_string;
use crate::time::Timestamp;
use crate::tracker::{lemma_overlap_symmetric, overlap_ratio, text_overlap};

verus! {

/// A learned instruction derived from user edit patterns.
#[derive(Debug)]
pub struct LearnedInstruction {
    /// The instruction text (e.g., "Never start with I think").
    pub text: String,
    /// How many times this instruction has been reinforced by edits.
    pub source_count: u32,
    /// When this instruction was first added.
    pub added: Timestamp,
}

impl Clone for LearnedInstruction {
    fn clone(&self) -> (res: Self)
        ensures
            res == *self,
    {
        LearnedInstruction { text: self.text.clone(), source_count: self.source_count, added: self.added }
    }
}

/// An instruction as plain values: text, reinforcement count, time added.
pub type InstrView = (Seq<char>, nat, Timestamp);

/// The plain values of an instruction.
pub open spec fn instr_view(i: LearnedInstruction) -> InstrView {
    (i.text@, i.source_count as nat, i.added)
}

/// The plain values of instructions.
pub open spec fn instr_views(v: Seq<LearnedInstruction>) -> Seq<InstrView> {
    v.map_values(|i: LearnedInstruction| instr_view(i))
}

/// Listing ranks by reinforcement count.
pub open spec fn count_key() -> spec_fn(InstrView) -> int {
    |e: InstrView| e.1 as int
}

/// Two texts are duplicates when their word overlap exceeds `bp` basis points.
pub open spec fn similar(a: Seq<char>, b: Seq<char>, bp: nat) -> bool {
    let r = overlap_ratio(a, b);
    r.num * 10000 > bp * r.den
}

/// Index of the first stored instruction that `text` duplicates.
pub open spec fn first_similar(list: Seq<InstrView>, text: Seq<char>, bp: nat) -> Option<nat>
    decreases list.len(),
{
    if list.len() == 0 {
        None
    } else if similar(text, list[0].0, bp) {
        Some(0)
    } else {
        match first_similar(list.drop_first(), text, bp) {
            Some(i) => Some(i + 1),
            None => None,
        }
    }
}

/// The store after adding `x`: a duplicate is reinforced by `x`'s count; otherwise `x` is
/// appended and, beyond `max`, the oldest are dropped (first in, first out) so that the
/// newest `max` remain.
pub open spec fn with_added(list: Seq<InstrView>, x: InstrView, max: nat, bp: nat) -> Seq<InstrView> {
    match first_similar(list, x.0, bp) {
        Some(i) => list.update(i as int, (list[i as int].0, list[i as int].1 + x.1, list[i as int].2)),
        None => {
            let l = list.push(x);
            if l.len() > max {
                l.subrange(l.len() - max, l.len() as int)
            } else {
                l
            }
        },
    }
}

/// The `n` most reinforced instructions (fewer if the store holds fewer), ties in
/// storage order.
pub open spec fn top_n(list: Seq<InstrView>, n: nat) -> Seq<InstrView> {
    let s = sort_desc(list, count_key());
    s.subrange(0, if n < s.len() { n as int } else { s.len() as int })
}

/// Deduplicated, ranked store of learned instructions.
pub struct InstructionStore {
    instructions: Vec<LearnedInstruction>,
    max_size: usize,
    dedup_threshold_bp: u64,
}

proof fn lemma_first_similar(list: Seq<InstrView>, text: Seq<char>, bp: nat, i: int)
    requires
        0 <= i <= list.len(),
        forall|t: int| 0 <= t < i ==> !similar(text, #[trigger] list[t].0, bp),
    ensures
        i < list.len() && similar(text, list[i].0, bp) ==> first_similar(list, text, bp) == Some(i as nat),
        i == list.len() ==> first_similar(list, text, bp) is None,
    decreases i,
{
    if i > 0 {
        assert forall|t: int| 0 <= t < i - 1 implies !similar(text, #[trigger] list.drop_first()[t].0, bp) by {
            assert(list.drop_first()[t] == list[t + 1]);
        }
        lemma_first_similar(list.drop_first(), text, bp, i - 1);
        if i < list.len() {
            assert(list.drop_first()[i - 1] == list[i]);
        }
    }
}

impl InstructionStore {
    /// The stored instructions, in storage order.
    pub closed spec fn items(&self) -> Seq<LearnedInstruction> {
        self.instructions@
    }

    /// The capacity the store was made with.
    pub closed spec fn capacity(&self) -> nat {
        self.max_size as nat
    }

    /// The deduplication threshold, in basis points of word overlap.
    pub closed spec fn threshold_bp(&self) -> nat {
        self.dedup_threshold_bp as nat
    }

    /// Create a new store with maximum capacity and deduplication threshold.
    ///
    /// - `max_size`: maximum instructions to keep (FIFO: the oldest are dropped).
    /// - `dedup_threshold_bp`: word overlap threshold in basis points (10_000 = 1.0).
    ///   Instructions with overlap above this are considered duplicates.
    pub fn new(max_size: usize, dedup_threshold_bp: u64) -> (s: Self)
        ensures
            s.items().len() == 0,
            s.capacity() == max_size,
            s.threshold_bp() == dedup_threshold_bp,
    {
        InstructionStore { instructions: Vec::new(), max_size, dedup_threshold_bp }
    }

    /// Add an instruction, deduplicating against existing ones.
    ///
    /// If a similar instruction exists (word overlap above the threshold), its
    /// `source_count` grows by the new one's count instead of adding a duplicate.
    /// Otherwise the instruction is appended; beyond capacity, the oldest instructions are
    /// dropped (first in, first out).
    pub fn add(&mut self, instruction: LearnedInstruction)
        requires
            (match first_similar(instr_views(old(self).items()), instruction.text@, old(self).threshold_bp()) {
                Some(i) => old(self).items()[i as int].source_count + instruction.source_count <= u32::MAX,
                None => true,
            }),
        ensures
            instr_views(final(self).items()) == with_added(
                instr_views(old(self).items()),
                instr_view(instruction),
                old(self).capacity(),
                old(self).threshold_bp(),
            ),
            final(self).capacity() == old(self).capacity(),
            final(self).threshold_bp() == old(self).threshold_bp(),
            old(self).items().len() <= old(self).capacity() ==> final(self).items().len() <= final(self).capacity(),
    {
        let ghost list = instr_views(self.instructions@);
        let bp = self.dedup_threshold_bp;
        let new_text = chars_of_string(&instruction.text);
        let mut i: usize = 0;
        while i < self.instructions.len()
            invariant
                i <= self.instructions@.len(),
                list == instr_views(self.instructions@),
                self.instructions@ == old(self).instructions@,
                self.max_size == old(self).max_size,
                self.dedup_threshold_bp == old(self).dedup_threshold_bp,
                new_text@ == instruction.text@,
                (match first_similar(instr_views(old(self).items()), instruction.text@, old(self).threshold_bp()) {
                    Some(j) => old(self).items()[j as int].source_count + instruction.source_count <= u32::MAX,
                    None => true,
                }),
                bp == self.dedup_threshold_bp,
                forall|t: int| 0 <= t < i ==> !similar(instruction.text@, #[trigger] list[t].0, bp as nat),
            decreases self.instructions@.len() - i,
        {
            let existing = chars_of_string(&self.instructions[i].text);
            let r = text_overlap(new_text.as_slice(), existing.as_slice());
            let a = r.den;
            let b = bp as u128;
            assert(r.num <= a);
            assert(a * b <= 0x1_0000_0000_0000_0000u128 * 0xffff_ffff_ffff_ffffu128) by (nonlinear_arith)
                requires
                    a <= 0x1_0000_0000_0000_0000u128,
                    b <= 0xffff_ffff_ffff_ffffu128,
            ;
            if r.num * 10000 > b * a {
                proof {
                    lemma_first_similar(list, instruction.text@, bp as nat, i as int);
                }
                assert(first_similar(instr_views(old(self).items()), instruction.text@, old(self).threshold_bp()) == Some(i as nat));
                assert(old(self).items()[i as int].source_count + instruction.source_count <= u32::MAX);
                let mut e = self.instructions.remove(i);
                e.source_count = e.source_count + instruction.source_count;
                self.instructions.insert(i, e);
                assert(instr_views(self.instructions@) =~= list.update(
                    i as int,
                    (list[i as int].0, list[i as int].1 + instruction.source_count as nat, list[i as int].2),
                ));
                return;
            }
            i += 1;
        }
        proof {
            lemma_first_similar(list, instruction.text@, bp as nat, i as int);
        }
        let ghost xv = instr_view(instruction);
        self.instructions.push(instruction);
        assert(instr_views(self.instructions@) =~= list.push(xv));
        if self.instructions.len() > self.max_size {
            let drop = self.instructions.len() - self.max_size;
            let mut kept: Vec<LearnedInstruction> = Vec::new();
            let mut j: usize = drop;
            let ghost l = instr_views(self.instructions@);
            while j < self.instructions.len()
                invariant
                    drop <= j <= self.instructions@.len(),
                    l == instr_views(self.instructions@),
                    instr_views(kept@) == l.subrange(drop as int, j as int),
                decreases self.instructions@.len() - j,
            {
                let ghost k0 = instr_views(kept@);
                let e = self.instructions[j].clone();
                kept.push(e);
                assert(instr_views(kept@) =~= k0.push(l[j as int]));
                assert(l.subrange(drop as int, j + 1) =~= l.subrange(drop as int, j as int).push(l[j as int]));
                j += 1;
            }
            self.instructions = kept;
            assert(instr_views(self.instructions@) =~= list.push(xv).subrange(
                list.push(xv).len() - self.max_size,
                list.push(xv).len() as int,
            ));
        }
    }

    /// The top `n` instructions, ranked by reinforcement count.
    pub fn top(&self, n: usize) -> (res: Vec<&LearnedInstruction>)
        ensures
            res@.map_values(|i: &LearnedInstruction| instr_view(*i)) == top_n(instr_views(self.items()), n as nat),
    {
        let ghost ev = instr_views(self.instructions@);
        let total = self.instructions.len();
        let mut out: Vec<&LearnedInstruction> = Vec::new();
        let mut i: usize = 0;
        assert(ev.subrange(0, 0) =~= Seq::<InstrView>::empty());
        while i < total
            invariant
                i <= total,
                total == ev.len(),
                ev == instr_views(self.instructions@),
                out@.map_values(|r: &LearnedInstruction| instr_view(*r)) == sort_desc(ev.subrange(0, i as int), count_key()),
            decreases total - i,
        {
            let x = &self.instructions[i];
            let ghost s = out@.map_values(|r: &LearnedInstruction| instr_view(*r));
            let mut p: usize = 0;
            assert(s.subrange(0, s.len() as int) =~= s);
            while p < out.len() && out[p].source_count >= x.source_count
                invariant
                    p <= out@.len(),
                    s == out@.map_values(|r: &LearnedInstruction| instr_view(*r)),
                    insert_pos(s, instr_view(*x), count_key()) == p + insert_pos(
                        s.subrange(p as int, s.len() as int),
                        instr_view(*x),
                        count_key(),
                    ),
                decreases out@.len() - p,
            {
                assert(s.subrange(p as int, s.len() as int).drop_first() =~= s.subrange(
                    p + 1,
                    s.len() as int,
                ));
                p += 1;
            }
            assert(insert_pos(s, instr_view(*x), count_key()) == p) by {
                if p < out@.len() {
                    assert(s.subrange(p as int, s.len() as int)[0] == s[p as int]);
                }
            }
            out.insert(p, x);
            assert(ev[i as int] == instr_view(*x));
            assert(ev.subrange(0, i + 1).drop_last() =~= ev.subrange(0, i as int));
            assert(out@.map_values(|r: &LearnedInstruction| instr_view(*r)) =~= insert_desc(s, instr_view(*x), count_key()));
            i += 1;
        }
        assert(ev.subrange(0, total as int) =~= ev);
        proof {
            lemma_sort_desc(ev, count_key());
        }
        out.truncate(n);
        assert(out@.map_values(|r: &LearnedInstruction| instr_view(*r)) =~= top_n(ev, n as nat));
        out
    }

    /// All instructions, in storage order.
    pub fn all(&self) -> (res: Vec<LearnedInstruction>)
        ensures
            res@ == self.items(),
    {
        let mut out: Vec<LearnedInstruction> = Vec::new();
        let mut i: usize = 0;
        while i < self.instructions.len()
            invariant
                i <= self.instructions@.len(),
                out@ == self.instructions@.subrange(0, i as int),
            decreases self.instructions@.len() - i,
        {
            out.push(self.instructions[i].clone());
            assert(out@ =~= self.instructions@.subrange(0, i + 1));
            i += 1;
        }
        assert(out@ =~= self.instructions@);
        out
    }

    /// Number of stored instructions.
    pub fn len(&self) -> (n: usize)
        ensures
            n == self.items().len(),
    {
        self.instructions.len()
    }

    /// Whether the store is empty.
    pub fn is_empty(&self) -> (b: bool)
        ensures
            b == (self.items().len() == 0),
    {
        self.instructions.is_empty()
    }
}

proof fn lemma_first_similar_is_first(list: Seq<InstrView>, text: Seq<char>, bp: nat)
    ensures
        first_similar(list, text, bp) matches Some(i) ==> forall|j: int| 0 <= j < i ==> !similar(
            text,
            #[trigger] list[j].0,
            bp,
        ),
    decreases list.len(),
{
    lemma_similar_found(list, text, bp);
    if list.len() > 0 && !similar(text, list[0].0, bp) {
        lemma_similar_found(list.drop_first(), text, bp);
        lemma_first_similar_is_first(list.drop_first(), text, bp);
        if let Some(i) = first_similar(list, text, bp) {
            assert forall|j: int| 0 <= j < i implies !similar(text, #[trigger] list[j].0, bp) by {
                if j > 0 {
                    assert(list[j] == list.drop_first()[j - 1]);
                }
            }
        }
    }
}

/// Adding an instruction that duplicates a stored one (the first whose word overlap with
/// it exceeds the threshold) changes only that one: the store keeps its length, texts and
/// times, and the duplicate's count grows by exactly the new instruction's count. An
/// instruction that duplicates none is stored last, when the store can hold anything.
pub proof fn lemma_add_reinforces_duplicate(list: Seq<InstrView>, x: InstrView, max: nat, bp: nat)
    ensures
        first_similar(list, x.0, bp) matches Some(i) ==> {
            let r = with_added(list, x, max, bp);
            &&& i < list.len()
            &&& similar(x.0, list[i as int].0, bp)
            &&& forall|j: int| 0 <= j < i ==> !similar(x.0, #[trigger] list[j].0, bp)
            &&& r.len() == list.len()
            &&& r[i as int].0 == list[i as int].0
            &&& r[i as int].1 == list[i as int].1 + x.1
            &&& r[i as int].2 == list[i as int].2
            &&& forall|j: int| 0 <= j < list.len() && j != i ==> #[trigger] r[j] == list[j]
        },
        first_similar(list, x.0, bp) is None ==> {
            let r = with_added(list, x, max, bp);
            &&& forall|j: int| 0 <= j < list.len() ==> !similar(x.0, #[trigger] list[j].0, bp)
            &&& r.len() == if list.len() + 1 > max { max } else { list.len() + 1 }
            &&& max > 0 ==> r[r.len() - 1] == x
        },
{
    lemma_similar_found(list, x.0, bp);
    lemma_first_similar_is_first(list, x.0, bp);
    if first_similar(list, x.0, bp) is None {
        lemma_no_similar_found(list, x.0, bp);
    }
}

/// When a new instruction overflows the store, the oldest are dropped: the store keeps
/// the newest `max` instructions, in the order they were added, ending with the new one.
pub proof fn lemma_cap_drops_oldest(list: Seq<InstrView>, x: InstrView, max: nat, bp: nat)
    requires
        first_similar(list, x.0, bp) is None,
        list.len() + 1 > max,
    ensures
        with_added(list, x, max, bp).len() == max,
        with_added(list, x, max, bp) == list.push(x).subrange(list.len() + 1 - max, (list.len() + 1) as int),
        max > 0 ==> with_added(list, x, max, bp).last() == x,
{
}

/// The top `n` hold `n` instructions (all, when there are fewer), most reinforced first,
/// and no instruction left out is reinforced more often than one listed.
pub proof fn lemma_top_ranked(list: Seq<InstrView>, n: nat)
    ensures
        top_n(list, n).len() == if n < list.len() { n } else { list.len() },
        is_desc(top_n(list, n), count_key()),
        exists|rest: Seq<InstrView>|
            {
                &&& #[trigger] top_n(list, n).to_multiset().add(rest.to_multiset()) == list.to_multiset()
                &&& forall|i: int, j: int|
                    0 <= i < top_n(list, n).len() && 0 <= j < rest.len() ==> top_n(list, n)[i].1 >= rest[j].1
            },
{
    lemma_sort_desc(list, count_key());
    let k: int = if n < list.len() { n as int } else { list.len() as int };
    lemma_kept_outrank_dropped(list, count_key(), k);
    let rest = sort_desc(list, count_key()).subrange(k, list.len() as int);
    let top = top_n(list, n);
    assert forall|i: int, j: int| 0 <= i < top.len() && 0 <= j < rest.len() implies top[i].1 >= rest[j].1 by {
        assert(count_key()(top[i]) >= count_key()(rest[j]));
    }
    assert(top.to_multiset().add(rest.to_multiset()) == list.to_multiset());
}

/// No two stored instructions are duplicates of each other.
pub open spec fn no_duplicates(list: Seq<InstrView>, bp: nat) -> bool {
    forall|i: int, j: int|
        0 <= i < list.len() && 0 <= j < list.len() && i != j ==> !similar(
            #[trigger] list[i].0,
            #[trigger] list[j].0,
            bp,
        )
}

/// The top `n` keep instructions of equal count in storage order: for every count, the
/// listed instructions with that count are the first ones stored with it.
pub proof fn lemma_top_keeps_storage_order(list: Seq<InstrView>, n: nat, c: int)
    ensures
        ({
            let listed = top_n(list, n).filter(key_is(count_key(), c));
            listed == list.filter(key_is(count_key(), c)).subrange(0, listed.len() as int)
        }),
{
    let pred = key_is(count_key(), c);
    let sorted = sort_desc(list, count_key());
    lemma_sort_desc(list, count_key());
    lemma_sort_desc_stable(list, count_key(), c);
    let k: int = if n < sorted.len() { n as int } else { sorted.len() as int };
    let top = sorted.subrange(0, k);
    let rest = sorted.subrange(k, sorted.len() as int);
    assert(sorted =~= top + rest);
    Seq::filter_distributes_over_add(top, rest, pred);
    assert(top == top_n(list, n));
    assert(top.filter(pred) =~= (top.filter(pred) + rest.filter(pred)).subrange(0, top.filter(pred).len() as int));
}

/// Whether two texts are duplicates does not depend on which comes first.
pub proof fn lemma_similar_symmetric(a: Seq<char>, b: Seq<char>, bp: nat)
    ensures
        similar(a, b, bp) == similar(b, a, bp),
{
    lemma_overlap_symmetric(a, b);
}

proof fn lemma_no_similar_found(list: Seq<InstrView>, text: Seq<char>, bp: nat)
    requires
        first_similar(list, text, bp) is None,
    ensures
        forall|t: int| 0 <= t < list.len() ==> !similar(text, #[trigger] list[t].0, bp),
    decreases list.len(),
{
    if list.len() > 0 {
        lemma_no_similar_found(list.drop_first(), text, bp);
        assert forall|t: int| 0 <= t < list.len() implies !similar(text, #[trigger] list[t].0, bp) by {
            if t > 0 {
                assert(list[t] == list.drop_first()[t - 1]);
            }
        }
    }
}

proof fn lemma_similar_found(list: Seq<InstrView>, text: Seq<char>, bp: nat)
    ensures
        first_similar(list, text, bp) matches Some(i) ==> i < list.len() && similar(text, list[i as int].0, bp),
    decreases list.len(),
{
    if list.len() > 0 && !similar(text, list[0].0, bp) {
        lemma_similar_found(list.drop_first(), text, bp);
    }
}

/// Adding an instruction keeps the store free of duplicates: a store never holds two
/// instructions whose word overlap is above the threshold.
pub proof fn lemma_add_keeps_no_duplicates(list: Seq<InstrView>, x: InstrView, max: nat, bp: nat)
    requires
        no_duplicates(list, bp),
    ensures
        no_duplicates(with_added(list, x, max, bp), bp),
{
    let r = with_added(list, x, max, bp);
    match first_similar(list, x.0, bp) {
        Some(i) => {
            lemma_similar_found(list, x.0, bp);
            assert forall|a: int, b: int| 0 <= a < r.len() && 0 <= b < r.len() && a != b implies !similar(
                #[trigger] r[a].0,
                #[trigger] r[b].0,
                bp,
            ) by {
                assert(r[a].0 == list[a].0);
                assert(r[b].0 == list[b].0);
            }
        },
        None => {
            let l = list.push(x);
            lemma_no_similar_found(list, x.0, bp);
            assert forall|a: int, b: int| 0 <= a < l.len() && 0 <= b < l.len() && a != b implies !similar(
                #[trigger] l[a].0,
                #[trigger] l[b].0,
                bp,
            ) by {
                if a == list.len() {
                    assert(!similar(x.0, list[b].0, bp));
                } else if b == list.len() {
                    assert(!similar(x.0, list[a].0, bp));
                    lemma_similar_symmetric(x.0, list[a].0, bp);
                } else {
                    assert(l[a] == list[a]);
                    assert(l[b] == list[b]);
                }
            }
            if l.len() > max {
                let d = l.len() - max;
                assert forall|a: int, b: int| 0 <= a < r.len() && 0 <= b < r.len() && a != b implies !similar(
                    #[trigger] r[a].0,
                    #[trigger] r[b].0,
                    bp,
                ) by {
                    assert(r[a] == l[a + d]);
                    assert(r[b] == l[b + d]);
                }
            }
        },
    }
}

} // verus!
