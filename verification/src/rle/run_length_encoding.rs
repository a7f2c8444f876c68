use super::encode_consecutive_runs::eq_reflects_equality;
use super::instruction::{spec_pack_pieces, spec_sum_unpacked, spec_unpack_length, RleInstruction};
use vstd::prelude::*;

verus! {

/// How many next-value markers a sequence of instructions holds; one per
/// encoded run.
pub open spec fn spec_count_markers(lengths: Seq<RleInstruction>) -> int
    decreases lengths.len(),
{
    if lengths.len() == 0 {
        0
    } else {
        spec_count_markers(lengths.drop_last()) + if lengths.last() is NextValue {
            1int
        } else {
            0int
        }
    }
}

/// The runs a run-length encoding stands for, read off its two columns
/// from the end: trailing run pieces accumulate into `acc` until a
/// next-value marker closes a run, consuming one stored value.
pub open spec fn spec_runs_acc<T>(
    values: Seq<T>,
    lengths: Seq<RleInstruction>,
    acc: int,
) -> Seq<(T, int)>
    decreases lengths.len(),
{
    if lengths.len() == 0 {
        Seq::empty()
    } else {
        match lengths.last() {
            RleInstruction::Run(v) => spec_runs_acc(
                values,
                lengths.drop_last(),
                acc + spec_unpack_length(v),
            ),
            RleInstruction::NextValue => spec_runs_acc(values.drop_last(), lengths.drop_last(), 0)
                .push((values.last(), acc)),
        }
    }
}

/// An encoding stands for exactly one run per next-value marker.
pub proof fn lemma_runs_count<T>(values: Seq<T>, lengths: Seq<RleInstruction>, acc: int)
    ensures
        spec_runs_acc(values, lengths, acc).len() == spec_count_markers(lengths),
    decreases lengths.len(),
{
    if lengths.len() > 0 {
        match lengths.last() {
            RleInstruction::Run(v) => {
                lemma_runs_count(values, lengths.drop_last(), acc + spec_unpack_length(v));
            },
            RleInstruction::NextValue => {
                lemma_runs_count(values.drop_last(), lengths.drop_last(), 0);
            },
        }
    }
}

/// An instruction stream that starts at a run boundary holds at least one
/// marker.
pub proof fn lemma_count_first_marker(lengths: Seq<RleInstruction>)
    requires
        lengths.len() > 0,
        lengths[0] is NextValue,
    ensures
        spec_count_markers(lengths) >= 1,
    decreases lengths.len(),
{
    if lengths.len() > 1 {
        assert(lengths.drop_last()[0] == lengths[0]);
        lemma_count_first_marker(lengths.drop_last());
    } else {
        assert(lengths.last() == lengths[0]);
        assert(spec_count_markers(lengths.drop_last()) == 0);
    }
}

/// The pieces already accumulated only ever grow the closing run, so the
/// last run's length is at least the accumulator.
pub proof fn lemma_last_run_at_least<T>(values: Seq<T>, lengths: Seq<RleInstruction>, acc: int)
    requires
        spec_count_markers(lengths) > 0,
    ensures
        spec_runs_acc(values, lengths, acc).len() > 0,
        spec_runs_acc(values, lengths, acc).last().1 >= acc,
    decreases lengths.len(),
{
    match lengths.last() {
        RleInstruction::Run(v) => {
            lemma_last_run_at_least(values, lengths.drop_last(), acc + spec_unpack_length(v));
        },
        RleInstruction::NextValue => {
            lemma_runs_count(values.drop_last(), lengths.drop_last(), 0);
        },
    }
}

/// The last run closes at the last stored value.
pub proof fn lemma_last_run_value<T>(values: Seq<T>, lengths: Seq<RleInstruction>, acc: int)
    requires
        spec_count_markers(lengths) > 0,
    ensures
        spec_runs_acc(values, lengths, acc).len() > 0,
        spec_runs_acc(values, lengths, acc).last().0 == values.last(),
    decreases lengths.len(),
{
    match lengths.last() {
        RleInstruction::Run(v) => {
            lemma_last_run_value(values, lengths.drop_last(), acc + spec_unpack_length(v));
        },
        RleInstruction::NextValue => {
            lemma_runs_count(values.drop_last(), lengths.drop_last(), 0);
        },
    }
}

/// Appending one value and the instruction group of one whole run appends
/// exactly that run to what an encoding stands for.
pub proof fn lemma_runs_extend<T>(
    values: Seq<T>,
    value: T,
    lengths: Seq<RleInstruction>,
    pieces: Seq<u8>,
    acc: int,
)
    ensures
        spec_runs_acc(
            values.push(value),
            lengths.push(RleInstruction::NextValue) + pieces.map_values(
                |v: u8| RleInstruction::Run(v),
            ),
            acc,
        ) == spec_runs_acc(values, lengths, 0).push((value, acc + spec_sum_unpacked(pieces))),
    decreases pieces.len(),
{
    let mapped = pieces.map_values(|v: u8| RleInstruction::Run(v));
    let whole = lengths.push(RleInstruction::NextValue) + mapped;
    if pieces.len() == 0 {
        assert(whole =~= lengths.push(RleInstruction::NextValue));
        assert(values.push(value).drop_last() =~= values);
        assert(lengths.push(RleInstruction::NextValue).drop_last() =~= lengths);
    } else {
        assert(whole.last() == RleInstruction::Run(pieces.last()));
        assert(whole.drop_last() =~= lengths.push(RleInstruction::NextValue)
            + pieces.drop_last().map_values(|v: u8| RleInstruction::Run(v)));
        lemma_runs_extend(
            values,
            value,
            lengths,
            pieces.drop_last(),
            acc + spec_unpack_length(pieces.last()),
        );
    }
}


/// `n` copies of one value.
pub open spec fn spec_repeat<T>(value: T, n: int) -> Seq<T>
    decreases n,
{
    if n <= 0 {
        Seq::empty()
    } else {
        spec_repeat(value, n - 1).push(value)
    }
}

/// The one-at-a-time values a sequence of runs stands for: each run's
/// value, repeated as often as the run is long.
pub open spec fn spec_run_values<T>(runs: Seq<(T, int)>) -> Seq<T>
    decreases runs.len(),
{
    if runs.len() == 0 {
        Seq::empty()
    } else {
        spec_run_values(runs.drop_last()) + spec_repeat(runs.last().0, runs.last().1)
    }
}

/// Repetition, element by element.
pub proof fn lemma_repeat_index<T>(value: T, n: int)
    requires
        n >= 0,
    ensures
        spec_repeat(value, n).len() == n,
        forall|k: int| 0 <= k < n ==> spec_repeat(value, n)[k] == value,
    decreases n,
{
    if n > 0 {
        lemma_repeat_index(value, n - 1);
    }
}

/// Repeating for a sum of counts is repeating for each in turn.
pub proof fn lemma_repeat_adds<T>(value: T, a: int, b: int)
    requires
        a >= 0,
        b >= 0,
    ensures
        spec_repeat(value, a + b) == spec_repeat(value, a) + spec_repeat(value, b),
    decreases b,
{
    if b == 0 {
        assert(spec_repeat(value, a) + spec_repeat(value, 0) =~= spec_repeat(value, a));
    } else {
        lemma_repeat_adds(value, a, b - 1);
        assert(spec_repeat(value, a) + spec_repeat(value, b) =~= (spec_repeat(value, a)
            + spec_repeat(value, b - 1)).push(value));
    }
}


/// One run appended to a run sequence: when its value matches the
/// trailing run's value the trailing run grows, otherwise a new run opens.
pub open spec fn spec_append_run<T>(runs: Seq<(T, int)>, value: T, n: int) -> Seq<(T, int)> {
    if runs.len() > 0 && runs.last().0 == value {
        runs.drop_last().push((value, runs.last().1 + n))
    } else {
        runs.push((value, n))
    }
}

/// The run sequence after appending a collection of items one at a time.
pub open spec fn spec_extend_runs<T>(runs: Seq<(T, int)>, items: Seq<T>) -> Seq<(T, int)>
    decreases items.len(),
{
    if items.len() == 0 {
        runs
    } else {
        spec_extend_runs(spec_append_run(runs, items[0], 1), items.skip(1))
    }
}

/// Appending a whole block of equal leading items at once lands where
/// appending them one at a time does.
pub proof fn lemma_extend_run_block<T>(runs: Seq<(T, int)>, items: Seq<T>, value: T, n: int)
    requires
        1 <= n <= items.len(),
        forall|k: int| 0 <= k < n ==> items[k] == value,
    ensures
        spec_extend_runs(runs, items) == spec_extend_runs(
            spec_append_run(runs, value, n),
            items.skip(n),
        ),
    decreases n,
{
    assert(items[0] == value);
    if n == 1 {
    } else {
        let once = spec_append_run(runs, value, 1);
        assert(items.skip(1).skip(n - 1) =~= items.skip(n));
        assert forall|k: int| 0 <= k < n - 1 implies items.skip(1)[k] == value by {
            assert(items.skip(1)[k] == items[k + 1]);
        }
        lemma_extend_run_block(once, items.skip(1), value, n - 1);
        if runs.len() > 0 && runs.last().0 == value {
            assert(once.drop_last() =~= runs.drop_last());
            assert(spec_append_run(once, value, n - 1) =~= spec_append_run(runs, value, n));
        } else {
            assert(once.drop_last() =~= runs);
            assert(spec_append_run(once, value, n - 1) =~= spec_append_run(runs, value, n));
        }
    }
}

/// Every run an encoding stands for has a length no shorter than what has
/// accumulated so far; with nothing accumulated, no length is negative.
pub proof fn lemma_runs_nonneg<T>(values: Seq<T>, lengths: Seq<RleInstruction>, acc: int)
    requires
        acc >= 0,
    ensures
        forall|k: int|
            0 <= k < spec_runs_acc(values, lengths, acc).len() ==> (#[trigger] spec_runs_acc(
                values,
                lengths,
                acc,
            )[k]).1 >= 0,
    decreases lengths.len(),
{
    if lengths.len() > 0 {
        let whole = spec_runs_acc(values, lengths, acc);
        match lengths.last() {
            RleInstruction::Run(v) => {
                lemma_runs_nonneg(values, lengths.drop_last(), acc + spec_unpack_length(v));
                let rec = spec_runs_acc(values, lengths.drop_last(), acc + spec_unpack_length(v));
                assert forall|k: int| 0 <= k < whole.len() implies (#[trigger] whole[k]).1
                    >= 0 by {
                    assert(whole[k] == rec[k]);
                    assert(rec[k].1 >= 0);
                }
            },
            RleInstruction::NextValue => {
                lemma_runs_nonneg(values.drop_last(), lengths.drop_last(), 0);
                let rec = spec_runs_acc(values.drop_last(), lengths.drop_last(), 0);
                assert forall|k: int| 0 <= k < whole.len() implies (#[trigger] whole[k]).1
                    >= 0 by {
                    if k < rec.len() {
                        assert(whole[k] == rec[k]);
                        assert(rec[k].1 >= 0);
                    } else {
                        assert(whole[k] == (values.last(), acc));
                    }
                }
            },
        }
    }
}

/// A run-length-encoded vector: each maximal run of equal values is held
/// once, as its value in one column and its packed length in the other, so
/// a run of astronomic length costs a handful of bytes.
pub struct Rle<T> {
    values: Vec<T>,
    lengths: Vec<RleInstruction>,
}

impl<T> Rle<T> {
    /// The values column: one entry per run, in run order.
    pub closed spec fn spec_values(&self) -> Seq<T> {
        self.values@
    }

    /// The lengths column: the instruction stream of all runs, in order.
    pub closed spec fn spec_lengths(&self) -> Seq<RleInstruction> {
        self.lengths@
    }

    /// The invariant of an encoding: the instruction stream starts at a
    /// run boundary, holds one marker per stored value, and packs no empty
    /// piece.
    pub open spec fn wf(&self) -> bool {
        &&& self.spec_lengths().len() > 0 ==> self.spec_lengths()[0] is NextValue
        &&& spec_count_markers(self.spec_lengths()) == self.spec_values().len()
        &&& forall|k: int|
            0 <= k < self.spec_lengths().len() ==> (#[trigger] self.spec_lengths()[k]).spec_valid()
    }

    /// The runs this encoding stands for, each a value with its length.
    pub open spec fn runs(&self) -> Seq<(T, int)> {
        spec_runs_acc(self.spec_values(), self.spec_lengths(), 0)
    }

    /// Whether appending a run of this value grows the trailing run
    /// instead of opening a new one.
    pub open spec fn merges_with_last(&self, value: T) -> bool {
        self.runs().len() > 0 && self.runs().last().0 == value
    }

    /// Push a run with the given value and positive run-length onto the
    /// end. An empty run is excluded: it would encode to a bare run
    /// boundary whose value could never come back out of the decoder.
    pub fn push_run(&mut self, run: (T, u128))
        requires
            old(self).wf(),
            run.1 >= 1,
        ensures
            final(self).wf(),
            final(self).runs() == old(self).runs().push((run.0, run.1 as int)),
    {
        let (value, n) = run;
        let ghost old_values = self.values@;
        let ghost old_lengths = self.lengths@;
        self.values.push(value);
        let group = RleInstruction::pack(n);
        let mut k: usize = 0;
        while k < group.len()
            invariant
                k <= group@.len(),
                self.values@ == old_values.push(run.0),
                self.lengths@ == old_lengths + group@.take(k as int),
            decreases group@.len() - k,
        {
            let instruction = group[k];
            self.lengths.push(instruction);
            proof {
                assert(self.lengths@ =~= old_lengths + group@.take(k + 1));
            }
            k = k + 1;
        }
        proof {
            let pieces = spec_pack_pieces(n);
            let mapped = pieces.map_values(|v: u8| RleInstruction::Run(v));
            assert(group@.take(group@.len() as int) =~= group@);
            assert(group@ =~= seq![RleInstruction::NextValue] + group@.skip(1));
            assert(self.lengths@ =~= old_lengths.push(RleInstruction::NextValue) + mapped);
            lemma_runs_extend(old_values, run.0, old_lengths, pieces, 0);
            lemma_runs_count(self.values@, self.lengths@, 0);
            lemma_runs_count(old_values, old_lengths, 0);
            assert forall|j: int|
                0 <= j < self.lengths@.len() implies (#[trigger] self.lengths@[j]).spec_valid() by {
                if j >= old_lengths.len() {
                    assert(self.lengths@[j] == group@[j - old_lengths.len()]);
                }
            }
        }
    }

    /// Pop the last run and return it; `None` when no run is left.
    pub fn pop_run(&mut self) -> (r: Option<(T, u128)>)
        requires
            old(self).wf(),
            old(self).runs().len() > 0 ==> old(self).runs().last().1 <= u128::MAX,
        ensures
            final(self).wf(),
            old(self).runs().len() == 0 ==> r is None && final(self).runs() == old(self).runs(),
            old(self).runs().len() > 0 ==> (r matches Some(run) && {
                &&& run.0 == old(self).runs().last().0
                &&& run.1 == old(self).runs().last().1
                &&& final(self).runs() == old(self).runs().drop_last()
            }),
    {
        proof {
            lemma_runs_count(self.values@, self.lengths@, 0);
        }
        let mut length: u128 = 0;
        let mut instruction = match self.lengths.pop() {
            None => {
                return None;
            },
            Some(i) => i,
        };
        proof {
            assert(self.lengths@.push(instruction) =~= old(self).lengths@);
            assert(self.lengths@ =~= old(self).lengths@.take(self.lengths@.len() as int));
            lemma_count_first_marker(old(self).lengths@);
        }
        while !instruction.is_next_value()
            invariant
                old(self).wf(),
                old(self).runs().len() > 0,
                old(self).runs().last().1 <= u128::MAX,
                self.values@ == old(self).values@,
                self.lengths@ == old(self).lengths@.take(self.lengths@.len() as int),
                self.lengths@.len() + 1 <= old(self).lengths@.len(),
                self.lengths@.push(instruction) == old(self).lengths@.take(
                    self.lengths@.len() as int + 1,
                ),
                instruction.spec_valid(),
                spec_runs_acc(self.values@, self.lengths@.push(instruction), length as int) == old(
                    self,
                ).runs(),
            decreases self.lengths@.len(),
        {
            proof {
                let here = self.lengths@.push(instruction);
                assert(here.last() == instruction);
                assert(here.drop_last() =~= self.lengths@);
                if self.lengths@.len() == 0 {
                    assert(here =~= old(self).lengths@.take(1));
                    assert(instruction == old(self).lengths@[0]);
                    assert(false);
                }
                assert(self.lengths@[0] == old(self).lengths@[0]);
                lemma_count_first_marker(self.lengths@);
                lemma_last_run_at_least(
                    self.values@,
                    self.lengths@,
                    length as int + spec_unpack_length(instruction->Run_0),
                );
            }
            length = length + instruction.unpack();
            instruction = match self.lengths.pop() {
                None => {
                    proof {
                        assert(false);
                    }
                    RleInstruction::NextValue
                },
                Some(i) => i,
            };
            proof {
                assert(self.lengths@ =~= old(self).lengths@.take(self.lengths@.len() as int));
                assert(self.lengths@.push(instruction) =~= old(self).lengths@.take(
                    self.lengths@.len() as int + 1,
                ));
            }
        }
        proof {
            let here = self.lengths@.push(instruction);
            assert(here.last() == instruction);
            assert(here.drop_last() =~= self.lengths@);
            lemma_runs_count(self.values@, here, length as int);
            assert(spec_count_markers(self.lengths@) == self.values@.len() - 1);
            lemma_runs_count(self.values@.drop_last(), self.lengths@, 0);
        }
        let value = match self.values.pop() {
            None => {
                proof {
                    assert(false);
                }
                return None;
            },
            Some(v) => v,
        };
        proof {
            assert forall|j: int|
                0 <= j < self.lengths@.len() implies (#[trigger] self.lengths@[j]).spec_valid() by {
                assert(self.lengths@[j] == old(self).lengths@[j]);
            }
            if self.lengths@.len() > 0 {
                assert(self.lengths@[0] == old(self).lengths@[0]);
            }
        }
        Some((value, length))
    }

    /// Push a run with the given value and positive run-length; when the
    /// value equals the trailing run's value, grow the trailing run
    /// instead of starting a new one. Always prefer this over `push_run`
    /// when the value can be compared.
    pub fn append_run(&mut self, run: (T, u128)) where T: PartialEq
        requires
            old(self).wf(),
            run.1 >= 1,
            eq_reflects_equality::<T>(),
            old(self).merges_with_last(run.0) ==> old(self).runs().last().1 + run.1
                <= u128::MAX,
        ensures
            final(self).wf(),
            old(self).merges_with_last(run.0) ==> final(self).runs() == old(
                self,
            ).runs().drop_last().push((run.0, old(self).runs().last().1 + run.1)),
            !old(self).merges_with_last(run.0) ==> final(self).runs() == old(self).runs().push(
                (run.0, run.1 as int),
            ),
    {
        proof {
            lemma_runs_count(self.values@, self.lengths@, 0);
            if self.values@.len() > 0 {
                lemma_last_run_value(self.values@, self.lengths@, 0);
                lemma_last_run_at_least(self.values@, self.lengths@, 0);
            }
        }
        let grows_trailing = self.values.len() > 0 && self.values[self.values.len() - 1] == run.0;
        if grows_trailing {
            let trailing = match self.pop_run() {
                None => {
                    proof {
                        assert(false);
                    }
                    return ;
                },
                Some(t) => t,
            };
            self.push_run((trailing.0, trailing.1 + run.1));
        } else {
            self.push_run(run);
        }
    }


    /// Extend this encoding with the given items, one appended run per
    /// maximal run of equal items: the values the encoding stands for grow
    /// by exactly the items, in order.
    pub fn extend(&mut self, items: Vec<T>) where T: PartialEq + Copy
        requires
            old(self).wf(),
            eq_reflects_equality::<T>(),
            old(self).runs().len() > 0 ==> old(self).runs().last().1 + items@.len()
                <= u128::MAX,
        ensures
            final(self).wf(),
            final(self).runs() == spec_extend_runs(old(self).runs(), items@),
            spec_run_values(final(self).runs()) == spec_run_values(old(self).runs()) + items@,
    {
        let ghost bound: int = if old(self).runs().len() > 0 {
            old(self).runs().last().1
        } else {
            0
        };
        proof {
            lemma_runs_nonneg(self.values@, self.lengths@, 0);
        }
        let total = items.len();
        let mut encoder = super::encode_consecutive_runs::EncodeConsecutiveRuns::new(items);
        let ghost all_items = encoder.spec_remaining();
        proof {
            assert(spec_run_values(self.runs()) + encoder.spec_remaining() =~= spec_run_values(
                old(self).runs(),
            ) + all_items);
        }
        loop
            invariant
                self.wf(),
                encoder.valid(),
                eq_reflects_equality::<T>(),
                total == all_items.len(),
                encoder.spec_remaining().len() <= total,
                bound >= 0,
                bound + total <= u128::MAX,
                self.runs().len() >= old(self).runs().len(),
                old(self).runs().len() == 0 && self.runs().len() == 0 ==> encoder.spec_remaining()
                    =~= all_items,
                self.runs().len() > 0 ==> self.runs().last().1 <= bound + (total
                    - encoder.spec_remaining().len()),
                forall|k: int|
                    0 <= k < self.runs().len() ==> (#[trigger] self.runs()[k]).1 >= 0,
                spec_run_values(self.runs()) + encoder.spec_remaining() == spec_run_values(
                    old(self).runs(),
                ) + all_items,
                spec_extend_runs(self.runs(), encoder.spec_remaining()) == spec_extend_runs(
                    old(self).runs(),
                    all_items,
                ),
            ensures
                self.runs() == spec_extend_runs(old(self).runs(), all_items),
                spec_run_values(self.runs()) == spec_run_values(old(self).runs()) + all_items,
                self.wf(),
            decreases encoder.spec_remaining().len(),
        {
            let ghost rem = encoder.spec_remaining();
            match encoder.next() {
                None => {
                    proof {
                        assert(spec_run_values(self.runs()) =~= spec_run_values(old(self).runs())
                            + all_items);
                    }
                    break ;
                },
                Some(run) => {
                    let ghost runs_before = self.runs();
                    proof {
                        lemma_repeat_index(run.0, run.1 as int);
                        assert(rem =~= spec_repeat(run.0, run.1 as int) + encoder.spec_remaining());
                        lemma_extend_run_block(runs_before, rem, run.0, run.1 as int);
                        if self.merges_with_last(run.0) {
                            assert(runs_before.last().1 + run.1 <= u128::MAX);
                        }
                    }
                    self.append_run(run);
                    proof {
                        if runs_before.len() > 0 && runs_before.last().0 == run.0 {
                            let l = runs_before.last().1;
                            lemma_repeat_adds(run.0, l, run.1 as int);
                            assert(self.runs().drop_last() =~= runs_before.drop_last());
                            assert(spec_run_values(self.runs()) =~= spec_run_values(runs_before)
                                + spec_repeat(run.0, run.1 as int));
                        } else {
                            assert(self.runs().drop_last() =~= runs_before);
                            assert(spec_run_values(self.runs()) =~= spec_run_values(runs_before)
                                + spec_repeat(run.0, run.1 as int));
                        }
                        assert(self.runs() =~= spec_append_run(runs_before, run.0, run.1 as int));
                        assert(spec_run_values(self.runs()) + encoder.spec_remaining()
                            =~= spec_run_values(old(self).runs()) + all_items);
                        assert forall|k: int|
                            0 <= k < self.runs().len() implies (#[trigger] self.runs()[k]).1
                            >= 0 by {
                            if k < self.runs().len() - 1 {
                                if runs_before.len() > 0 && runs_before.last().0 == run.0 {
                                    assert(self.runs()[k] == runs_before[k]);
                                } else {
                                    assert(self.runs()[k] == runs_before[k]);
                                }
                            }
                        }
                    }
                },
            }
        }
    }

    /// Every run of this encoding, each a value with its length, in run
    /// order.
    pub fn run_iterator(&self) -> (r: Vec<(T, u128)>) where T: Copy
        requires
            self.wf(),
            forall|k: int| 0 <= k < self.runs().len() ==> (#[trigger] self.runs()[k]).1 <= u128::MAX,
        ensures
            r@.len() == self.runs().len(),
            forall|k: int|
                0 <= k < r@.len() ==> (#[trigger] r@[k]).0 == self.runs()[k].0 && r@[k].1
                    == self.runs()[k].1,
    {
        let mut copied = Rle::<T> { values: Vec::new(), lengths: Vec::new() };
        let mut k: usize = 0;
        while k < self.values.len()
            invariant
                k <= self.values@.len(),
                copied.values@ == self.values@.take(k as int),
                copied.lengths@.len() == 0,
            decreases self.values@.len() - k,
        {
            copied.values.push(self.values[k]);
            proof {
                assert(copied.values@ =~= self.values@.take(k + 1));
            }
            k = k + 1;
        }
        let mut k: usize = 0;
        while k < self.lengths.len()
            invariant
                k <= self.lengths@.len(),
                copied.values@ == self.values@,
                copied.lengths@ == self.lengths@.take(k as int),
            decreases self.lengths@.len() - k,
        {
            copied.lengths.push(self.lengths[k]);
            proof {
                assert(copied.lengths@ =~= self.lengths@.take(k + 1));
            }
            k = k + 1;
        }
        proof {
            assert(copied.values@ =~= self.values@);
            assert(copied.lengths@ =~= self.lengths@);
            lemma_runs_count(copied.values@, copied.lengths@, 0);
            assert(copied.runs() =~= self.runs());
            assert(self.runs().take(self.runs().len() as int) =~= self.runs());
        }
        let mut reversed: Vec<(T, u128)> = Vec::new();
        while copied.values.len() > 0
            invariant
                copied.wf(),
                copied.runs().len() == copied.values@.len(),
                forall|k: int|
                    0 <= k < self.runs().len() ==> (#[trigger] self.runs()[k]).1 <= u128::MAX,
                copied.runs().len() + reversed@.len() == self.runs().len(),
                copied.runs() == self.runs().take(copied.runs().len() as int),
                forall|j: int|
                    0 <= j < reversed@.len() ==> (#[trigger] reversed@[j]).0 == self.runs()[
                        self.runs().len() - 1 - j
                    ].0 && reversed@[j].1 == self.runs()[self.runs().len() - 1 - j].1,
            decreases copied.values@.len(),
        {
            proof {
                assert(copied.runs().last() == self.runs()[copied.runs().len() - 1]);
                assert(self.runs()[copied.runs().len() - 1].1 <= u128::MAX);
            }
            match copied.pop_run() {
                None => {
                    proof {
                        assert(false);
                    }
                },
                Some(run) => {
                    proof {
                        assert(copied.runs() =~= self.runs().take(copied.runs().len() as int));
                        lemma_runs_count(copied.values@, copied.lengths@, 0);
                    }
                    reversed.push(run);
                },
            }
        }
        let mut r: Vec<(T, u128)> = Vec::new();
        let mut k: usize = reversed.len();
        while k > 0
            invariant
                k <= reversed@.len(),
                reversed@.len() == self.runs().len(),
                r@.len() == reversed@.len() - k,
                forall|j: int|
                    0 <= j < reversed@.len() ==> (#[trigger] reversed@[j]).0 == self.runs()[
                        self.runs().len() - 1 - j
                    ].0 && reversed@[j].1 == self.runs()[self.runs().len() - 1 - j].1,
                forall|j: int|
                    0 <= j < r@.len() ==> (#[trigger] r@[j]).0 == self.runs()[j].0 && r@[j].1
                        == self.runs()[j].1,
            decreases k,
        {
            k = k - 1;
            r.push(reversed[k]);
        }
        r
    }

    /// Iterate over every value of this encoding: each run's value comes
    /// out repeated as many times as the run is long.
    pub fn iterator(&self) -> (r: super::decode_consecutive_runs::DecodeConsecutiveRuns<T>) where
        T: Copy,

        requires
            self.wf(),
            forall|k: int|
                0 <= k < self.runs().len() ==> 1 <= (#[trigger] self.runs()[k]).1 <= u128::MAX,
        ensures
            r.valid(),
            r.remaining_runs().len() == self.runs().len(),
            forall|k: int|
                0 <= k < self.runs().len() ==> (#[trigger] r.remaining_runs()[k]).0
                    == self.runs()[k].0 && r.remaining_runs()[k].1 == self.runs()[k].1,
    {
        let runs = self.run_iterator();
        super::decode_consecutive_runs::DecodeConsecutiveRuns::new(runs)
    }
}

impl<T> Default for Rle<T> {
    /// An encoding of no runs at all.
    fn default() -> (r: Self)
        ensures
            r.wf(),
            r.runs().len() == 0,
    {
        Rle { values: Vec::new(), lengths: Vec::new() }
    }
}

} // verus!
