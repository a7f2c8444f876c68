use vstd::prelude::*;

verus! {

/// An iterator that unpacks runs into repetitions of their values: each
/// pair `(value, n)` with a positive count comes out as `n` copies of
/// `value`, one call at a time, so an astronomically long run never has to
/// be materialized.
pub struct DecodeConsecutiveRuns<T> {
    runs: Vec<(T, u128)>,
    cursor: usize,
    current_run: Option<(T, u128)>,
}

impl<T: Copy> DecodeConsecutiveRuns<T> {
    /// The decoder never walks past its runs, and every run it still holds
    /// has a positive count.
    pub closed spec fn valid(&self) -> bool {
        &&& self.cursor <= self.runs@.len()
        &&& self.current_run matches Some((value, n)) ==> n >= 1
        &&& forall|k: int|
            self.cursor <= k < self.runs@.len() ==> (#[trigger] self.runs@[k]).1 >= 1
    }

    /// The runs not yet fully decoded, in order; the first one may already
    /// be partly consumed.
    pub closed spec fn remaining_runs(&self) -> Seq<(T, u128)> {
        let ahead = self.runs@.skip(self.cursor as int);
        match self.current_run {
            Some(run) => seq![run] + ahead,
            None => ahead,
        }
    }

    /// Wrap a collection of runs, each with a positive count, to decode
    /// it.
    pub fn new(runs: Vec<(T, u128)>) -> (r: Self)
        requires
            forall|k: int| 0 <= k < runs@.len() ==> (#[trigger] runs@[k]).1 >= 1,
        ensures
            r.valid(),
            r.remaining_runs() == runs@,
    {
        let r = DecodeConsecutiveRuns { runs, cursor: 0, current_run: None };
        proof {
            assert(r.remaining_runs() =~= r.runs@);
        }
        r
    }

    /// The next decoded value: the value of the first remaining run, whose
    /// count goes down by one until the run is spent. `None` once every
    /// run is spent.
    pub fn next(&mut self) -> (r: Option<T>)
        requires
            old(self).valid(),
        ensures
            final(self).valid(),
            old(self).remaining_runs().len() == 0 ==> r is None && final(self).remaining_runs()
                == old(self).remaining_runs(),
            old(self).remaining_runs().len() > 0 ==> {
                let run = old(self).remaining_runs()[0];
                &&& r == Some(run.0)
                &&& run.1 == 1 ==> final(self).remaining_runs() == old(
                    self,
                ).remaining_runs().skip(1)
                &&& run.1 > 1 ==> final(self).remaining_runs() == old(
                    self,
                ).remaining_runs().update(0, (run.0, (run.1 - 1) as u128))
            },
    {
        if self.current_run.is_none() {
            if self.cursor < self.runs.len() {
                self.current_run = Some(self.runs[self.cursor]);
                self.cursor = self.cursor + 1;
            }
        }
        match self.current_run {
            None => {
                proof {
                    assert(self.remaining_runs() =~= old(self).remaining_runs());
                }
                None
            },
            Some((value, n)) => {
                if n == 1 {
                    self.current_run = None;
                } else {
                    self.current_run = Some((value, n - 1));
                }
                proof {
                    let before = old(self).remaining_runs();
                    if n == 1 {
                        assert(self.remaining_runs() =~= before.skip(1));
                    } else {
                        assert(self.remaining_runs() =~= before.update(
                            0,
                            (value, (n - 1) as u128),
                        ));
                    }
                }
                Some(value)
            },
        }
    }
}

} // verus!
