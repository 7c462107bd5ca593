use vstd::prelude::*;
use vstd::arithmetic::div_mod::lemma_fundamental_div_mod;
use vstd::arithmetic::div_mod::lemma_fundamental_div_mod_converse;

verus! {

/// The places at which a function is sampled: from `start` towards `stop` in
/// steps of `step`, upwards where `stop` lies above `start` and downwards
/// else, as far as `stop` and no further. All in data units.
#[derive(Debug, Clone, Copy)]
pub struct Formula {
    /// The next place, if it does not lie beyond `stop`.
    pub current_x: i128,
    /// The last place that may be handed out.
    pub stop: i64,
    /// The first place.
    pub start: i64,
    /// Distance between two places.
    pub step: i64,
}

/// The places from `from` in steps of `step` towards `stop`, `stop` included
/// where a step falls on it; upwards where `rising`, else downwards.
pub open spec fn places(from: int, stop: int, step: int, rising: bool) -> Seq<i64> {
    if rising {
        if from <= stop {
            Seq::new(((stop - from) / step + 1) as nat, |k: int| (from + k * step) as i64)
        } else {
            Seq::empty()
        }
    } else {
        if from >= stop {
            Seq::new(((from - stop) / step + 1) as nat, |k: int| (from - k * step) as i64)
        } else {
            Seq::empty()
        }
    }
}

/// One step further, one place fewer: the places from the second on are the
/// places from one step further.
pub proof fn lemma_places_step(from: int, stop: int, step: int, rising: bool)
    requires
        step > 0,
        rising ==> from <= stop,
        !rising ==> from >= stop,
    ensures
        places(from, stop, step, rising).len() >= 1,
        places(from, stop, step, rising)[0] == from as i64,
        places(from, stop, step, rising).drop_first() == places(
            if rising {
                from + step
            } else {
                from - step
            },
            stop,
            step,
            rising,
        ),
{
    let a = if rising {
        stop - from
    } else {
        from - stop
    };
    let next = if rising {
        from + step
    } else {
        from - step
    };
    let here = places(from, stop, step, rising);
    let there = places(next, stop, step, rising);
    lemma_fundamental_div_mod(a, step);
    let n = a / step;
    assert(0 <= a % step < step);
    assert(n >= 0) by (nonlinear_arith)
        requires
            a == step * n + a % step,
            a >= 0,
            a % step < step,
            step > 0,
    ;
    assert(0 * step == 0);
    if a >= step {
        assert(a - step == (n - 1) * step + a % step) by (nonlinear_arith)
            requires
                a == step * n + a % step,
        ;
        lemma_fundamental_div_mod_converse(a - step, step, n - 1, a % step);
        assert(there.len() == n);
    } else {
        lemma_fundamental_div_mod_converse(a, step, 0, a);
        assert(there.len() == 0);
    }
    assert(here.len() == n + 1);
    assert forall|k: int| 0 <= k < there.len() implies there[k] == here.drop_first()[k] by {
        assert((k + 1) * step == k * step + step) by (nonlinear_arith);
    }
    assert(here.drop_first() =~= there);
}

impl Formula {
    /// The step is positive, and the next place lies at most one step beyond
    /// the range.
    pub open spec fn wf(&self) -> bool {
        &&& self.step > 0
        &&& self.start < self.stop ==> self.start <= self.current_x <= self.stop + self.step
        &&& self.start >= self.stop ==> self.stop - self.step <= self.current_x <= self.start
    }

    /// The places that `next` has still to hand out, in order.
    pub open spec fn remaining(&self) -> Seq<i64> {
        places(
            self.current_x as int,
            self.stop as int,
            self.step as int,
            self.start < self.stop,
        )
    }

    /// The places from `start` towards `stop` in steps of `step`.
    pub fn new(start: i64, stop: i64, step: i64) -> (formula: Self)
        requires
            step > 0,
        ensures
            formula.wf(),
            formula.start == start,
            formula.stop == stop,
            formula.step == step,
            formula.remaining() == places(start as int, stop as int, step as int, start < stop),
    {
        Formula { current_x: start as i128, stop: stop, start: start, step: step }
    }

    /// The next place, or `None` once `stop` has been passed.
    pub fn next(&mut self) -> (item: Option<i64>)
        requires
            old(self).wf(),
        ensures
            final(self).wf(),
            final(self).start == old(self).start,
            final(self).stop == old(self).stop,
            final(self).step == old(self).step,
            old(self).remaining().len() == 0 ==> item.is_none() && final(self).current_x == old(
                self,
            ).current_x,
            old(self).remaining().len() > 0 ==> item == Some(old(self).remaining()[0])
                && final(self).remaining() == old(self).remaining().drop_first(),
    {
        if self.start < self.stop {
            if self.current_x <= self.stop as i128 {
                proof {
                    lemma_places_step(
                        self.current_x as int,
                        self.stop as int,
                        self.step as int,
                        true,
                    );
                }
                let x: i64 = self.current_x as i64;
                self.current_x = self.current_x + (self.step as i128);
                Some(x)
            } else {
                None
            }
        } else if self.current_x >= self.stop as i128 {
            proof {
                lemma_places_step(self.current_x as int, self.stop as int, self.step as int, false);
            }
            let x: i64 = self.current_x as i64;
            self.current_x = self.current_x - (self.step as i128);
            Some(x)
        } else {
            None
        }
    }

    /// All the places that are left, in order.
    pub fn collect(&mut self) -> (all: Vec<i64>)
        requires
            old(self).wf(),
        ensures
            final(self).wf(),
            all@ == old(self).remaining(),
            final(self).remaining().len() == 0,
    {
        let mut all: Vec<i64> = Vec::new();
        loop
            invariant
                self.wf(),
                all@ + self.remaining() == old(self).remaining(),
            ensures
                all@ == old(self).remaining(),
                self.remaining().len() == 0,
            decreases self.remaining().len(),
        {
            match self.next() {
                Some(x) => {
                    all.push(x);
                    proof {
                        assert(all@ + self.remaining() =~= old(self).remaining());
                    }
                },
                None => {
                    proof {
                        assert(all@ + self.remaining() =~= all@);
                    }
                    break ;
                },
            }
        }
        all
    }
}

} // verus!
