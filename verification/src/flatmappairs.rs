use vstd::prelude::*;

verus! {

/// The item that item `k` is paired with: the next one, or the item itself
/// where it is the last.
pub open spec fn partner<T>(items: Seq<T>, k: int) -> T {
    if k + 1 < items.len() {
        items[k + 1]
    } else {
        items[k]
    }
}

/// Whether the contract of the expander `f` lets it hand out `chunk` for the
/// pair `(a, b)`.
pub open spec fn expands_to<T, U, F: Fn(T, T) -> Vec<U>>(f: F, a: T, b: T, chunk: Seq<U>) -> bool {
    exists|v: Vec<U>| v@ == chunk && call_ensures(f, (a, b), v)
}

/// Walks over a sequence pair by pair and hands out, one at a time, what an
/// expander makes of each pair of neighbours; the last item is paired with
/// itself.
pub struct FlatMapPairs<T, U, F> {
    it: Vec<T>,
    f: F,
    at: usize,
    cur: Vec<U>,
    cur_at: usize,
    chunks: Ghost<Seq<Seq<U>>>,
}

impl<T: Copy, U: Copy, F: Fn(T, T) -> Vec<U>> FlatMapPairs<T, U, F> {
    /// The items that are walked over.
    pub closed spec fn items(&self) -> Seq<T> {
        self.it@
    }

    /// The expander.
    pub closed spec fn expander(&self) -> F {
        self.f
    }

    /// What the expander has made so far, pair by pair.
    pub closed spec fn chunks(&self) -> Seq<Seq<U>> {
        self.chunks@
    }

    /// Number of items of the last chunk that have not been handed out.
    pub closed spec fn pending(&self) -> nat {
        (self.cur@.len() - self.cur_at) as nat
    }

    /// Number of pairs that have not been expanded.
    pub closed spec fn pairs_left(&self) -> nat {
        (self.it@.len() - self.at) as nat
    }

    /// Everything that `next` has handed out so far, in order.
    pub open spec fn handed_out(&self) -> Seq<U> {
        self.chunks().flatten().take(self.chunks().flatten().len() - self.pending())
    }

    /// The last chunk is the one that is being handed out.
    pub closed spec fn inv(&self) -> bool {
        &&& self.at <= self.it@.len()
        &&& self.cur_at <= self.cur@.len()
        &&& self.chunks@.len() == self.at
        &&& self.at > 0 ==> self.chunks@.last() == self.cur@
        &&& self.at == 0 ==> self.cur@.len() == 0
    }

    /// There is a chunk for every pair that was expanded, each as the
    /// expander's contract allows it, and the expander takes every pair.
    pub open spec fn wf(&self) -> bool {
        &&& self.inv()
        &&& self.chunks().len() + self.pairs_left() == self.items().len()
        &&& self.pending() <= self.chunks().flatten().len()
        &&& forall|k: int|
            0 <= k < self.chunks().len() ==> expands_to(
                self.expander(),
                self.items()[k],
                partner(self.items(), k),
                #[trigger] self.chunks()[k],
            )
        &&& forall|a: T, b: T| call_requires(self.expander(), (a, b))
    }

    /// A walk over the pairs of neighbours of `it`, at its start.
    pub fn new(it: Vec<T>, f: F) -> (pairs: Self)
        requires
            forall|a: T, b: T| call_requires(f, (a, b)),
        ensures
            pairs.wf(),
            pairs.items() == it@,
            pairs.expander() == f,
            pairs.chunks() == Seq::<Seq<U>>::empty(),
            pairs.handed_out() == Seq::<U>::empty(),
            pairs.pairs_left() == it@.len(),
            pairs.pending() == 0,
    {
        let pairs = FlatMapPairs {
            it: it,
            f: f,
            at: 0,
            cur: Vec::new(),
            cur_at: 0,
            chunks: Ghost(Seq::empty()),
        };
        proof {
            assert(pairs.chunks().flatten() =~= Seq::<U>::empty());
            assert(pairs.handed_out() =~= Seq::<U>::empty());
        }
        pairs
    }

    /// The next item, or `None` once every pair has been expanded and every
    /// chunk handed out.
    pub fn next(&mut self) -> (item: Option<U>)
        requires
            old(self).wf(),
        ensures
            final(self).wf(),
            final(self).items() == old(self).items(),
            final(self).expander() == old(self).expander(),
            item matches Some(x) ==> final(self).handed_out() == old(self).handed_out().push(x),
            item is Some ==> final(self).pairs_left() < old(self).pairs_left() || (final(
                self
            ).pairs_left() == old(self).pairs_left() && final(self).pending() < old(
                self
            ).pending()),
            item is None ==> final(self).handed_out() == old(self).handed_out(),
            item is None ==> final(self).pairs_left() == 0 && final(self).pending() == 0,
    {
        loop
            invariant
                self.wf(),
                self.items() == old(self).items(),
                self.expander() == old(self).expander(),
                self.handed_out() == old(self).handed_out(),
                self.pairs_left() < old(self).pairs_left() || (self.pairs_left() == old(
                    self
                ).pairs_left() && self.pending() == old(self).pending()),
            decreases self.pairs_left(),
        {
            if self.cur_at < self.cur.len() {
                let ghost before = self.handed_out();
                let res: U = self.cur[self.cur_at];
                proof {
                    let chunks = self.chunks@;
                    assert(chunks =~= chunks.drop_last().push(chunks.last()));
                    chunks.drop_last().lemma_flatten_push(chunks.last());
                }
                self.cur_at = self.cur_at + 1;
                proof {
                    assert(self.handed_out() =~= before.push(res));
                }
                return Some(res);
            }
            if self.at >= self.it.len() {
                return None;
            }
            let val: T = self.it[self.at];
            let next_val: T = if self.at + 1 < self.it.len() {
                self.it[self.at + 1]
            } else {
                val
            };
            let ghost before = self.handed_out();
            let ghost flat = self.chunks@.flatten();
            let chunk: Vec<U> = (self.f)(val, next_val);
            proof {
                self.chunks@.lemma_flatten_push(chunk@);
                assert(before =~= flat);
            }
            self.chunks = Ghost(self.chunks@.push(chunk@));
            self.cur = chunk;
            self.cur_at = 0;
            self.at = self.at + 1;
            proof {
                assert(self.handed_out() =~= before);
            }
        }
    }
}

} // verus!
