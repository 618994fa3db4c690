//! The pool of read items: the first lines kept apart as a header, the rest
//! handed out to the matcher in batches of the items not taken yet.
use vstd::prelude::*;

verus! {

/// The pool as plain values: the items (header excluded), how many of them
/// were taken, the header items, how many header lines to reserve, and
/// whether batches are handed out in reverse.
pub struct PoolModel<T> {
    pub items: Seq<T>,
    pub taken: nat,
    pub reserved: Seq<T>,
    pub lines_to_reserve: nat,
    pub tac: bool,
}

/// How many of `n` appended items go to a header that has room for `room`.
pub open spec fn header_share(room: int, n: int) -> int {
    if room < n {
        room
    } else {
        n
    }
}

/// The pool after appending `xs`: the first of them complete the header, the
/// rest join the items.
pub open spec fn after_append<T>(p: PoolModel<T>, xs: Seq<T>) -> PoolModel<T> {
    let k = header_share(p.lines_to_reserve - p.reserved.len(), xs.len() as int);
    PoolModel { items: p.items + xs.subrange(k, xs.len() as int), reserved: p.reserved + xs.subrange(0, k), ..p }
}

/// The batch a take hands out: the items not taken yet, reversed with `tac`.
pub open spec fn take_batch<T>(p: PoolModel<T>) -> Seq<T> {
    let fresh = p.items.subrange(p.taken as int, p.items.len() as int);
    if p.tac {
        fresh.reverse()
    } else {
        fresh
    }
}

/// The pool after a take: every item counts as taken.
pub open spec fn after_take<T>(p: PoolModel<T>) -> PoolModel<T> {
    PoolModel { taken: p.items.len(), ..p }
}

/// The pool after a reset: no item counts as taken.
pub open spec fn after_reset<T>(p: PoolModel<T>) -> PoolModel<T> {
    PoolModel { taken: 0, ..p }
}

/// A take right after a take hands out nothing.
pub proof fn lemma_take_twice_is_empty<T>(p: PoolModel<T>)
    requires
        p.taken <= p.items.len(),
    ensures
        take_batch(after_take(p)).len() == 0,
{
}

/// After a reset, a take hands out every item again.
pub proof fn lemma_reset_replays_all<T>(p: PoolModel<T>)
    ensures
        take_batch(after_reset(p)).len() == p.items.len(),
        !p.tac ==> take_batch(after_reset(p)) == p.items,
{
    assert(p.items.subrange(0, p.items.len() as int) =~= p.items);
}

/// Once the header is full and every item was taken, the next take after an
/// append hands out exactly the appended items (reversed with `tac`).
pub proof fn lemma_append_then_take<T>(p: PoolModel<T>, xs: Seq<T>)
    requires
        p.taken == p.items.len(),
        p.reserved.len() == p.lines_to_reserve,
    ensures
        take_batch(after_append(p, xs)) == if p.tac {
            xs.reverse()
        } else {
            xs
        },
{
    let q = after_append(p, xs);
    assert(xs.subrange(0, xs.len() as int) =~= xs);
    assert(q.items.subrange(q.taken as int, q.items.len() as int) =~= xs);
}

/// Appending keeps every item, in order, across the header and the items.
pub proof fn lemma_append_keeps_order<T>(p: PoolModel<T>, xs: Seq<T>)
    requires
        p.reserved.len() <= p.lines_to_reserve,
    ensures
        after_append(p, xs).reserved + after_append(p, xs).items == p.reserved + xs.subrange(
            0,
            header_share(p.lines_to_reserve - p.reserved.len(), xs.len() as int),
        ) + p.items + xs.subrange(
            header_share(p.lines_to_reserve - p.reserved.len(), xs.len() as int),
            xs.len() as int,
        ),
        p.items.len() == 0 ==> after_append(p, xs).reserved + after_append(p, xs).items == p.reserved + xs,
{
    let k = header_share(p.lines_to_reserve - p.reserved.len(), xs.len() as int);
    assert(xs =~= xs.subrange(0, k) + xs.subrange(k, xs.len() as int));
    if p.items.len() == 0 {
        assert(p.items + xs.subrange(k, xs.len() as int) =~= xs.subrange(k, xs.len() as int));
    }
}

/// The pool of items read so far.
pub struct ItemPool<T> {
    pool: Vec<T>,
    taken: usize,
    reserved_items: Vec<T>,
    lines_to_reserve: usize,
    tac: bool,
}

impl<T> View for ItemPool<T> {
    type V = PoolModel<T>;

    closed spec fn view(&self) -> PoolModel<T> {
        PoolModel {
            items: self.pool@,
            taken: self.taken as nat,
            reserved: self.reserved_items@,
            lines_to_reserve: self.lines_to_reserve as nat,
            tac: self.tac,
        }
    }
}

/// Each item of `b` is a clone of the item of `a` at the same place.
pub open spec fn clones_of<T: Clone>(a: Seq<T>, b: Seq<T>) -> bool {
    a.len() == b.len() && forall|i: int| 0 <= i < a.len() ==> cloned(#[trigger] a[i], b[i])
}

/// Clones the items `lo..hi` of `v`, in reverse order when asked.
fn clone_range<T: Clone>(v: &Vec<T>, lo: usize, hi: usize, reverse: bool) -> (r: Vec<T>)
    requires
        lo <= hi <= v@.len(),
    ensures
        clones_of(
            if reverse {
                v@.subrange(lo as int, hi as int).reverse()
            } else {
                v@.subrange(lo as int, hi as int)
            },
            r@,
        ),
{
    let ghost src = if reverse {
        v@.subrange(lo as int, hi as int).reverse()
    } else {
        v@.subrange(lo as int, hi as int)
    };
    let mut out: Vec<T> = Vec::new();
    let mut k: usize = 0;
    while k < hi - lo
        invariant
            lo <= hi <= v@.len(),
            k <= hi - lo,
            src == if reverse {
                v@.subrange(lo as int, hi as int).reverse()
            } else {
                v@.subrange(lo as int, hi as int)
            },
            src.len() == hi - lo,
            out@.len() == k,
            forall|i: int| 0 <= i < k ==> cloned(#[trigger] src[i], out@[i]),
        decreases hi - lo - k,
    {
        let idx = if reverse {
            hi - 1 - k
        } else {
            lo + k
        };
        let x = v[idx].clone();
        proof {
            assert(src[k as int] == v@[idx as int]);
        }
        out.push(x);
        k += 1;
    }
    out
}

impl<T> ItemPool<T> {
    /// At most `lines_to_reserve` header items, and no more items taken than
    /// there are.
    #[verifier::type_invariant]
    spec fn wf(self) -> bool {
        &&& self.taken <= self.pool@.len()
        &&& self.reserved_items@.len() <= self.lines_to_reserve
    }
}

impl<T: Clone> ItemPool<T> {
    /// Creates a new empty item pool with no header and no reversal.
    pub fn new() -> (r: Self)
        ensures
            r@ == (PoolModel::<T> { items: Seq::empty(), taken: 0, reserved: Seq::empty(), lines_to_reserve: 0, tac: false }),
    {
        ItemPool { pool: Vec::new(), taken: 0, reserved_items: Vec::new(), lines_to_reserve: 0, tac: false }
    }

    /// Creates an empty pool that keeps the first `lines_to_reserve` items as a
    /// header and, with `tac`, hands out each batch in reverse.
    pub fn with_options(lines_to_reserve: usize, tac: bool) -> (r: Self)
        ensures
            r@ == (PoolModel::<T> {
                items: Seq::empty(),
                taken: 0,
                reserved: Seq::empty(),
                lines_to_reserve: lines_to_reserve as nat,
                tac,
            }),
    {
        ItemPool { pool: Vec::new(), taken: 0, reserved_items: Vec::new(), lines_to_reserve, tac }
    }

    /// Returns the total number of items in the pool (header excluded)
    pub fn len(&self) -> (r: usize)
        ensures
            r == self@.items.len(),
    {
        self.pool.len()
    }

    /// Returns true if the pool contains no items
    pub fn is_empty(&self) -> (r: bool)
        ensures
            r == (self@.items.len() == 0),
    {
        self.pool.len() == 0
    }

    /// Returns the number of items that have not been taken yet
    pub fn num_not_taken(&self) -> (r: usize)
        ensures
            r == self@.items.len() - self@.taken,
    {
        proof {
            use_type_invariant(self);
        }
        self.pool.len() - self.taken
    }

    /// Returns the number of items that have been taken
    pub fn num_taken(&self) -> (r: usize)
        ensures
            r == self@.taken,
            self@.taken <= self@.items.len(),
    {
        proof {
            use_type_invariant(self);
        }
        self.taken
    }

    /// Clears all items from the pool and resets counters
    pub fn clear(&mut self)
        ensures
            final(self)@ == (PoolModel::<T> {
                items: Seq::empty(),
                taken: 0,
                reserved: Seq::empty(),
                ..old(self)@
            }),
    {
        proof {
            use_type_invariant(&*self);
        }
        self.taken = 0;
        self.pool = Vec::new();
        self.reserved_items = Vec::new();
    }

    /// Resets the taken counter without clearing items
    pub fn reset(&mut self)
        ensures
            final(self)@ == after_reset(old(self)@),
    {
        proof {
            use_type_invariant(&*self);
        }
        self.taken = 0;
    }

    /// Appends items: while the header is short of `lines_to_reserve` items,
    /// the first of them complete it; the rest join the pool. Returns the new
    /// size of the pool.
    pub fn append(&mut self, items: Vec<T>) -> (r: usize)
        ensures
            final(self)@ == after_append(old(self)@, items@),
            r == final(self)@.items.len(),
    {
        let mut me = ItemPool { pool: Vec::new(), taken: 0, reserved_items: Vec::new(), lines_to_reserve: 0, tac: false };
        std::mem::swap(&mut me, self);
        proof {
            use_type_invariant(&me);
        }
        let ItemPool { mut pool, taken, mut reserved_items, lines_to_reserve, tac } = me;
        let mut items = items;
        let ghost all = items@;
        let to_reserve = lines_to_reserve - reserved_items.len();
        let k = if to_reserve < items.len() {
            to_reserve
        } else {
            items.len()
        };
        let mut rest = items.split_off(k);
        reserved_items.append(&mut items);
        pool.append(&mut rest);
        proof {
            assert(all.subrange(0, k as int) =~= all.take(k as int));
        }
        let n = pool.len();
        *self = ItemPool { pool, taken, reserved_items, lines_to_reserve, tac };
        n
    }

    /// Takes the items added since the last take (or reset), as clones, in
    /// reverse order with `tac`; they count as taken afterwards.
    pub fn take(&mut self) -> (r: Vec<T>)
        ensures
            clones_of(take_batch(old(self)@), r@),
            final(self)@ == after_take(old(self)@),
    {
        proof {
            use_type_invariant(&*self);
        }
        let n = self.pool.len();
        let items = clone_range(&self.pool, self.taken, n, self.tac);
        self.taken = n;
        items
    }

    /// Returns clones of the reserved header items
    pub fn reserved(&self) -> (r: Vec<T>)
        ensures
            clones_of(self@.reserved, r@),
    {
        let n = self.reserved_items.len();
        let r = clone_range(&self.reserved_items, 0, n, false);
        proof {
            assert(self.reserved_items@.subrange(0, n as int) =~= self.reserved_items@);
        }
        r
    }
}

} // verus!
