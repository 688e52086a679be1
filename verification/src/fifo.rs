//! A first-in first-out queue of fixed capacity, kept in a ring of `SIZE`
//! slots; one slot always stays empty, so it holds at most `SIZE - 1` values.

use vstd::prelude::*;

verus! {

/// The slot after `i` in a ring of `size` slots.
pub open spec fn next_slot(i: int, size: int) -> int {
    if i + 1 < size {
        i + 1
    } else {
        0
    }
}

/// The slot `k` places after `from` in a ring of `size` slots, for `k < size`.
pub open spec fn slot_after(from: int, k: int, size: int) -> int {
    if from + k < size {
        from + k
    } else {
        from + k - size
    }
}

/// A bounded first-in first-out queue.
#[derive(Debug)]
pub struct BoundedAtomicFifo<T, const SIZE: usize> {
    data: Vec<Option<T>>,
    read: usize,
    write: usize,
}

/// `x % size` for `x <= size`, the way the queue moves its positions on.
fn wrap(x: usize, size: usize) -> (r: usize)
    requires
        0 < size,
        x <= size,
    ensures
        r == next_slot(x - 1, size as int),
{
    let r = x % size;
    proof {
        if x < size {
            vstd::arithmetic::div_mod::lemma_small_mod(x as nat, size as nat);
        } else {
            vstd::arithmetic::div_mod::lemma_mod_self_0(size as int);
        }
    }
    r
}

impl<T: Copy, const SIZE: usize> BoundedAtomicFifo<T, SIZE> {
    /// The number of values in the queue.
    pub closed spec fn count(&self) -> int {
        if self.write >= self.read {
            self.write - self.read
        } else {
            self.write + SIZE - self.read
        }
    }

    /// The values in the queue, oldest first.
    pub closed spec fn view(&self) -> Seq<T> {
        Seq::new(
            self.count() as nat,
            |k: int| self.data@[slot_after(self.read as int, k, SIZE as int)]->Some_0,
        )
    }

    /// The ring has `SIZE` slots, both positions point into it, and the slots
    /// from the read position up to the write position hold values.
    pub closed spec fn wf(&self) -> bool {
        &&& self.data@.len() == SIZE
        &&& SIZE == 0 ==> self.read == 0 && self.write == 0
        &&& SIZE > 0 ==> self.read < SIZE && self.write < SIZE
        &&& forall|k: int|
            0 <= k < self.count() ==> (#[trigger] self.data@[slot_after(
                self.read as int,
                k,
                SIZE as int,
            )]) is Some
    }

    /// An empty queue.
    pub fn new() -> (r: Self)
        ensures
            r.wf(),
            r.view() == Seq::<T>::empty(),
    {
        let mut data: Vec<Option<T>> = Vec::new();
        let mut i: usize = 0;
        while i < SIZE
            invariant
                i <= SIZE,
                data@.len() == i,
            decreases SIZE - i,
        {
            data.push(None);
            i = i + 1;
        }
        let r = BoundedAtomicFifo { data, read: 0, write: 0 };
        assert(r.view() =~= Seq::<T>::empty());
        r
    }

    /// A well-formed queue of at least one slot holds fewer than `SIZE` values.
    pub proof fn lemma_len_below_size(&self)
        requires
            self.wf(),
            SIZE > 0,
        ensures
            self.view().len() < SIZE,
    {
    }

    /// Appends `value` unless the queue holds `SIZE - 1` values already, in
    /// which case it is left as it is and an error comes back.
    pub fn push(&mut self, value: T) -> (r: Result<(), &'static str>)
        requires
            old(self).wf(),
            SIZE > 0,
        ensures
            final(self).wf(),
            old(self).view().len() < SIZE,
            final(self).view().len() < SIZE,
            r is Err <==> old(self).view().len() + 1 == SIZE,
            old(self).view().len() + 1 == SIZE ==> r is Err && final(self).view() == old(self).view(),
            old(self).view().len() + 1 < SIZE ==> r is Ok && final(self).view() == old(self).view().push(
                value,
            ),
    {
        let next_write = wrap(self.write + 1, SIZE);
        if next_write == self.read {
            return Err("FIFO is full!");
        }
        let ghost old_view = self.view();
        self.data.set(self.write, Some(value));
        self.write = next_write;
        proof {
            assert forall|k: int| 0 <= k < self.count() implies (#[trigger] self.data@[slot_after(
                self.read as int,
                k,
                SIZE as int,
            )]) is Some by {
                if k < old_view.len() {
                    assert(slot_after(self.read as int, k, SIZE as int) != old(self).write);
                }
            }
            assert forall|k: int| 0 <= k < old_view.len() implies #[trigger] self.view()[k]
                == old_view[k] by {
                assert(slot_after(self.read as int, k, SIZE as int) != old(self).write);
            }
            assert(self.view() =~= old_view.push(value));
        }
        Ok(())
    }

    /// Takes the oldest value out of the queue, if there is one.
    pub fn pop(&mut self) -> (r: Option<T>)
        requires
            old(self).wf(),
        ensures
            final(self).wf(),
            old(self).view().len() == 0 ==> r is None && final(self).view() == old(self).view(),
            old(self).view().len() > 0 ==> r == Some(old(self).view()[0]) && final(self).view()
                == old(self).view().drop_first(),
    {
        if self.read == self.write {
            return None;
        }
        let ghost old_view = self.view();
        assert(self.data@[slot_after(self.read as int, 0, SIZE as int)] is Some);
        let value = self.data[self.read].unwrap();
        self.read = wrap(self.read + 1, SIZE);
        proof {
            assert forall|k: int| 0 <= k < self.count() implies (#[trigger] self.data@[slot_after(
                self.read as int,
                k,
                SIZE as int,
            )]) is Some by {
                assert(slot_after(self.read as int, k, SIZE as int) == slot_after(
                    old(self).read as int,
                    k + 1,
                    SIZE as int,
                ));
            }
            assert forall|k: int| 0 <= k < self.count() implies #[trigger] self.view()[k]
                == old_view[k + 1] by {
                assert(slot_after(self.read as int, k, SIZE as int) == slot_after(
                    old(self).read as int,
                    k + 1,
                    SIZE as int,
                ));
            }
            assert(self.view() =~= old_view.drop_first());
        }
        Some(value)
    }
}

/// The queue after `values` are pushed, in order, onto the values `start`,
/// every push finding room.
pub open spec fn pushed_all<T>(start: Seq<T>, values: Seq<T>) -> Seq<T>
    decreases values.len(),
{
    if values.len() == 0 {
        start
    } else {
        pushed_all(start.push(values[0]), values.drop_first())
    }
}

/// What `n` pops, one after the other, give back from a queue holding
/// `queue`: its values from the oldest on, one for each pop that finds one.
pub open spec fn popped<T>(queue: Seq<T>, n: nat) -> Seq<T>
    decreases n,
{
    if n == 0 || queue.len() == 0 {
        Seq::empty()
    } else {
        seq![queue[0]] + popped(queue.drop_first(), (n - 1) as nat)
    }
}

/// First in, first out: values pushed one after the other behind those
/// already queued come out of successive pops behind them, in the order in
/// which they went in, and pops past the last value give back nothing.
pub proof fn lemma_first_in_first_out<T>(start: Seq<T>, values: Seq<T>, n: nat)
    ensures
        pushed_all(start, values) == start + values,
        popped(start + values, n) == (start + values).take(
            if n <= start.len() + values.len() { n as int } else { (start.len() + values.len()) as int },
        ),
{
    lemma_pushed_all(start, values);
    lemma_popped_prefix(start + values, n);
}

proof fn lemma_pushed_all<T>(start: Seq<T>, values: Seq<T>)
    ensures
        pushed_all(start, values) == start + values,
    decreases values.len(),
{
    if values.len() > 0 {
        lemma_pushed_all(start.push(values[0]), values.drop_first());
        assert(start.push(values[0]) + values.drop_first() =~= start + values);
    } else {
        assert(start + values =~= start);
    }
}

proof fn lemma_popped_prefix<T>(queue: Seq<T>, n: nat)
    ensures
        popped(queue, n) == queue.take(if n <= queue.len() { n as int } else { queue.len() as int }),
    decreases n,
{
    if n == 0 || queue.len() == 0 {
        assert(queue.take(0) =~= Seq::<T>::empty());
    } else {
        lemma_popped_prefix(queue.drop_first(), (n - 1) as nat);
        let m: int = if n <= queue.len() { n as int } else { queue.len() as int };
        assert(seq![queue[0]] + queue.drop_first().take(m - 1) =~= queue.take(m));
    }
}

} // verus!
