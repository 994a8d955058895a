//! Last-in, first-out containers of register values.

use vstd::prelude::*;

verus! {

/// The top of `items`, or `default` when there is none.
pub open spec fn top_or<T>(items: Seq<T>, default: T) -> T {
    if items.len() == 0 {
        default
    } else {
        items.last()
    }
}

/// `items` after a pop: the top removed, if there is one.
pub open spec fn popped<T>(items: Seq<T>) -> Seq<T> {
    if items.len() == 0 {
        items
    } else {
        items.drop_last()
    }
}

/// The values of a stack of type `S` after each of `values` is pushed onto
/// `items`, first to last.
pub open spec fn pushed_all<S: Stack>(items: Seq<S::Item>, values: Seq<S::Item>) -> Seq<S::Item>
    decreases values.len(),
{
    if values.len() == 0 {
        items
    } else {
        S::pushed(pushed_all::<S>(items, values.drop_last()), values.last())
    }
}

pub trait Stack: Sized {
    type Item;

    /// The values held, bottom first.
    spec fn items(&self) -> Seq<Self::Item>;

    spec fn wf(&self) -> bool;

    /// What the values become when `item` is pushed onto `items`.
    spec fn pushed(items: Seq<Self::Item>, item: Self::Item) -> Seq<Self::Item>;

    fn push(&mut self, item: Self::Item)
        requires
            old(self).wf(),
        ensures
            final(self).wf(),
            final(self).items() == Self::pushed(old(self).items(), item),
    ;

    fn pop(&mut self) -> (r: Option<Self::Item>)
        requires
            old(self).wf(),
        ensures
            final(self).wf(),
            final(self).items() == popped(old(self).items()),
            old(self).items().len() == 0 ==> r is None,
            old(self).items().len() > 0 ==> r == Some(old(self).items().last()),
    ;
}

/// A growable stack backed by a `Vec`.
pub struct VecStack<T> {
    items: Vec<T>,
}

impl<T> Stack for VecStack<T> {
    type Item = T;

    closed spec fn items(&self) -> Seq<T> {
        self.items@
    }

    closed spec fn wf(&self) -> bool {
        true
    }

    /// A growable stack keeps everything pushed onto it.
    open spec fn pushed(items: Seq<T>, item: T) -> Seq<T> {
        items.push(item)
    }

    fn push(&mut self, item: T) {
        self.items.push(item);
    }

    fn pop(&mut self) -> (r: Option<T>) {
        self.items.pop()
    }
}

impl<T> Default for VecStack<T> {
    /// An empty stack.
    fn default() -> (r: Self)
        ensures
            r.wf(),
            r.items() == Seq::<T>::empty(),
    {
        VecStack::new()
    }
}

impl<T> VecStack<T> {
    pub fn new() -> (r: Self)
        ensures
            r.wf(),
            r.items() == Seq::<T>::empty(),
    {
        VecStack { items: Vec::new() }
    }

    /// Pushes every value of `stack`, first to last.
    pub fn extend(&mut self, stack: Vec<T>)
        ensures
            final(self).wf(),
            final(self).items() == old(self).items() + stack@,
    {
        let mut stack = stack;
        self.items.append(&mut stack);
    }

    /// The values held, bottom first.
    pub fn to_vec(&self) -> (r: Vec<T>)
        where
            T: Copy,
        ensures
            r@ == self.items(),
    {
        let mut r: Vec<T> = Vec::new();
        let mut i: usize = 0;
        while i < self.items.len()
            invariant
                i <= self.items@.len(),
                r@ == self.items@.subrange(0, i as int),
            decreases self.items@.len() - i,
        {
            r.push(self.items[i]);
            i += 1;
        }
        r
    }
}

/// The slot `back` places behind `top` in a ring of `capacity` slots.
pub open spec fn ring_slot(top: int, back: int, capacity: int) -> int {
    if top - 1 - back >= 0 {
        top - 1 - back
    } else {
        top - 1 - back + capacity
    }
}

/// What a ring of `capacity` slots holds after `item` is pushed onto
/// `items`: once full, the oldest value is overwritten.
pub open spec fn ring_pushed<T>(items: Seq<T>, item: T, capacity: nat) -> Seq<T> {
    if items.len() < capacity {
        items.push(item)
    } else {
        items.drop_first().push(item)
    }
}

/// A stack of fixed capacity kept in a ring of slots. Once full, a push
/// overwrites the oldest value still held.
#[derive(Clone, Copy)]
pub struct ArrayStack<const CAPACITY: usize, T: Copy> {
    slots: [Option<T>; CAPACITY],
    top: usize,
    count: Ghost<nat>,
}

impl<const CAPACITY: usize, T: Copy> Stack for ArrayStack<CAPACITY, T> {
    type Item = T;

    closed spec fn items(&self) -> Seq<T> {
        Seq::new(
            self.count@,
            |i: int| self.slots@[ring_slot(self.top as int, self.count@ - 1 - i, CAPACITY as int)]->Some_0,
        )
    }

    closed spec fn wf(&self) -> bool {
        &&& 0 < CAPACITY
        &&& self.top < CAPACITY
        &&& self.count@ <= CAPACITY
        &&& forall|k: int|
            0 <= k < CAPACITY ==> ((#[trigger] self.slots@[ring_slot(self.top as int, k, CAPACITY as int)]) is Some
                <==> k < self.count@)
    }

    open spec fn pushed(items: Seq<T>, item: T) -> Seq<T> {
        ring_pushed(items, item, CAPACITY as nat)
    }

    fn push(&mut self, item: T) {
        let ghost old_self = *self;
        self.slots[self.top] = Some(item);
        self.top = if self.top + 1 == CAPACITY { 0 } else { self.top + 1 };
        proof {
            self.count = Ghost(if old_self.count@ < CAPACITY { old_self.count@ + 1 } else { CAPACITY as nat });
            assert forall|k: int| 0 <= k < CAPACITY implies
                #[trigger] ring_slot(self.top as int, k, CAPACITY as int) == if k == 0 {
                    old_self.top as int
                } else {
                    ring_slot(old_self.top as int, k - 1, CAPACITY as int)
                } by {}
            assert forall|k: int| 0 <= k < CAPACITY implies
                ((#[trigger] self.slots@[ring_slot(self.top as int, k, CAPACITY as int)]) is Some
                    <==> k < self.count@) by {
                if k > 0 {
                    assert(ring_slot(self.top as int, k, CAPACITY as int) == ring_slot(old_self.top as int, k - 1, CAPACITY as int));
                    assert(old_self.slots@[ring_slot(old_self.top as int, k - 1, CAPACITY as int)] is Some <==> k - 1 < old_self.count@);
                }
            }
            assert(self.items() =~= ring_pushed(old_self.items(), item, CAPACITY as nat)) by {
                let n = self.count@;
                assert forall|i: int| 0 <= i < n implies #[trigger] self.items()[i] == ring_pushed(old_self.items(), item, CAPACITY as nat)[i] by {
                    let k = n - 1 - i;
                    if k > 0 {
                        assert(ring_slot(self.top as int, k, CAPACITY as int) == ring_slot(old_self.top as int, k - 1, CAPACITY as int));
                    }
                }
            }
        }
    }

    fn pop(&mut self) -> (r: Option<T>) {
        let ghost old_self = *self;
        self.top = if self.top == 0 { CAPACITY - 1 } else { self.top - 1 };
        let output = self.slots[self.top];
        self.slots[self.top] = None;
        proof {
            self.count = Ghost(if old_self.count@ == 0 { 0 } else { (old_self.count@ - 1) as nat });
            assert(ring_slot(old_self.top as int, 0, CAPACITY as int) == self.top);
            assert forall|k: int| 0 <= k < CAPACITY implies
                ((#[trigger] self.slots@[ring_slot(self.top as int, k, CAPACITY as int)]) is Some
                    <==> k < self.count@) by {
                let j = if k == CAPACITY - 1 { 0 } else { k + 1 };
                assert(ring_slot(self.top as int, k, CAPACITY as int) == ring_slot(old_self.top as int, j, CAPACITY as int));
                assert(old_self.slots@[ring_slot(old_self.top as int, j, CAPACITY as int)] is Some <==> j < old_self.count@);
            }
            assert(self.items() =~= popped(old_self.items())) by {
                assert forall|i: int| 0 <= i < self.count@ implies #[trigger] self.items()[i] == popped(old_self.items())[i] by {
                    let k = self.count@ - 1 - i;
                    assert(ring_slot(self.top as int, k, CAPACITY as int) == ring_slot(old_self.top as int, k + 1, CAPACITY as int));
                }
            }
        }
        output
    }
}

impl<const CAPACITY: usize, T: Copy> Default for ArrayStack<CAPACITY, T> {
    /// An empty stack. One of capacity 0 can hold nothing and is not well
    /// formed.
    fn default() -> (r: Self)
        ensures
            CAPACITY > 0 ==> r.wf() && r.items() == Seq::<T>::empty(),
    {
        let r = ArrayStack { slots: [None; CAPACITY], top: 0, count: Ghost(0) };
        assert(r.items() =~= Seq::<T>::empty());
        r
    }
}

impl<const CAPACITY: usize, T: Copy> ArrayStack<CAPACITY, T> {
    pub fn new() -> (r: Self)
        requires
            CAPACITY > 0,
        ensures
            r.wf(),
            r.items() == Seq::<T>::empty(),
    {
        Self::default()
    }
}

/// Pushing onto a growable stack and popping gives back the pushed value and
/// the stack as it was.
pub proof fn lemma_push_then_pop<T>(items: Seq<T>, item: T)
    ensures
        VecStack::<T>::pushed(items, item).last() == item,
        popped(VecStack::<T>::pushed(items, item)) == items,
{
    assert(items.push(item).drop_last() =~= items);
}

/// A growable stack keeps every value pushed onto it, however many.
pub proof fn lemma_growable_keeps_all<T>(values: Seq<T>)
    ensures
        pushed_all::<VecStack<T>>(Seq::empty(), values) == values,
    decreases values.len(),
{
    if values.len() > 0 {
        lemma_growable_keeps_all(values.drop_last());
        assert(values.drop_last().push(values.last()) =~= values);
    }
}

/// A ring stack pushed with a run of values holds the last `CAPACITY` of
/// them, oldest first, so popping gives them back newest first.
pub proof fn lemma_ring_keeps_newest<const CAPACITY: usize, T: Copy>(values: Seq<T>)
    requires
        CAPACITY > 0,
    ensures
        pushed_all::<ArrayStack<CAPACITY, T>>(Seq::empty(), values) == if values.len() <= CAPACITY {
            values
        } else {
            values.subrange(values.len() - CAPACITY, values.len() as int)
        },
    decreases values.len(),
{
    if values.len() > 0 {
        let before = values.drop_last();
        lemma_ring_keeps_newest::<CAPACITY, T>(before);
        if values.len() <= CAPACITY {
            assert(before.push(values.last()) =~= values);
        } else if before.len() <= CAPACITY {
            assert(before.drop_first().push(values.last()) =~= values.subrange(values.len() - CAPACITY, values.len() as int));
        } else {
            let kept = before.subrange(before.len() - CAPACITY, before.len() as int);
            assert(kept.drop_first().push(values.last()) =~= values.subrange(values.len() - CAPACITY, values.len() as int));
        }
    }
}

} // verus!
