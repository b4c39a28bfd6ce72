//! A growable buffer of equally sized elements that knows only their layout.

use crate::component::Layout;
use vstd::prelude::*;

verus! {

/// The bytes of element `i` in a packed sequence of elements of `size` bytes.
pub open spec fn chunk(data: Seq<u8>, size: int, i: int) -> Seq<u8> {
    data.subrange(i * size, i * size + size)
}

/// The first `n` elements of a packed sequence of elements of `size` bytes.
pub open spec fn elements(data: Seq<u8>, size: int, n: nat) -> Seq<Seq<u8>> {
    Seq::new(n, |i: int| chunk(data, size, i))
}

proof fn lemma_chunk_range(i: int, n: int, size: int)
    requires
        0 <= i < n,
        0 <= size,
    ensures
        0 <= i * size,
        i * size + size <= n * size,
{
    assert(0 <= i * size && i * size + size <= n * size) by (nonlinear_arith)
        requires
            0 <= i < n,
            0 <= size,
    ;
}

proof fn lemma_chunk_order(i: int, j: int, size: int)
    requires
        0 <= i < j,
        0 <= size,
    ensures
        i * size + size <= j * size,
{
    assert(i * size + size <= j * size) by (nonlinear_arith)
        requires
            0 <= i < j,
            0 <= size,
    ;
}

/// The capacity that a full buffer of capacity `capacity` grows to.
pub open spec fn grown(capacity: nat) -> nat {
    if capacity == 0 {
        1
    } else {
        2 * capacity
    }
}

/// A contiguous buffer of elements of one layout. Elements are plain bytes
/// to the buffer. Where a destructor is registered, the buffer sets aside
/// each element that it drops, for the caller to take and run the
/// destructor on. The bytes behind the last live element are room for more.
pub struct TypeErasedBuffer {
    layout: Layout,
    needs_drop: bool,
    data: Vec<u8>,
    len: usize,
    capacity: usize,
    destructed: Vec<Vec<u8>>,
}

impl View for TypeErasedBuffer {
    type V = Seq<Seq<u8>>;

    /// The live elements, in order, each as its bytes.
    closed spec fn view(&self) -> Seq<Seq<u8>> {
        elements(self.data@, self.layout.size as int, self.len as nat)
    }
}

impl TypeErasedBuffer {
    /// The allocation has room for `capacity` elements, packed, and the
    /// live elements are the first of them. Elements of no size need no
    /// room: for them the capacity is the largest there is.
    pub closed spec fn wf(&self) -> bool {
        &&& self.data@.len() == self.capacity * self.layout.size
        &&& self.len <= self.capacity
        &&& self.layout.size == 0 ==> self.capacity == usize::MAX
    }

    /// How many elements the allocation has room for.
    pub closed spec fn spec_capacity(&self) -> nat {
        self.capacity as nat
    }

    /// The capacity of a buffer that has allocated nothing.
    pub open spec fn initial_capacity(layout: Layout) -> nat {
        if layout.size == 0 {
            usize::MAX as nat
        } else {
            0
        }
    }

    pub closed spec fn layout(&self) -> Layout {
        self.layout
    }

    /// Whether a destructor is registered for the elements.
    pub closed spec fn has_destructor(&self) -> bool {
        self.needs_drop
    }

    /// The elements dropped and not yet taken for destruction, oldest
    /// first.
    pub closed spec fn destructed(&self) -> Seq<Seq<u8>> {
        Seq::new(self.destructed@.len(), |i: int| self.destructed@[i]@)
    }

    /// What the destructor log becomes when `gone` are dropped.
    pub open spec fn log_after(&self, gone: Seq<Seq<u8>>) -> Seq<Seq<u8>> {
        if self.has_destructor() {
            self.destructed() + gone
        } else {
            self.destructed()
        }
    }

    pub proof fn lemma_view(&self)
        requires
            self.wf(),
        ensures
            self@.len() <= self.spec_capacity(),
            forall|i: int| 0 <= i < self@.len() ==> (#[trigger] self@[i]).len() == self.layout().size,
    {
        assert forall|i: int| 0 <= i < self@.len() implies (#[trigger] self@[i]).len()
            == self.layout().size by {
            lemma_chunk_range(i, self.capacity as int, self.layout.size as int);
        }
    }

    pub fn new(layout: Layout, needs_drop: bool) -> (buffer: TypeErasedBuffer)
        ensures
            buffer.wf(),
            buffer@ == Seq::<Seq<u8>>::empty(),
            buffer.layout() == layout,
            buffer.has_destructor() == needs_drop,
            buffer.destructed() == Seq::<Seq<u8>>::empty(),
            buffer.spec_capacity() == Self::initial_capacity(layout),
    {
        let capacity: usize = if layout.size == 0 {
            usize::MAX
        } else {
            0
        };
        let buffer = TypeErasedBuffer {
            layout,
            needs_drop,
            data: Vec::new(),
            len: 0,
            capacity,
            destructed: Vec::new(),
        };
        assert(buffer@ =~= Seq::<Seq<u8>>::empty());
        assert(buffer.destructed() =~= Seq::<Seq<u8>>::empty());
        assert(capacity * layout.size == 0) by (nonlinear_arith)
            requires
                capacity == 0 || layout.size == 0,
        ;
        buffer
    }

    pub fn capacity(&self) -> (n: usize)
        ensures
            n == self.spec_capacity(),
    {
        self.capacity
    }

    pub fn len(&self) -> (n: usize)
        ensures
            n == self@.len(),
    {
        self.len
    }

    pub fn is_empty(&self) -> (b: bool)
        ensures
            b == (self@.len() == 0),
    {
        self.len == 0
    }

    pub fn element_layout(&self) -> (layout: Layout)
        ensures
            layout == self.layout(),
    {
        self.layout
    }

    pub fn needs_drop(&self) -> (b: bool)
        ensures
            b == self.has_destructor(),
    {
        self.needs_drop
    }

    /// Appends one element, copied from `bytes`. A full buffer first grows:
    /// to room for one element where it had none, else to twice its room.
    pub fn push(&mut self, bytes: &[u8])
        requires
            old(self).wf(),
            bytes@.len() == old(self).layout().size,
            old(self)@.len() < usize::MAX,
        ensures
            final(self).wf(),
            final(self)@ == old(self)@.push(bytes@),
            final(self).layout() == old(self).layout(),
            final(self).has_destructor() == old(self).has_destructor(),
            final(self).destructed() == old(self).destructed(),
            final(self).spec_capacity() == (if old(self)@.len() < old(self).spec_capacity() {
                old(self).spec_capacity()
            } else {
                grown(old(self).spec_capacity())
            }),
    {
        let size: usize = self.layout.size;
        let ghost before = self.data@;
        let ghost n = self.len as int;
        let ghost room = self.capacity as int;
        if self.len == self.capacity {
            let grow: usize = if self.capacity == 0 {
                1
            } else {
                self.capacity
            };
            let mut added: usize = 0;
            while added < grow
                invariant
                    size >= 1,
                    size == self.layout.size,
                    added <= grow,
                    grow == (if room == 0 {
                        1int
                    } else {
                        room
                    }),
                    self.capacity == room + added,
                    self.data@.len() == self.capacity * size,
                    before.len() <= self.data@.len(),
                    forall|k: int| 0 <= k < before.len() ==> self.data@[k] == before[k],
                    before.len() == room * size,
                    self.len == n,
                    self.layout == old(self).layout,
                    self.needs_drop == old(self).needs_drop,
                    self.destructed == old(self).destructed,
                decreases grow - added,
            {
                let ghost filled = self.data@;
                let mut j: usize = 0;
                while j < size
                    invariant
                        j <= size,
                        self.data@.len() == filled.len() + j,
                        forall|k: int| 0 <= k < filled.len() ==> self.data@[k] == filled[k],
                        self.capacity == room + added,
                        self.len == n,
                        self.layout == old(self).layout,
                        self.needs_drop == old(self).needs_drop,
                        self.destructed == old(self).destructed,
                    decreases size - j,
                {
                    self.data.push(0);
                    j += 1;
                }
                let total: usize = self.data.len();
                proof {
                    assert((self.capacity + 1) * size == self.capacity * size + size
                        && self.capacity + 1 <= (self.capacity + 1) * size) by (nonlinear_arith)
                        requires
                            size >= 1,
                            self.capacity >= 0,
                    ;
                }
                self.capacity = self.capacity + 1;
                added += 1;
            }
        }
        let total: usize = self.data.len();
        proof {
            lemma_chunk_range(n, self.capacity as int, size as int);
        }
        let base: usize = self.len * size;
        let ghost grown_data = self.data@;
        let mut j: usize = 0;
        while j < size
            invariant
                j <= size,
                size == self.layout.size,
                bytes@.len() == size,
                base + size <= total,
                total == grown_data.len(),
                self.data@.len() == total,
                self.len == n,
                self.capacity == (if n < room {
                    room
                } else {
                    grown(room as nat) as int
                }),
                self.layout == old(self).layout,
                self.needs_drop == old(self).needs_drop,
                self.destructed == old(self).destructed,
                forall|k: int|
                    0 <= k < total ==> self.data@[k] == (if base <= k < base + j {
                        bytes@[k - base]
                    } else {
                        grown_data[k]
                    }),
            decreases size - j,
        {
            self.data.set(base + j, bytes[j]);
            j += 1;
        }
        self.len = self.len + 1;
        proof {
            assert forall|i: int| 0 <= i < n + 1 implies chunk(self.data@, size as int, i) == old(
                self,
            )@.push(bytes@)[i] by {
                lemma_chunk_range(i, self.capacity as int, size as int);
                if i < n {
                    lemma_chunk_range(i, room, size as int);
                    lemma_chunk_order(i, n, size as int);
                    assert(chunk(self.data@, size as int, i) =~= chunk(before, size as int, i));
                } else {
                    assert(chunk(self.data@, size as int, i) =~= bytes@);
                }
            }
            assert(self@ =~= old(self)@.push(bytes@));
        }
    }

    /// The bytes of element `index`, or `None` past the end.
    pub fn get(&self, index: usize) -> (bytes: Option<&[u8]>)
        requires
            self.wf(),
        ensures
            bytes.is_some() == (index < self@.len()),
            index < self@.len() ==> bytes.unwrap()@ == self@[index as int],
    {
        if index < self.len {
            let total: usize = self.data.len();
            proof {
                lemma_chunk_range(index as int, self.capacity as int, self.layout.size as int);
            }
            let start: usize = index * self.layout.size;
            Some(vstd::slice::slice_subrange(self.data.as_slice(), start, start + self.layout.size))
        } else {
            None
        }
    }

    /// The bytes of element `index`, for writing, or `None` past the end.
    /// What is written reaches that element alone. A slice keeps its
    /// length, and the change to the buffer is stated for writes that do.
    pub fn get_mut(&mut self, index: usize) -> (bytes: Option<&mut [u8]>)
        requires
            old(self).wf(),
        ensures
            bytes.is_some() == (index < old(self)@.len()),
            bytes.is_none() ==> *final(self) == *old(self),
            bytes.is_some() ==> {
                &&& bytes.unwrap()@ == old(self)@[index as int]
                &&& final(bytes.unwrap())@.len() == bytes.unwrap()@.len() ==> final(self).wf()
                    && final(self)@ == old(self)@.update(index as int, final(bytes.unwrap())@)
                &&& final(self).layout() == old(self).layout()
                &&& final(self).has_destructor() == old(self).has_destructor()
                &&& final(self).destructed() == old(self).destructed()
                &&& final(self).spec_capacity() == old(self).spec_capacity()
            },
    {
        if index < self.len {
            let total: usize = self.data.len();
            let size: usize = self.layout.size;
            let ghost before = self.data@;
            let ghost n = self.len as int;
            proof {
                lemma_chunk_range(index as int, self.capacity as int, size as int);
            }
            let start: usize = index * size;
            let slice = self.data.as_mut_slice();
            let (low, rest) = slice.split_at_mut(start);
            let ghost head = low@;
            let (element, high) = rest.split_at_mut(size);
            let ghost tail = high@;
            proof {
                assert(element@ =~= chunk(before, size as int, index as int));
                assert(head =~= before.subrange(0, start as int));
                assert(tail =~= before.subrange(start + size, before.len() as int));
                assert forall|written: Seq<u8>| written.len() == size implies #[trigger] elements(
                    head + (written + tail),
                    old(self).layout.size as int,
                    old(self).len as nat,
                ) == old(self)@.update(index as int, written) by {
                    let after = head + (written + tail);
                    assert forall|c: int| 0 <= c < n implies chunk(after, size as int, c) == old(
                        self,
                    )@.update(index as int, written)[c] by {
                        lemma_chunk_range(c, self.capacity as int, size as int);
                        if c < index {
                            lemma_chunk_order(c, index as int, size as int);
                            assert(chunk(after, size as int, c) =~= chunk(before, size as int, c));
                        } else if c > index {
                            lemma_chunk_order(index as int, c, size as int);
                            assert(chunk(after, size as int, c) =~= chunk(before, size as int, c));
                        } else {
                            assert(chunk(after, size as int, c) =~= written);
                        }
                    }
                    assert(elements(after, size as int, n as nat) =~= old(self)@.update(
                        index as int,
                        written,
                    ));
                }
            }
            Some(element)
        } else {
            None
        }
    }

    /// Overwrites element `index` with `bytes` and hands the old bytes to
    /// the caller, undestructed.
    pub fn replace(&mut self, index: usize, bytes: &[u8]) -> (previous: Vec<u8>)
        requires
            old(self).wf(),
            index < old(self)@.len(),
            bytes@.len() == old(self).layout().size,
        ensures
            final(self).wf(),
            previous@ == old(self)@[index as int],
            final(self)@ == old(self)@.update(index as int, bytes@),
            final(self).layout() == old(self).layout(),
            final(self).has_destructor() == old(self).has_destructor(),
            final(self).destructed() == old(self).destructed(),
            final(self).spec_capacity() == old(self).spec_capacity(),
    {
        let size: usize = self.layout.size;
        let total: usize = self.data.len();
        let ghost before = self.data@;
        let ghost n = self.len as int;
        proof {
            lemma_chunk_range(index as int, self.capacity as int, size as int);
        }
        let base: usize = index * size;
        let mut previous: Vec<u8> = Vec::with_capacity(size);
        let mut j: usize = 0;
        while j < size
            invariant
                j <= size,
                base + size <= before.len(),
                bytes@.len() == size,
                self.data@.len() == before.len(),
                before.len() == total,
                self.len == n,
                self.capacity == old(self).capacity,
                self.layout == old(self).layout,
                self.needs_drop == old(self).needs_drop,
                self.destructed == old(self).destructed,
                previous@ == before.subrange(base as int, base + j),
                forall|k: int|
                    0 <= k < before.len() ==> self.data@[k] == (if base <= k < base + j {
                        bytes@[k - base]
                    } else {
                        before[k]
                    }),
            decreases size - j,
        {
            let byte: u8 = self.data[base + j];
            previous.push(byte);
            self.data.set(base + j, bytes[j]);
            assert(previous@ =~= before.subrange(base as int, base + j + 1));
            j += 1;
        }
        proof {
            assert forall|c: int| 0 <= c < n implies chunk(self.data@, size as int, c) == old(
                self,
            )@.update(index as int, bytes@)[c] by {
                lemma_chunk_range(c, self.capacity as int, size as int);
                if c < index {
                    lemma_chunk_order(c, index as int, size as int);
                    assert(chunk(self.data@, size as int, c) =~= chunk(before, size as int, c));
                } else if c > index {
                    lemma_chunk_order(index as int, c, size as int);
                    assert(chunk(self.data@, size as int, c) =~= chunk(before, size as int, c));
                } else {
                    assert(chunk(self.data@, size as int, c) =~= bytes@);
                }
            }
            assert(self@ =~= old(self)@.update(index as int, bytes@));
        }
        previous
    }

    /// Removes element `index` by moving the last element into its place,
    /// and hands its bytes to the caller. The destructor is not run: the
    /// caller owns the bytes.
    pub fn swap_remove(&mut self, index: usize) -> (removed: Vec<u8>)
        requires
            old(self).wf(),
            index < old(self)@.len(),
        ensures
            final(self).wf(),
            removed@ == old(self)@[index as int],
            final(self)@ == old(self)@.update(index as int, old(self)@.last()).drop_last(),
            final(self).layout() == old(self).layout(),
            final(self).has_destructor() == old(self).has_destructor(),
            final(self).destructed() == old(self).destructed(),
            final(self).spec_capacity() == old(self).spec_capacity(),
    {
        let size: usize = self.layout.size;
        let last: usize = self.len - 1;
        let total: usize = self.data.len();
        let ghost before = self.data@;
        let ghost n = self.len as int;
        proof {
            lemma_chunk_range(index as int, self.capacity as int, size as int);
            lemma_chunk_range(last as int, self.capacity as int, size as int);
            if index < last {
                lemma_chunk_order(index as int, last as int, size as int);
            }
        }
        let base: usize = index * size;
        let tail: usize = last * size;
        let mut removed: Vec<u8> = Vec::with_capacity(size);
        let mut j: usize = 0;
        while j < size
            invariant
                j <= size,
                tail + size <= before.len(),
                base == tail || base + size <= tail,
                self.data@.len() == before.len(),
                before.len() == total,
                self.len == n,
                self.capacity == old(self).capacity,
                self.layout == old(self).layout,
                self.needs_drop == old(self).needs_drop,
                self.destructed == old(self).destructed,
                removed@ == before.subrange(base as int, base + j),
                forall|k: int|
                    0 <= k < before.len() ==> self.data@[k] == (if base <= k < base + j {
                        before[tail + (k - base)]
                    } else {
                        before[k]
                    }),
            decreases size - j,
        {
            let moved: u8 = self.data[tail + j];
            let byte: u8 = self.data[base + j];
            removed.push(byte);
            self.data.set(base + j, moved);
            assert(removed@ =~= before.subrange(base as int, base + j + 1));
            j += 1;
        }
        self.len = last;
        proof {
            let target = old(self)@.update(index as int, old(self)@.last()).drop_last();
            assert forall|c: int| 0 <= c < last implies chunk(self.data@, size as int, c)
                == target[c] by {
                lemma_chunk_range(c, self.capacity as int, size as int);
                if c < index {
                    lemma_chunk_order(c, index as int, size as int);
                    assert(chunk(self.data@, size as int, c) =~= chunk(before, size as int, c));
                } else if c > index {
                    lemma_chunk_order(index as int, c, size as int);
                    assert(chunk(self.data@, size as int, c) =~= chunk(before, size as int, c));
                } else {
                    assert(chunk(self.data@, size as int, c) =~= chunk(
                        before,
                        size as int,
                        last as int,
                    ));
                }
            }
            assert(self@ =~= target);
        }
        removed
    }

    /// Removes element `index` as `swap_remove` does and destructs it.
    pub fn swap_remove_and_drop(&mut self, index: usize)
        requires
            old(self).wf(),
            index < old(self)@.len(),
        ensures
            final(self).wf(),
            final(self)@ == old(self)@.update(index as int, old(self)@.last()).drop_last(),
            final(self).layout() == old(self).layout(),
            final(self).has_destructor() == old(self).has_destructor(),
            final(self).destructed() == old(self).log_after(seq![old(self)@[index as int]]),
            final(self).spec_capacity() == old(self).spec_capacity(),
    {
        let removed = self.swap_remove(index);
        if self.needs_drop {
            self.destructed.push(removed);
            assert(self.destructed() =~= old(self).destructed() + seq![old(self)@[index as int]]);
        }
    }

    /// Overwrites element `index` with `bytes` and destructs the old value.
    pub fn replace_and_drop(&mut self, index: usize, bytes: &[u8])
        requires
            old(self).wf(),
            index < old(self)@.len(),
            bytes@.len() == old(self).layout().size,
        ensures
            final(self).wf(),
            final(self)@ == old(self)@.update(index as int, bytes@),
            final(self).layout() == old(self).layout(),
            final(self).has_destructor() == old(self).has_destructor(),
            final(self).destructed() == old(self).log_after(seq![old(self)@[index as int]]),
            final(self).spec_capacity() == old(self).spec_capacity(),
    {
        let previous = self.replace(index, bytes);
        if self.needs_drop {
            self.destructed.push(previous);
            assert(self.destructed() =~= old(self).destructed() + seq![old(self)@[index as int]]);
        }
    }

    /// Drops every live element, in order, and frees their memory. Returns
    /// how many elements were set aside for destruction.
    pub fn clear(&mut self) -> (calls: usize)
        requires
            old(self).wf(),
        ensures
            final(self).wf(),
            final(self)@ == Seq::<Seq<u8>>::empty(),
            final(self).layout() == old(self).layout(),
            final(self).has_destructor() == old(self).has_destructor(),
            final(self).destructed() == old(self).log_after(old(self)@),
            final(self).spec_capacity() == Self::initial_capacity(old(self).layout()),
            calls == (if old(self).has_destructor() {
                old(self)@.len()
            } else {
                0
            }),
    {
        let calls: usize = if self.needs_drop {
            self.len
        } else {
            0
        };
        if self.needs_drop {
            let mut i: usize = 0;
            while i < self.len
                invariant
                    i <= self.len,
                    self.wf(),
                    self.len == old(self).len,
                    self.layout == old(self).layout,
                    self.needs_drop == old(self).needs_drop,
                    self@ == old(self)@,
                    self.destructed() == old(self).destructed() + old(self)@.subrange(0, i as int),
                decreases self.len - i,
            {
                let ghost held = self.destructed();
                let element: Vec<u8> = match self.get(i) {
                    Some(bytes) => vstd::slice::slice_to_vec(bytes),
                    None => Vec::new(),
                };
                self.destructed.push(element);
                proof {
                    assert(self@ =~= old(self)@);
                    assert(self.destructed() =~= held.push(old(self)@[i as int]));
                    assert(held.push(old(self)@[i as int]) =~= old(self).destructed() + old(
                        self,
                    )@.subrange(0, i + 1));
                }
                i += 1;
            }
            assert(old(self)@.subrange(0, i as int) =~= old(self)@);
        }
        let ghost log = self.destructed();
        self.data = Vec::new();
        self.len = 0;
        self.capacity = if self.layout.size == 0 {
            usize::MAX
        } else {
            0
        };
        assert(self@ =~= Seq::<Seq<u8>>::empty());
        assert(self.destructed() =~= log);
        assert(self.capacity * self.layout.size == 0) by (nonlinear_arith)
            requires
                self.capacity == 0 || self.layout.size == 0,
        ;
        calls
    }

    /// Hands over the elements that were dropped since the last call,
    /// oldest first: the destructor is due once on each of them.
    pub fn take_destructed(&mut self) -> (gone: Vec<Vec<u8>>)
        requires
            old(self).wf(),
        ensures
            final(self).wf(),
            gone@.len() == old(self).destructed().len(),
            forall|i: int| 0 <= i < gone@.len() ==> (#[trigger] gone@[i])@ == old(self).destructed()[i],
            final(self).destructed() == Seq::<Seq<u8>>::empty(),
            final(self)@ == old(self)@,
            final(self).layout() == old(self).layout(),
            final(self).has_destructor() == old(self).has_destructor(),
            final(self).spec_capacity() == old(self).spec_capacity(),
    {
        let mut gone: Vec<Vec<u8>> = Vec::new();
        core::mem::swap(&mut self.destructed, &mut gone);
        assert(self.destructed() =~= Seq::<Seq<u8>>::empty());
        gone
    }
}

} // verus!
