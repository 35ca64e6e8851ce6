//! Single pre-allocated bump arena.
//!
//! Every working buffer (activations and KV cache) is carved from one block that the
//! caller provides; nothing grows afterwards. The arena works in units of one element
//! type and hands out disjoint `&mut` sub-slices of the block. Buffers persist for the
//! arena's lifetime: there is no reset.

use vstd::arithmetic::overflow::CheckedUsize;
use vstd::prelude::*;

use crate::error::EngineError;
#[allow(unused_imports)]
use crate::layout::{offset, offset_grows, saturated, total};
use crate::layout::{product, saturate};
#[allow(unused_imports)]
use vstd::layout::size_of;

verus! {

/// `core::mem::take` hands back the value it found at `dest` and leaves there a default of
/// the type.
pub assume_specification<T: Default>[ core::mem::take::<T> ](dest: &mut T) -> (r: T)
    ensures
        r == *old(dest),
        call_ensures(T::default, (), *final(dest)),
;

/// A bump allocator over a borrowed block of `T`.
pub struct Arena<'buf, T> {
    /// The part of the block that was not handed out yet.
    free: &'buf mut [T],
    capacity: usize,
    used: usize,
}

/// Whether every element of `s` is one and the same default value of its type.
pub open spec fn all_default<T: Default>(s: Seq<T>) -> bool {
    exists|d: T| #[trigger]
        call_ensures(T::default, (), d) && forall|i: int| 0 <= i < s.len() ==> s[i] == d
}

impl<'buf, T: Copy + Default> Arena<'buf, T> {
    /// The part of the block that was not handed out yet.
    pub closed spec fn tail(self) -> &'buf mut [T] {
        self.free
    }

    /// Total capacity in elements.
    pub closed spec fn capacity_spec(self) -> nat {
        self.capacity as nat
    }

    /// Elements handed out so far.
    pub closed spec fn used_spec(self) -> nat {
        self.used as nat
    }

    /// What was handed out and what is left make up the block.
    pub open spec fn wf(self) -> bool {
        &&& self.used_spec() + self.tail()@.len() == self.capacity_spec()
        &&& self.capacity_spec() <= usize::MAX
    }

    /// Wrap a pre-allocated block. The arena never grows beyond `buf`.
    pub fn new(buf: &'buf mut [T]) -> (r: Self)
        ensures
            r.wf(),
            r.capacity_spec() == old(buf)@.len(),
            r.used_spec() == 0,
            r.tail()@ == old(buf)@,
            final(r.tail())@ == final(buf)@,
    {
        let capacity: usize = buf.len();
        Arena { free: buf, capacity, used: 0 }
    }

    /// Carve `n` contiguous elements from the arena, each the default of its type.
    ///
    /// Fails with [`EngineError::ArenaOverflow`] if fewer than `n` elements remain, and
    /// then leaves the arena unchanged. Byte counts beyond the machine's range are
    /// reported as the largest one. The carved slice and the rest of the arena are
    /// disjoint: whatever is written through either, the block ends up holding the one
    /// after the other.
    pub fn allocate(&mut self, n: usize) -> (r: Result<&'buf mut [T], EngineError>)
        requires
            old(self).wf(),
        ensures
            final(self).wf(),
            final(self).capacity_spec() == old(self).capacity_spec(),
            match r {
                Ok(s) => {
                    &&& n <= old(self).tail()@.len()
                    &&& s@.len() == n
                    &&& all_default(s@)
                    &&& final(self).used_spec() == old(self).used_spec() + n
                    &&& final(self).tail()@ == old(self).tail()@.skip(n as int)
                    &&& final(old(self).tail())@ == final(s)@ + final(final(self).tail())@
                },
                Err(e) => {
                    &&& n > old(self).tail()@.len()
                    &&& e == EngineError::ArenaOverflow {
                        requested: saturated(n * size_of::<T>()),
                        available: saturated(old(self).tail()@.len() * size_of::<T>() as int),
                    }
                    &&& final(self).used_spec() == old(self).used_spec()
                    &&& final(self).tail()@ == old(self).tail()@
                    &&& final(old(self).tail())@ == final(final(self).tail())@
                },
            },
    {
        let free = core::mem::take(&mut self.free);
        let size: usize = core::mem::size_of::<T>();
        if n > free.len() {
            let requested: usize = saturate(&product(n, size));
            let available: usize = saturate(&product(free.len(), size));
            self.free = free;
            return Err(EngineError::ArenaOverflow { requested, available });
        }
        let (head, tail) = free.split_at_mut(n);
        self.free = tail;
        self.used = self.used + n;
        let zero: T = T::default();
        let mut i: usize = 0;
        let ghost promised = final(head)@;
        while i < n
            invariant
                i <= n,
                head@.len() == n,
                final(head)@ == promised,
                forall|j: int| 0 <= j < i ==> head@[j] == zero,
            decreases n - i,
        {
            head[i] = zero;
            i = i + 1;
        }
        proof {
            assert(call_ensures(T::default, (), zero));
        }
        Ok(head)
    }

    /// Total capacity in elements.
    pub fn capacity(&self) -> (r: usize)
        ensures
            r == self.capacity_spec(),
    {
        self.capacity
    }

    /// Elements handed out so far.
    pub fn used(&self) -> (r: usize)
        ensures
            r == self.used_spec(),
    {
        self.used
    }

    /// Elements still available.
    pub fn remaining(&self) -> (r: usize)
        requires
            self.wf(),
        ensures
            r == self.capacity_spec() - self.used_spec(),
            r == self.tail()@.len(),
    {
        self.capacity - self.used
    }

    /// Peak usage in bytes.
    pub fn peak_bytes(&self) -> (r: usize)
        requires
            self.used_spec() * size_of::<T>() <= usize::MAX,
        ensures
            r == self.used_spec() * size_of::<T>(),
    {
        self.used * core::mem::size_of::<T>()
    }
}

/// What goes wrong when buffers of the given lengths are carved in order from `room`
/// elements: the first that does not fit overflows the arena, and the ones before it
/// stay `taken`.
pub open spec fn carving_error<T>(
    e: EngineError,
    lens: Seq<nat>,
    room: nat,
    taken: int,
) -> bool {
    exists|i: int|
        0 <= i < lens.len() && taken == #[trigger] offset(lens, i) && taken <= room && taken
            + lens[i] > room && e == (EngineError::ArenaOverflow {
            requested: saturated(lens[i] * size_of::<T>() as int),
            available: saturated((room - taken) * size_of::<T>()),
        })
}

/// Carve buffer `i` of a run of buffers whose lengths are `lens`, of which the ones
/// before it were already carved from an arena that began with `room` elements.
pub(crate) fn carve<'buf, T: Copy + Default>(
    arena: &mut Arena<'buf, T>,
    n: &CheckedUsize,
    Ghost(lens): Ghost<Seq<nat>>,
    Ghost(i): Ghost<int>,
    Ghost(room): Ghost<nat>,
) -> (r: Result<&'buf mut [T], EngineError>)
    requires
        old(arena).wf(),
        0 <= i < lens.len(),
        n@ == lens[i],
        offset(lens, i) <= room,
        old(arena).tail()@.len() == room - offset(lens, i),
    ensures
        final(arena).wf(),
        final(arena).capacity_spec() == old(arena).capacity_spec(),
        match r {
            Ok(s) => {
                &&& offset(lens, i + 1) <= room
                &&& s@.len() == lens[i]
                &&& all_default(s@)
                &&& final(arena).used_spec() == old(arena).used_spec() + lens[i]
                &&& final(arena).tail()@.len() == room - offset(lens, i + 1)
                &&& final(old(arena).tail())@ == final(s)@ + final(final(arena).tail())@
            },
            Err(e) => {
                &&& total(lens) > room
                &&& final(arena).used_spec() == old(arena).used_spec()
                &&& carving_error::<T>(e, lens, room, offset(lens, i) as int)
            },
        },
{
    proof {
        offset_grows(lens, i + 1, lens.len() as int);
        assert(offset(lens, i + 1) == offset(lens, i) + lens[i]);
    }
    match n.to_option() {
        Some(v) => arena.allocate(v),
        None => {
            let size: usize = core::mem::size_of::<T>();
            let available: usize = saturate(&product(arena.remaining(), size));
            Err(EngineError::ArenaOverflow { requested: saturate(&n.mul_value(size)), available })
        },
    }
}

} // verus!
