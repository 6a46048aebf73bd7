//! The registry of emitters that an actor keeps for a kind of message:
//! emitters are registered under identifiers from 1 to the capacity, reused
//! round-robin once they are released.
use std::collections::HashMap;
use vstd::prelude::*;

verus! {

broadcast use vstd::std_specs::hash::group_hash_axioms;

/// The capacity of a registry made by `new`.
pub const DEFAULT_CAPACITY: usize = 32;

/// Emitters by identifier.
pub struct EmitterRegistry<E> {
    emitters: HashMap<usize, E>,
    capacity: usize,
    next_id: usize,
}

impl<E> View for EmitterRegistry<E> {
    type V = Map<usize, E>;

    closed spec fn view(&self) -> Map<usize, E> {
        self.emitters@
    }
}

impl<E> EmitterRegistry<E> {
    /// The number of emitters the registry can hold.
    pub closed spec fn spec_capacity(&self) -> nat {
        self.capacity as nat
    }

    /// The identifier that the next registration tries first.
    pub closed spec fn spec_next_id(&self) -> nat {
        self.next_id as nat
    }

    /// Whether the registry holds at most its capacity of emitters, under
    /// identifiers from 1 to the capacity, and the next identifier to try
    /// lies in that range.
    pub closed spec fn wf(&self) -> bool {
        &&& self.capacity < usize::MAX
        &&& self.emitters@.len() <= self.capacity
        &&& forall|id: usize| #[trigger] self.emitters@.contains_key(id) ==> 1 <= id <= self.capacity
        &&& (self.capacity > 0 ==> 1 <= self.next_id <= self.capacity)
    }

    /// A registry of the default capacity.
    pub fn new() -> (r: Self)
        ensures
            r.wf(),
            r@ == Map::<usize, E>::empty(),
            r.spec_capacity() == DEFAULT_CAPACITY,
            r.spec_next_id() == 1,
    {
        Self::with_capacity(DEFAULT_CAPACITY)
    }

    /// A registry of the given capacity.
    pub fn with_capacity(capacity: usize) -> (r: Self)
        requires
            capacity < usize::MAX,
        ensures
            r.wf(),
            r@ == Map::<usize, E>::empty(),
            r.spec_capacity() == capacity,
            r.spec_next_id() == 1,
    {
        EmitterRegistry { emitters: HashMap::with_capacity(capacity), capacity, next_id: 1 }
    }

    /// The registered emitters by identifier.
    pub fn emitters(&self) -> (r: &HashMap<usize, E>)
        ensures
            r@ == self@,
    {
        &self.emitters
    }

    /// The number of emitters the registry can hold.
    pub fn capacity(&self) -> (r: usize)
        ensures
            r == self.spec_capacity(),
    {
        self.capacity
    }

    /// Whether the registry holds as many emitters as it can.
    pub fn is_full(&self) -> (r: bool)
        requires
            self.wf(),
        ensures
            r == (self@.len() == self.spec_capacity()),
    {
        self.emitters.len() == self.capacity
    }

    /// An identifier that no emitter holds, the first free one from the
    /// next identifier on, round-robin.
    fn unique_id(&mut self) -> (id: usize)
        requires
            old(self).wf(),
            old(self)@.len() < old(self).spec_capacity(),
        ensures
            final(self).wf(),
            final(self)@ == old(self)@,
            final(self).spec_capacity() == old(self).spec_capacity(),
            1 <= id <= old(self).spec_capacity(),
            !old(self)@.contains_key(id),
            id == first_free(old(self)@, old(self).spec_capacity() as int, old(self).spec_next_id() as int, old(self).spec_capacity()),
            final(self).spec_next_id() == succ_id(id as int, old(self).spec_capacity() as int),
    {
        let ghost free = lemma_free_id_exists(self@, self.capacity as int);
        let ghost start = self.next_id as int;
        let ghost cap = self.capacity as int;
        let ghost m = self@;
        let ghost mut steps: nat = 0;
        let limit = self.capacity + 1;
        loop
            invariant
                self.wf(),
                self@ == old(self)@,
                m == old(self)@,
                self.spec_capacity() == old(self).spec_capacity(),
                cap == self.capacity,
                start == old(self).next_id,
                limit == self.capacity + 1,
                1 <= free <= self.capacity,
                1 <= self.next_id <= self.capacity,
                !self@.contains_key(free),
                steps + dist_to(self.next_id as int, free as int, cap) == dist_to(start, free as int, cap),
                first_free(m, cap, start, cap as nat) == first_free(m, cap, self.next_id as int, (cap - steps) as nat),
            decreases dist_to(self.next_id as int, free as int, cap),
        {
            let id = self.next_id;
            self.next_id = self.next_id + 1;
            if self.next_id == limit {
                self.next_id = 1;
            }
            assert(self.next_id as int == succ_id(id as int, cap));
            if !self.emitters.contains_key(&id) {
                assert(cap - steps > 0);
                return id;
            }
            proof {
                assert(id != free);
                assert(cap - steps > 0);
                assert(first_free(m, cap, id as int, (cap - steps) as nat) == first_free(
                    m,
                    cap,
                    succ_id(id as int, cap),
                    (cap - steps - 1) as nat,
                ));
                steps = steps + 1;
            }
        }
    }

    /// Registers an emitter under a free identifier, which it returns; a
    /// full registry registers nothing and returns 0.
    pub fn register(&mut self, emitter: E) -> (id: usize)
        requires
            old(self).wf(),
        ensures
            final(self).wf(),
            final(self).spec_capacity() == old(self).spec_capacity(),
            old(self)@.len() == old(self).spec_capacity() ==> id == 0 && final(self)@ == old(self)@
                && final(self).spec_next_id() == old(self).spec_next_id(),
            old(self)@.len() < old(self).spec_capacity() ==> {
                &&& 1 <= id <= old(self).spec_capacity()
                &&& !old(self)@.contains_key(id)
                &&& final(self)@ == old(self)@.insert(id, emitter)
                &&& id == first_free(
                    old(self)@,
                    old(self).spec_capacity() as int,
                    old(self).spec_next_id() as int,
                    old(self).spec_capacity(),
                )
                &&& final(self).spec_next_id() == succ_id(id as int, old(self).spec_capacity() as int)
            },
    {
        if self.is_full() {
            return 0;
        }
        let id = self.unique_id();
        self.emitters.insert(id, emitter);
        proof {
            assert(self@.dom() == old(self)@.dom().insert(id));
        }
        id
    }

    /// Unregisters the emitter of an identifier.
    pub fn unregister(&mut self, id: usize)
        requires
            old(self).wf(),
            old(self)@.contains_key(id),
        ensures
            final(self).wf(),
            final(self).spec_capacity() == old(self).spec_capacity(),
            final(self)@ == old(self)@.remove(id),
            final(self).spec_next_id() == old(self).spec_next_id(),
    {
        self.emitters.remove(&id);
    }
}

impl<E> Default for EmitterRegistry<E> {
    /// A registry of the default capacity.
    fn default() -> (r: Self)
        ensures
            r.wf(),
            r@ == Map::<usize, E>::empty(),
            r.spec_capacity() == DEFAULT_CAPACITY,
    {
        Self::new()
    }
}

/// The identifier after `id`, round-robin from 1 to the capacity.
pub open spec fn succ_id(id: int, capacity: int) -> int {
    if id == capacity {
        1
    } else {
        id + 1
    }
}

/// The first identifier, from `from` on, round-robin, that no emitter
/// holds, looking at `k` identifiers at most.
pub open spec fn first_free<E>(m: Map<usize, E>, capacity: int, from: int, k: nat) -> int
    decreases k,
{
    if k == 0 || !m.contains_key(from as usize) {
        from
    } else {
        first_free(m, capacity, succ_id(from, capacity), (k - 1) as nat)
    }
}

/// How many steps round-robin lead from `from` to `to`.
pub open spec fn dist_to(from: int, to: int, capacity: int) -> int {
    if from <= to {
        to - from
    } else {
        to + capacity - from
    }
}

/// On a registry that holds exactly the identifiers 1 to `k` and tries
/// `k + 1` next: below the capacity, a registration takes `k + 1`, leaves
/// the registry holding exactly 1 to `k + 1` and tries `k + 2` next (1 after
/// the capacity); at the capacity the registry is full, and a registration
/// gives 0.  So registrations on a new registry of capacity `c` take 1, 2,
/// ..., `c` in turn, and then 0.
pub proof fn lemma_register_in_turn<E>(m: Map<usize, E>, capacity: int, k: int, emitter: E)
    requires
        0 <= k <= capacity < usize::MAX,
        m.dom().finite(),
        forall|id: usize| #[trigger] m.contains_key(id) <==> 1 <= id <= k,
    ensures
        m.len() == k,
        k < capacity ==> first_free(m, capacity, k + 1, capacity as nat) == k + 1,
        k < capacity ==> succ_id(k + 1, capacity) == if k + 1 == capacity {
            1
        } else {
            k + 2
        },
        k < capacity ==> forall|id: usize| #[trigger] m.insert((k + 1) as usize, emitter).contains_key(id) <==> 1
            <= id <= k + 1,
{
    let r = vstd::set_lib::set_int_range(1, k + 1);
    vstd::set_lib::lemma_int_range(1, k + 1);
    let f = |id: usize| id as int;
    let mapped = m.dom().map(f);
    assert(mapped =~= r) by {
        assert forall|x: int| r.contains(x) implies mapped.contains(x) by {
            let id = x as usize;
            assert(m.contains_key(id));
            assert(f(id) == x);
        }
    }
    assert(vstd::relations::injective_on(f, m.dom()));
    vstd::set_lib::lemma_map_size(m.dom(), mapped, f);
    if k < capacity {
        assert(!m.contains_key((k + 1) as usize));
    }
}

/// A registry below its capacity has a free identifier.
proof fn lemma_free_id_exists<E>(m: Map<usize, E>, capacity: int) -> (free: usize)
    requires
        m.dom().finite(),
        m.len() < capacity <= usize::MAX,
        forall|id: usize| #[trigger] m.contains_key(id) ==> 1 <= id <= capacity,
    ensures
        1 <= free <= capacity,
        !m.contains_key(free),
{
    if forall|id: usize| 1 <= id <= capacity ==> #[trigger] m.contains_key(id) {
        let r = vstd::set_lib::set_int_range(1, capacity + 1);
        vstd::set_lib::lemma_int_range(1, capacity + 1);
        let mapped = m.dom().map(|id: usize| id as int);
        assert(r.subset_of(mapped)) by {
            assert forall|x: int| r.contains(x) implies mapped.contains(x) by {
                let id = x as usize;
                assert(m.contains_key(id));
                assert(id as int == x);
            }
        }
        vstd::set_lib::lemma_map_size(m.dom(), mapped, |id: usize| id as int);
        vstd::set_lib::lemma_len_subset(r, mapped);
        assert(false);
    }
    choose|id: usize| 1 <= id <= capacity && !m.contains_key(id)
}

/// Registering an emitter and then unregistering its identifier leaves the
/// registry as it was.
pub proof fn lemma_register_unregister<E>(m: Map<usize, E>, id: usize, emitter: E)
    requires
        !m.contains_key(id),
    ensures
        m.insert(id, emitter).remove(id) == m,
{
    assert(m.insert(id, emitter).remove(id) =~= m);
}

} // verus!
