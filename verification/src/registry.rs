//! Values stored under keys that are handed out and recycled.
//!
//! A slab of units deals out the keys. The values lie beside it, in a vector, so
//! that a registry can hold values of any type.
use vstd::prelude::*;

verus! {

/// `slab::Slab`, whose entries stay hidden.
#[verifier::external_type_specification]
#[verifier::external_body]
#[verifier::reject_recursive_types(T)]
pub struct ExSlab<T>(slab::Slab<T>);

/// The keys under which a slab holds something.
pub uninterp spec fn slab_keys(slab: slab::Slab<()>) -> Set<usize>;

/// The key that a slab will hand out next.
pub uninterp spec fn slab_next_key(slab: slab::Slab<()>) -> usize;

/// `slab::Slab::with_capacity`: a slab that holds nothing, whose first key is 0. An
/// entry takes no more than 16 bytes, and it panics if that makes more than
/// `isize::MAX` bytes.
#[verifier::external_body]
fn slab_with_capacity(capacity: usize) -> (r: slab::Slab<()>)
    requires
        capacity * 16 <= isize::MAX,
    ensures
        slab_keys(r) == Set::<usize>::empty(),
        slab_next_key(r) == 0,
{
    slab::Slab::with_capacity(capacity)
}

/// `slab::Slab::vacant_entry`, whose `key` is the one that the next insertion
/// will use. It is vacant.
#[verifier::external_body]
fn slab_vacant_key(slab: &mut slab::Slab<()>) -> (r: usize)
    ensures
        r == slab_next_key(*old(slab)),
        !slab_keys(*old(slab)).contains(r),
        *final(slab) == *old(slab),
{
    slab.vacant_entry().key()
}

/// `slab::Slab::insert`: occupies the next key and returns it.
#[verifier::external_body]
fn slab_insert(slab: &mut slab::Slab<()>) -> (r: usize)
    ensures
        r == slab_next_key(*old(slab)),
        !slab_keys(*old(slab)).contains(r),
        slab_keys(*final(slab)) == slab_keys(*old(slab)).insert(r),
{
    slab.insert(())
}

/// `slab::Slab::remove`: vacates an occupied key, which is the next one to be handed
/// out. It panics on a vacant one.
#[verifier::external_body]
fn slab_remove(slab: &mut slab::Slab<()>, key: usize)
    requires
        slab_keys(*old(slab)).contains(key),
    ensures
        slab_keys(*final(slab)) == slab_keys(*old(slab)).remove(key),
        slab_next_key(*final(slab)) == key,
{
    slab.remove(key)
}

/// Values of type `T` under keys that a slab hands out.
pub struct Registry<T> {
    keys: slab::Slab<()>,
    slots: Vec<Option<T>>,
}

impl<T> View for Registry<T> {
    type V = Map<usize, T>;

    closed spec fn view(&self) -> Map<usize, T> {
        Map::new(
            |k: usize| k < self.slots@.len() && self.slots@[k as int] is Some,
            |k: usize| self.slots@[k as int]->0,
        )
    }
}

impl<T> Registry<T> {
    /// Whether the slots in use are those whose keys are handed out.
    pub closed spec fn wf(self) -> bool {
        forall|k: usize| #[trigger] slab_keys(self.keys).contains(k) <==> self@.contains_key(k)
    }

    /// The key that the next insertion will use.
    pub closed spec fn next_key(self) -> usize {
        slab_next_key(self.keys)
    }

    /// A registry that holds nothing, whose slab has space for `capacity` keys.
    pub fn with_capacity(capacity: usize) -> (r: Registry<T>)
        requires
            capacity * 16 <= isize::MAX,
        ensures
            r.wf(),
            r@ == Map::<usize, T>::empty(),
            r.next_key() == 0,
    {
        let r = Registry { keys: slab_with_capacity(capacity), slots: Vec::new() };
        assert(r@ =~= Map::<usize, T>::empty());
        r
    }

    /// Extends the slots up to that of `key`.
    fn make_slot(&mut self, key: usize)
        ensures
            final(self)@ == old(self)@,
            final(self).keys == old(self).keys,
            key < final(self).slots@.len(),
            key < usize::MAX,
    {
        while self.slots.len() <= key
            invariant
                self@ == old(self)@,
                self.keys == old(self).keys,
            decreases key + 1 - self.slots.len(),
        {
            self.slots.push(None);
            assert(self@ =~= old(self)@);
        }
    }

    /// The key that the next insertion will use.
    pub fn vacant_key(&mut self) -> (r: usize)
        requires
            old(self).wf(),
        ensures
            final(self).wf(),
            final(self)@ == old(self)@,
            final(self).next_key() == old(self).next_key(),
            r == old(self).next_key(),
            !old(self)@.contains_key(r),
            r < usize::MAX,
    {
        let key = slab_vacant_key(&mut self.keys);
        self.make_slot(key);
        key
    }

    /// Stores a value under a vacant key and returns the key.
    pub fn insert(&mut self, value: T) -> (r: usize)
        requires
            old(self).wf(),
        ensures
            final(self).wf(),
            r == old(self).next_key(),
            !old(self)@.contains_key(r),
            final(self)@ == old(self)@.insert(r, value),
            r < usize::MAX,
    {
        let key = slab_insert(&mut self.keys);
        self.make_slot(key);
        self.slots.set(key, Some(value));
        assert(self@ =~= old(self)@.insert(key, value));
        key
    }

    /// Whether something is stored under the key.
    pub fn contains(&self, key: usize) -> (r: bool)
        ensures
            r == self@.contains_key(key),
    {
        key < self.slots.len() && self.slots[key].is_some()
    }

    /// The value under a key.
    pub fn get(&self, key: usize) -> (r: &T)
        requires
            self@.contains_key(key),
        ensures
            *r == self@[key],
    {
        self.slots[key].as_ref().unwrap()
    }

    /// The value under a key, to be changed.
    pub fn get_mut(&mut self, key: usize) -> (r: &mut T)
        requires
            old(self).wf(),
            old(self)@.contains_key(key),
        ensures
            *r == old(self)@[key],
            final(self)@ == old(self)@.insert(key, *final(r)),
            final(self).wf(),
            final(self).next_key() == old(self).next_key(),
    {
        let slot = &mut self.slots[key];
        slot.as_mut().unwrap()
    }

    /// Takes a value out and vacates its key, which is the next one to be used.
    pub fn remove(&mut self, key: usize) -> (r: T)
        requires
            old(self).wf(),
            old(self)@.contains_key(key),
        ensures
            final(self).wf(),
            r == old(self)@[key],
            final(self)@ == old(self)@.remove(key),
            final(self).next_key() == key,
    {
        slab_remove(&mut self.keys, key);
        let mut slot = None;
        std::mem::swap(&mut slot, &mut self.slots[key]);
        assert(self@ =~= old(self)@.remove(key));
        slot.unwrap()
    }
}

} // verus!
