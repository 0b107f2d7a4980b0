//! Components: how typed values are stored in a world, and when they last changed.
use crate::id::{ComponentId, FIRST_OWN_ID};
use crate::tick::Tick;
use vstd::prelude::*;

verus! {

/// A type whose values a world of `V`s can hold, as a component of an entity or as a resource.
///
/// A world stores every value as a `V`; this is the way in and out.
pub trait Component<V>: Sized {
    /// The identifier of this component type. What it is, each type says for itself.
    open spec fn id() -> ComponentId {
        arbitrary()
    }

    /// The stored form of a value. What it is, each type says for itself.
    open spec fn stored(self) -> V {
        arbitrary()
    }

    /// The value that a stored form holds, if it holds one of this type. Which it is, each type
    /// says for itself.
    open spec fn held(value: V) -> Option<Self> {
        arbitrary()
    }

    /// Returns the identifier of this component type. It is none of those that are kept for the
    /// library's own components.
    fn component_id() -> (id: ComponentId)
        ensures
            id == Self::id(),
            id.0 < FIRST_OWN_ID,
    ;

    /// Turns a value into its stored form.
    fn into_stored(self) -> (value: V)
        ensures
            value == self.stored(),
            Self::held(value) == Some(self),
    ;

    /// Looks at the value that a stored form holds.
    fn held_ref(value: &V) -> (component: Option<&Self>)
        ensures
            match component {
                Some(c) => Self::held(*value) == Some(*c),
                None => Self::held(*value) is None,
            },
    ;

    /// Hands out the value that a stored form holds, to be changed in place.
    fn held_mut(value: &mut V) -> (component: Option<&mut Self>)
        ensures
            match component {
                Some(c) => {
                    &&& Self::held(*old(value)) == Some(*c)
                    &&& *final(value) == (*final(c)).stored()
                    &&& Self::held(*final(value)) == Some(*final(c))
                },
                None => {
                    &&& Self::held(*old(value)) is None
                    &&& *final(value) == *old(value)
                },
            },
    ;
}

/// A stored value and the tick at which it last changed.
pub struct Stored<V> {
    /// The value.
    pub value: V,
    /// When it was last inserted or written.
    pub changed: Tick,
}

/// Stored values by their identifier.
pub type Table<V> = Map<ComponentId, Stored<V>>;

/// A place in a [`ById`].
struct Slot<X> {
    id: ComponentId,
    item: X,
}

/// A collection of items by component type, at most one of each type.
pub struct ById<X> {
    slots: Vec<Slot<X>>,
}

/// Stored values, at most one of each type.
pub type Components<V> = ById<Stored<V>>;

/// The table made of `slots`.
spec fn table_of<X>(slots: Seq<Slot<X>>) -> Map<ComponentId, X> {
    Map::new(
        |id: ComponentId| exists|i: int| 0 <= i < slots.len() && (#[trigger] slots[i]).id == id,
        |id: ComponentId|
            slots[choose|i: int| 0 <= i < slots.len() && (#[trigger] slots[i]).id == id].item,
    )
}

/// Whether no two slots hold values of the same type.
spec fn distinct<X>(slots: Seq<Slot<X>>) -> bool {
    forall|i: int, j: int|
        0 <= i < j < slots.len() ==> (#[trigger] slots[i]).id != (#[trigger] slots[j]).id
}

/// The slot of a type decides what the table holds of that type.
proof fn lemma_table_at<X>(slots: Seq<Slot<X>>, i: int)
    requires
        distinct(slots),
        0 <= i < slots.len(),
    ensures
        table_of(slots).contains_key(slots[i].id),
        table_of(slots)[slots[i].id] == slots[i].item,
{
    let id = slots[i].id;
    let k = choose|k: int| 0 <= k < slots.len() && (#[trigger] slots[k]).id == id;
    assert(k == i);
}

/// Changing what one slot holds changes the table under that type alone.
proof fn lemma_table_update<X>(slots: Seq<Slot<X>>, i: int, item: X)
    requires
        distinct(slots),
        0 <= i < slots.len(),
    ensures
        distinct(slots.update(i, Slot { id: slots[i].id, item })),
        table_of(slots.update(i, Slot { id: slots[i].id, item })) == table_of(slots).insert(
            slots[i].id,
            item,
        ),
{
    let after = slots.update(i, Slot { id: slots[i].id, item });
    assert forall|id: ComponentId|
        #![trigger table_of(after).contains_key(id)]
        table_of(after).contains_key(id) == table_of(slots).insert(slots[i].id, item).contains_key(id)
    by {
        if table_of(after).contains_key(id) {
            let k = choose|k: int| 0 <= k < after.len() && (#[trigger] after[k]).id == id;
            assert(slots[k].id == id);
        }
        if table_of(slots).contains_key(id) {
            let k = choose|k: int| 0 <= k < slots.len() && (#[trigger] slots[k]).id == id;
            assert(after[k].id == id);
        }
        assert(after[i].id == slots[i].id);
    }
    assert forall|id: ComponentId| table_of(after).contains_key(id) implies #[trigger] table_of(after)[id]
        == table_of(slots).insert(slots[i].id, item)[id] by {
        let k = choose|k: int| 0 <= k < after.len() && (#[trigger] after[k]).id == id;
        lemma_table_at(after, k);
        lemma_table_at(slots, k);
    }
    assert(table_of(after) =~= table_of(slots).insert(slots[i].id, item));
}

/// A slot for a new type adds that type to the table.
proof fn lemma_table_push<X>(slots: Seq<Slot<X>>, slot: Slot<X>)
    requires
        distinct(slots),
        !table_of(slots).contains_key(slot.id),
    ensures
        distinct(slots.push(slot)),
        table_of(slots.push(slot)) == table_of(slots).insert(slot.id, slot.item),
{
    let after = slots.push(slot);
    assert forall|i: int, j: int| 0 <= i < j < after.len() implies (#[trigger] after[i]).id != (
    #[trigger] after[j]).id by {
        if j == slots.len() {
            assert(slots[i].id != slot.id);
        }
    }
    assert forall|id: ComponentId|
        #![trigger table_of(after).contains_key(id)]
        table_of(after).contains_key(id) == table_of(slots).insert(slot.id, slot.item).contains_key(id)
    by {
        if table_of(after).contains_key(id) {
            let k = choose|k: int| 0 <= k < after.len() && (#[trigger] after[k]).id == id;
            if k < slots.len() {
                assert(slots[k].id == id);
            }
        }
        if table_of(slots).contains_key(id) {
            let k = choose|k: int| 0 <= k < slots.len() && (#[trigger] slots[k]).id == id;
            assert(after[k].id == id);
        }
        assert(after[slots.len() as int].id == slot.id);
    }
    assert forall|id: ComponentId| table_of(after).contains_key(id) implies #[trigger] table_of(after)[id]
        == table_of(slots).insert(slot.id, slot.item)[id] by {
        let k = choose|k: int| 0 <= k < after.len() && (#[trigger] after[k]).id == id;
        lemma_table_at(after, k);
        if k < slots.len() {
            lemma_table_at(slots, k);
        }
    }
    assert(table_of(after) =~= table_of(slots).insert(slot.id, slot.item));
}

impl<X> View for ById<X> {
    type V = Map<ComponentId, X>;

    closed spec fn view(&self) -> Map<ComponentId, X> {
        table_of(self.slots@)
    }
}

impl<X> ById<X> {
    /// No two items are of the same type, and none is of a type whose identifier is kept for the
    /// library's own components.
    pub closed spec fn wf(&self) -> bool {
        &&& distinct(self.slots@)
        &&& forall|i: int| 0 <= i < self.slots@.len() ==> (#[trigger] self.slots@[i]).id.0 < FIRST_OWN_ID
    }

    /// No item stands under an identifier that is kept for the library's own components.
    pub proof fn lemma_ids(&self)
        requires
            self.wf(),
        ensures
            forall|id: ComponentId| #[trigger] self@.contains_key(id) ==> id.0 < FIRST_OWN_ID,
    {
    }

    /// The empty collection.
    pub fn new() -> (items: ById<X>)
        ensures
            items.wf(),
            items@ == Map::<ComponentId, X>::empty(),
    {
        let items = ById { slots: Vec::new() };
        proof {
            assert(items@ =~= Map::<ComponentId, X>::empty());
        }
        items
    }

    /// The place of the item of type `id`.
    fn find(&self, id: ComponentId) -> (place: Option<usize>)
        requires
            self.wf(),
        ensures
            match place {
                Some(i) => {
                    &&& i < self.slots@.len()
                    &&& self.slots@[i as int].id == id
                    &&& self@.contains_key(id)
                    &&& self@[id] == self.slots@[i as int].item
                },
                None => !self@.contains_key(id),
            },
    {
        let mut i: usize = 0;
        while i < self.slots.len()
            invariant
                i <= self.slots.len(),
                forall|j: int| 0 <= j < i ==> (#[trigger] self.slots@[j]).id != id,
                self.wf(),
            decreases self.slots.len() - i,
        {
            if self.slots[i].id == id {
                proof {
                    lemma_table_at(self.slots@, i as int);
                }
                return Some(i);
            }
            i += 1;
        }
        None
    }

    /// Looks at the item of type `id`.
    pub fn get(&self, id: ComponentId) -> (item: Option<&X>)
        requires
            self.wf(),
        ensures
            match item {
                Some(s) => self@.contains_key(id) && self@[id] == *s,
                None => !self@.contains_key(id),
            },
    {
        match self.find(id) {
            Some(i) => Some(&self.slots[i].item),
            None => None,
        }
    }

    /// Hands out the item of type `id`, to be changed in place.
    pub fn get_mut(&mut self, id: ComponentId) -> (item: Option<&mut X>)
        requires
            old(self).wf(),
        ensures
            final(self).wf(),
            match item {
                Some(s) => {
                    &&& old(self)@.contains_key(id)
                    &&& old(self)@[id] == *s
                    &&& final(self)@ == old(self)@.insert(id, *final(s))
                },
                None => !old(self)@.contains_key(id) && final(self)@ == old(self)@,
            },
    {
        match self.find(id) {
            Some(i) => {
                let ghost slots = self.slots@;
                let item = &mut self.slots[i].item;
                proof {
                    lemma_table_update(slots, i as int, *final(item));
                }
                Some(item)
            },
            None => None,
        }
    }

    /// Stores an item of type `id`, in place of the one that was there.
    pub fn insert(&mut self, id: ComponentId, item: X)
        requires
            old(self).wf(),
            id.0 < FIRST_OWN_ID,
        ensures
            final(self).wf(),
            final(self)@ == old(self)@.insert(id, item),
    {
        match self.find(id) {
            Some(i) => {
                proof {
                    lemma_table_update(self.slots@, i as int, item);
                }
                self.slots[i].item = item;
            },
            None => {
                proof {
                    lemma_table_push(self.slots@, Slot { id, item });
                }
                self.slots.push(Slot { id, item });
            },
        }
    }
}

/// Values that are written to an entity together, at most one of each type.
pub type Bundle<V> = ById<V>;

/// The table that holds `values`, all of them changed at `tick`.
pub open spec fn stamped<V>(values: Map<ComponentId, V>, tick: Tick) -> Table<V> {
    values.map_values(|value: V| Stored { value, changed: tick })
}

/// The table of the slots from one place on is that of the slots after it, and what is in that
/// place.
proof fn lemma_table_skip<X>(slots: Seq<Slot<X>>, place: int)
    requires
        distinct(slots),
        0 <= place < slots.len(),
    ensures
        table_of(slots.skip(place)) == table_of(slots.skip(place + 1)).insert(
            slots[place].id,
            slots[place].item,
        ),
{
    let here = slots.skip(place);
    let rest = slots.skip(place + 1);
    let goal = table_of(rest).insert(slots[place].id, slots[place].item);
    assert forall|id: ComponentId| #[trigger] table_of(here).contains_key(id) == goal.contains_key(id) by {
        if table_of(here).contains_key(id) {
            let k = choose|k: int| 0 <= k < here.len() && (#[trigger] here[k]).id == id;
            if k > 0 {
                assert(rest[k - 1].id == id);
            }
        }
        if table_of(rest).contains_key(id) {
            let k = choose|k: int| 0 <= k < rest.len() && (#[trigger] rest[k]).id == id;
            assert(here[k + 1].id == id);
        }
        assert(here[0].id == slots[place].id);
    }
    assert forall|id: ComponentId| table_of(here).contains_key(id) implies #[trigger] table_of(here)[id]
        == goal[id] by {
        let k = choose|k: int| 0 <= k < here.len() && (#[trigger] here[k]).id == id;
        lemma_table_at(here, k);
        if k > 0 {
            assert(rest[k - 1] == here[k]);
            lemma_table_at(rest, k - 1);
            assert(slots[place].id != slots[place + k].id);
        }
    }
    assert(table_of(here) =~= goal);
}

impl<V> ById<Stored<V>> {
    /// Stores every value of `bundle`, in place of the one of its type that was there. All of them
    /// count as changed at `tick`.
    pub fn write(&mut self, bundle: Bundle<V>, tick: Tick)
        requires
            old(self).wf(),
            bundle.wf(),
        ensures
            final(self).wf(),
            final(self)@ == old(self)@.union_prefer_right(stamped(bundle@, tick)),
    {
        let ghost before = self@;
        let ghost all = bundle.slots@;
        let mut slots = bundle.slots;
        proof {
            assert(table_of(all.skip(all.len() as int)) =~= Map::empty());
            assert(self@ =~= before.union_prefer_right(
                stamped(table_of(all.skip(all.len() as int)), tick),
            ));
        }
        while slots.len() > 0
            invariant
                distinct(all),
                forall|i: int| 0 <= i < all.len() ==> (#[trigger] all[i]).id.0 < FIRST_OWN_ID,
                slots@.len() <= all.len(),
                slots@ == all.take(slots@.len() as int),
                self.wf(),
                self@ == before.union_prefer_right(
                    stamped(table_of(all.skip(slots@.len() as int)), tick),
                ),
            decreases slots.len(),
        {
            let ghost place = slots@.len() - 1;
            match slots.pop() {
                Some(slot) => {
                    proof {
                        assert(slot == all[place]);
                        lemma_table_skip(all, place);
                    }
                    self.insert(slot.id, Stored { value: slot.item, changed: tick });
                    proof {
                        assert(slots@ =~= all.take(place));
                        assert(self@ =~= before.union_prefer_right(
                            stamped(table_of(all.skip(place)), tick),
                        ));
                    }
                },
                None => {},
            }
        }
        proof {
            assert(all.skip(0) =~= all);
        }
    }
}

/// Mutable access to a value of a world, with change detection.
///
/// The value is marked changed when [`Mut::get_mut`] or [`Mut::set`] is called, and not before: a
/// guard that is only read through leaves no trace. Writing to `value` itself bypasses change
/// detection.
pub struct Mut<'w, T> {
    /// The value, past change detection.
    pub value: &'w mut T,
    /// When the value last changed.
    pub changed: &'w mut Tick,
    /// The tick that a write is stamped with.
    pub this_run: Tick,
}

impl<'w, T> Mut<'w, T> {
    /// The value as it is now.
    pub open spec fn current(&self) -> T {
        *self.value
    }

    /// Reads the value.
    pub fn get(&self) -> (value: &T)
        ensures
            *value == self.current(),
    {
        &*self.value
    }

    /// Hands out the value to be written, and marks it changed.
    pub fn get_mut(&mut self) -> (value: &mut T)
        ensures
            *value == *old(self).value,
            *final(self).value == *final(value),
            *final(self).changed == old(self).this_run,
            final(self).this_run == old(self).this_run,
            *final(final(self).value) == *final(old(self).value),
            *final(final(self).changed) == *final(old(self).changed),
    {
        *self.changed = self.this_run;
        &mut *self.value
    }

    /// Writes the value, and marks it changed.
    pub fn set(self, value: T)
        ensures
            *final(self.value) == value,
            *final(self.changed) == self.this_run,
    {
        *self.changed = self.this_run;
        *self.value = value;
    }
}

} // verus!
