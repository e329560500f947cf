//! Lazy handles: values that may sit in memory, on disk at a known
//! offset, or both, with a decay counter for cache aging.

use vstd::prelude::*;

use crate::types::FileOffset;

verus! {

/// How many items a persisted chunk holds.
pub const CHUNK_SIZE: usize = 5;

/// A value that knows whether it still needs to be written out.
pub trait SyncPersist {
    /// Marks the value as needing (or not needing) persistence.
    fn set_persistence(&mut self, flag: bool);

    /// Whether the value still needs to be written out.
    fn needs_persistence(&self) -> bool;
}

/// A value that may be present in memory, present on disk at an
/// offset, or both; the decay counter ages it for eviction.
#[derive(Debug)]
pub struct LazyItem<T> {
    pub data: Option<T>,
    pub offset: Option<FileOffset>,
    pub decay_counter: usize,
}

impl<T> LazyItem<T> {
    /// A fresh in-memory item with no on-disk home.
    pub fn new(data: T) -> (r: Self)
        ensures
            r.data == Some(data),
            r.offset is None,
            r.decay_counter == 0,
    {
        LazyItem { data: Some(data), offset: None, decay_counter: 0 }
    }

    /// An in-memory item already tied to an offset.
    pub fn with_offset(data: T, offset: FileOffset) -> (r: Self)
        ensures
            r.data == Some(data),
            r.offset == Some(offset),
            r.decay_counter == 0,
    {
        LazyItem { data: Some(data), offset: Some(offset), decay_counter: 0 }
    }

    /// The in-memory value, if it is materialized.
    pub fn get_data(&self) -> (r: &Option<T>)
        ensures
            r == self.data,
    {
        &self.data
    }

    /// Replaces the in-memory value.
    pub fn set_data(&mut self, data: T)
        ensures
            final(self).data == Some(data),
            final(self).offset == old(self).offset,
            final(self).decay_counter == old(self).decay_counter,
    {
        self.data = Some(data);
    }

    /// Moves the item's on-disk home.
    pub fn set_offset(&mut self, offset: Option<FileOffset>)
        ensures
            final(self).offset == offset,
            final(self).data == old(self).data,
            final(self).decay_counter == old(self).decay_counter,
    {
        self.offset = offset;
    }

    /// Ages the item by one step.
    pub fn increment_decay(&mut self)
        requires
            old(self).decay_counter < usize::MAX,
        ensures
            final(self).decay_counter == old(self).decay_counter + 1,
            final(self).data == old(self).data,
            final(self).offset == old(self).offset,
    {
        self.decay_counter = self.decay_counter + 1;
    }

    /// Marks the item as freshly used.
    pub fn reset_decay(&mut self)
        ensures
            final(self).decay_counter == 0,
            final(self).data == old(self).data,
            final(self).offset == old(self).offset,
    {
        self.decay_counter = 0;
    }
}

/// An owning handle around a `LazyItem`.
#[derive(Debug)]
pub struct LazyItemRef<T> {
    pub item: LazyItem<T>,
}

impl<T> LazyItemRef<T> {
    /// A handle on a fresh in-memory item.
    pub fn new(data: T) -> (r: Self)
        ensures
            r.item.data == Some(data),
            r.item.offset is None,
            r.item.decay_counter == 0,
    {
        LazyItemRef { item: LazyItem::new(data) }
    }

    /// A handle on an item already tied to an offset.
    pub fn with_offset(data: T, offset: FileOffset) -> (r: Self)
        ensures
            r.item.data == Some(data),
            r.item.offset == Some(offset),
            r.item.decay_counter == 0,
    {
        LazyItemRef { item: LazyItem::with_offset(data, offset) }
    }

    /// The in-memory value, if it is materialized.
    pub fn get_data(&self) -> (r: &Option<T>)
        ensures
            r == self.item.data,
    {
        self.item.get_data()
    }

    /// Replaces the in-memory value.
    pub fn set_data(&mut self, data: T)
        ensures
            final(self).item.data == Some(data),
            final(self).item.offset == old(self).item.offset,
            final(self).item.decay_counter == old(self).item.decay_counter,
    {
        self.item.set_data(data);
    }

    /// Moves the item's on-disk home.
    pub fn set_offset(&mut self, offset: Option<FileOffset>)
        ensures
            final(self).item.offset == offset,
            final(self).item.data == old(self).item.data,
            final(self).item.decay_counter == old(self).item.decay_counter,
    {
        self.item.set_offset(offset);
    }

    /// Ages the item by one step.
    pub fn increment_decay(&mut self)
        requires
            old(self).item.decay_counter < usize::MAX,
        ensures
            final(self).item.decay_counter == old(self).item.decay_counter + 1,
            final(self).item.data == old(self).item.data,
            final(self).item.offset == old(self).item.offset,
    {
        self.item.increment_decay();
    }

    /// Marks the item as freshly used.
    pub fn reset_decay(&mut self)
        ensures
            final(self).item.decay_counter == 0,
            final(self).item.data == old(self).item.data,
            final(self).item.offset == old(self).item.offset,
    {
        self.item.reset_decay();
    }
}

/// An append-only list of lazy items.
#[derive(Debug)]
pub struct LazyItems<T> {
    pub items: Vec<LazyItem<T>>,
}

impl<T> LazyItems<T> {
    /// An empty list.
    pub fn new() -> (r: Self)
        ensures
            r.items@.len() == 0,
    {
        LazyItems { items: Vec::new() }
    }

    /// Appends an item.
    pub fn push(&mut self, item: LazyItem<T>)
        ensures
            final(self).items@ =~= old(self).items@.push(item),
    {
        self.items.push(item);
    }

    /// The item at `index`, if the list is that long.
    pub fn get(&self, index: usize) -> (r: Option<&LazyItem<T>>)
        ensures
            index < self.items@.len() ==> (r matches Some(x) && *x == self.items@[index as int]),
            index >= self.items@.len() ==> r is None,
    {
        if index < self.items.len() {
            Some(&self.items[index])
        } else {
            None
        }
    }

    /// How many items the list holds.
    pub fn len(&self) -> (r: usize)
        ensures
            r == self.items@.len(),
    {
        self.items.len()
    }

    /// Whether the list is empty.
    pub fn is_empty(&self) -> (r: bool)
        ensures
            r == (self.items@.len() == 0),
    {
        self.items.len() == 0
    }

    /// All items, for iteration.
    pub fn iter(&self) -> (r: &Vec<LazyItem<T>>)
        ensures
            r == self.items,
    {
        &self.items
    }
}

} // verus!
