//! The store: values by key, for the length of one build.

use crate::encoding::{decoded_list, encode_item, encoded_item};
use crate::error::StoreError;
use crate::location::{location, state_file_path};
use crate::outcome::{
    clear_outcome, has_outcome, init_after_read, init_after_write, read_list_outcome, InitStep,
};
use crate::storage::{appended, Storage};
use vstd::prelude::*;

verus! {

/// What a store is made of: the storage root, the epoch of the build that
/// it works in, and what the storage holds at each location.
pub struct StoreState {
    pub root: Seq<char>,
    pub epoch: nat,
    pub files: Map<Seq<char>, Seq<char>>,
}

impl StoreState {
    /// The store of a build that has stored nothing yet, on empty storage.
    pub open spec fn empty(root: Seq<char>, epoch: nat) -> StoreState {
        StoreState { root, epoch, files: Map::empty() }
    }

    /// The same storage, seen from the build with the epoch `epoch`.
    pub open spec fn with_epoch(self, epoch: nat) -> StoreState {
        StoreState { epoch, ..self }
    }

    /// Where this build keeps `key`.
    pub open spec fn location_of(self, key: Seq<char>) -> Seq<char> {
        location(self.root, key, self.epoch)
    }

    /// Whether `key` has a value in this build.
    pub open spec fn has(self, key: Seq<char>) -> bool {
        self.files.contains_key(self.location_of(key))
    }

    /// What reading `key` gives: its value, or `NotFound` if it has none in
    /// this build.
    pub open spec fn read(self, key: Seq<char>) -> Result<Seq<char>, StoreError> {
        if self.has(key) {
            Ok(self.files[self.location_of(key)])
        } else {
            Err(StoreError::NotFound)
        }
    }

    /// The store after `value` was written to `key`: the key has that value
    /// and nothing is left of an earlier one.
    pub open spec fn write(self, key: Seq<char>, value: Seq<char>) -> StoreState {
        StoreState { files: self.files.insert(self.location_of(key), value), ..self }
    }

    /// The store after `key` was cleared: the key has no value.
    pub open spec fn clear(self, key: Seq<char>) -> StoreState {
        StoreState { files: self.files.remove(self.location_of(key)), ..self }
    }

    /// What initialising `key` gives: the value that the key has, or the
    /// default if it has none.
    pub open spec fn init_value(self, key: Seq<char>, default_value: Seq<char>) -> Seq<char> {
        if self.has(key) {
            self.files[self.location_of(key)]
        } else {
            default_value
        }
    }

    /// The store after `key` was initialised: unchanged if the key had a
    /// value, and else with the default written to it.
    pub open spec fn init(self, key: Seq<char>, default_value: Seq<char>) -> StoreState {
        if self.has(key) {
            self
        } else {
            self.write(key, default_value)
        }
    }

    /// The store after `item` was appended to `key`: the encoded item stands
    /// after what the key held before, or alone if it held nothing.
    pub open spec fn append(self, key: Seq<char>, item: Seq<char>) -> StoreState {
        StoreState {
            files: self.files.insert(
                self.location_of(key),
                appended(self.files, self.location_of(key), encoded_item(item)),
            ),
            ..self
        }
    }

    /// The store after each of `items` was appended to `key`, in order.
    pub open spec fn append_all(self, key: Seq<char>, items: Seq<Seq<char>>) -> StoreState
        decreases items.len(),
    {
        if items.len() == 0 {
            self
        } else {
            self.append_all(key, items.drop_last()).append(key, items.last())
        }
    }

    /// The list that `key` holds: the items of its value, and no item if it
    /// has no value in this build.
    pub open spec fn read_list(self, key: Seq<char>) -> Seq<Seq<char>> {
        if self.has(key) {
            decoded_list(self.files[self.location_of(key)])
        } else {
            Seq::empty()
        }
    }
}

/// A store in memory. It works in one build at a time, which its epoch
/// tells from every other build, and finds only what that build stored.
pub struct StateStore {
    root: String,
    epoch: u128,
    storage: Storage,
}

impl View for StateStore {
    type V = StoreState;

    closed spec fn view(&self) -> StoreState {
        StoreState { root: self.root@, epoch: self.epoch as nat, files: self.storage@ }
    }
}

impl StateStore {
    /// A store on empty storage with the root `root`, for the build with
    /// the epoch `epoch`.
    pub fn new(root: &str, epoch: u128) -> (store: StateStore)
        ensures
            store@ == StoreState::empty(root@, epoch as nat),
    {
        StateStore { root: root.to_owned(), epoch, storage: Storage::new() }
    }

    /// Goes on to the build with the epoch `epoch`. The storage keeps what
    /// it holds.
    pub fn begin_build(&mut self, epoch: u128)
        ensures
            final(self)@ == old(self)@.with_epoch(epoch as nat),
    {
        self.epoch = epoch;
    }

    /// The epoch of the build that the store works in.
    pub fn epoch(&self) -> (epoch: u128)
        ensures
            epoch as nat == self@.epoch,
    {
        self.epoch
    }

    /// The storage root.
    pub fn root(&self) -> (root: &str)
        ensures
            root@ == self@.root,
    {
        self.root.as_str()
    }

    /// Where the store keeps `key` in this build.
    pub fn location_of(&self, key: &str) -> (path: String)
        ensures
            path@ == self@.location_of(key@),
    {
        state_file_path(self.root.as_str(), key, self.epoch)
    }
}

/// Writes `value` as the value of `key`, in place of any value that the
/// key had. A store in memory takes every write.
pub fn proc_write_state(store: &mut StateStore, key: &str, value: &str) -> (written: Result<
    (),
    StoreError,
>)
    ensures
        written is Ok,
        final(store)@ == old(store)@.write(key@, value@),
{
    let path = store.location_of(key);
    store.storage.write(path.as_str(), value)
}

/// Reads the value of `key` as it was written. Fails with `NotFound` if
/// the key has no value in this build.
pub fn proc_read_state(store: &StateStore, key: &str) -> (found: Result<String, StoreError>)
    ensures
        match found {
            Ok(value) => store@.read(key@) == Ok::<Seq<char>, StoreError>(value@),
            Err(error) => store@.read(key@) == Err::<Seq<char>, StoreError>(error),
        },
{
    let path = store.location_of(key);
    store.storage.read(path.as_str())
}

/// Whether `key` has a value in this build: whether reading it would
/// succeed.
pub fn proc_has_state(store: &StateStore, key: &str) -> (present: bool)
    ensures
        present == store@.has(key@),
{
    let found = proc_read_state(store, key);
    has_outcome(&found)
}

/// Takes away the value of `key`, if it has one. Always succeeds.
pub fn proc_clear_state(store: &mut StateStore, key: &str) -> (cleared: Result<(), StoreError>)
    ensures
        cleared is Ok,
        final(store)@ == old(store)@.clear(key@),
{
    let path = store.location_of(key);
    let removed = store.storage.remove(path.as_str());
    clear_outcome(removed)
}

/// Gives the value of `key`. If the key has none, writes `default_value`
/// to it first and gives that.
pub fn proc_init_state(store: &mut StateStore, key: &str, default_value: &str) -> (value: Result<
    String,
    StoreError,
>)
    ensures
        value is Ok,
        value->Ok_0@ == old(store)@.init_value(key@, default_value@),
        final(store)@ == old(store)@.init(key@, default_value@),
{
    let found = proc_read_state(store, key);
    match init_after_read(found) {
        InitStep::Existing(existing) => Ok(existing),
        InitStep::WriteDefault => {
            let written = proc_write_state(store, key, default_value);
            init_after_write(written, default_value)
        },
    }
}

/// Appends `value` to the list that `key` holds: adds the value with its
/// newlines escaped, and a newline, after what the key held. A key without
/// a value then holds a list of one item. A store in memory takes every
/// write.
pub fn proc_append_state(store: &mut StateStore, key: &str, value: &str) -> (written: Result<
    (),
    StoreError,
>)
    ensures
        written is Ok,
        final(store)@ == old(store)@.append(key@, value@),
{
    let line = encode_item(value);
    let path = store.location_of(key);
    store.storage.append(path.as_str(), line.as_str())
}

/// Reads the list that `key` holds. A key without a value in this build
/// holds no item.
pub fn proc_read_state_vec(store: &StateStore, key: &str) -> (items: Vec<String>)
    ensures
        items.deep_view() == store@.read_list(key@),
{
    let found = proc_read_state(store, key);
    read_list_outcome(found)
}

} // verus!
