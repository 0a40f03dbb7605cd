//! What holds of the store's operations, one after another.
//!
//! Each law is stated of store states, in the terms in which the
//! operations themselves say what they do.

use crate::encoding::{
    encoded_item, encoded_list, free_of_escape_sequences, has_escape_sequence,
    lemma_decode_inverts_encode,
};
use crate::error::StoreError;
use crate::location::{lemma_location_injective, location};
use crate::store::StoreState;
use vstd::prelude::*;

verus! {

/// Reading a key after a write gives exactly the value that was written,
/// whatever the value holds.
pub proof fn lemma_read_after_write(store: StoreState, key: Seq<char>, value: Seq<char>)
    ensures
        store.write(key, value).read(key) == Ok::<Seq<char>, StoreError>(value),
{
}

/// The last write wins: nothing is left of the value written before it.
pub proof fn lemma_last_write_wins(
    store: StoreState,
    key: Seq<char>,
    first: Seq<char>,
    second: Seq<char>,
)
    ensures
        store.write(key, first).write(key, second) == store.write(key, second),
{
    assert(store.write(key, first).write(key, second).files =~= store.write(key, second).files);
}

/// In a store that holds nothing, no key has a value.
pub proof fn lemma_has_nothing_at_first(root: Seq<char>, epoch: nat, key: Seq<char>)
    ensures
        !StoreState::empty(root, epoch).has(key),
{
}

/// A key has a value as soon as something was written to it.
pub proof fn lemma_has_after_write(store: StoreState, key: Seq<char>, value: Seq<char>)
    ensures
        store.write(key, value).has(key),
{
}

/// A key has a value as soon as something was appended to it.
pub proof fn lemma_has_after_append(store: StoreState, key: Seq<char>, item: Seq<char>)
    ensures
        store.append(key, item).has(key),
{
}

/// A key that was cleared has no value, whether it had one before or not.
pub proof fn lemma_has_after_clear(store: StoreState, key: Seq<char>)
    ensures
        !store.clear(key).has(key),
{
}

/// Of two initialisations of a key, the first decides. If the key had no
/// value, both give the default of the first; if it had one, both give
/// that value.
pub proof fn lemma_first_init_wins(
    store: StoreState,
    key: Seq<char>,
    first: Seq<char>,
    second: Seq<char>,
)
    ensures
        !store.has(key) ==> store.init_value(key, first) == first && store.init(
            key,
            first,
        ).init_value(key, second) == first,
        store.has(key) ==> store.init_value(key, first) == store.read(key)->Ok_0 && store.init(
            key,
            first,
        ).init_value(key, second) == store.read(key)->Ok_0,
{
}

/// Writing to a key, appending to it, clearing or initialising it leaves
/// every other key of the build as it was.
pub proof fn lemma_other_keys_untouched(
    store: StoreState,
    key: Seq<char>,
    text: Seq<char>,
    other: Seq<char>,
)
    requires
        other != key,
    ensures
        store.write(key, text).read(other) == store.read(other),
        store.append(key, text).read(other) == store.read(other),
        store.clear(key).read(other) == store.read(other),
        store.init(key, text).read(other) == store.read(other),
{
    if store.location_of(key) == store.location_of(other) {
        lemma_location_injective(store.root, key, store.epoch, other, store.epoch);
    }
}

/// What one build does to a key is not seen from a build with another
/// epoch: there, every key reads as it did before.
pub proof fn lemma_builds_are_isolated(
    store: StoreState,
    key: Seq<char>,
    text: Seq<char>,
    epoch: nat,
    other: Seq<char>,
)
    requires
        epoch != store.epoch,
    ensures
        store.write(key, text).with_epoch(epoch).read(other) == store.with_epoch(epoch).read(
            other,
        ),
        store.append(key, text).with_epoch(epoch).read(other) == store.with_epoch(epoch).read(
            other,
        ),
        store.clear(key).with_epoch(epoch).read(other) == store.with_epoch(epoch).read(other),
        store.init(key, text).with_epoch(epoch).read(other) == store.with_epoch(epoch).read(
            other,
        ),
{
    if store.location_of(key) == store.with_epoch(epoch).location_of(other) {
        lemma_location_injective(store.root, key, store.epoch, other, epoch);
    }
}

/// One change that a build makes to the store.
pub enum Change {
    /// A value is written to a key.
    Write { key: Seq<char>, value: Seq<char> },
    /// An item is appended to a key.
    Append { key: Seq<char>, item: Seq<char> },
    /// A key is cleared.
    Clear { key: Seq<char> },
    /// A key is initialised.
    Init { key: Seq<char>, default_value: Seq<char> },
}

impl Change {
    /// Whether the change can give `key` a value: whether it writes to the
    /// key, appends to it or initialises it.
    pub open spec fn gives_value_to(self, key: Seq<char>) -> bool {
        match self {
            Change::Write { key: changed, .. } => changed == key,
            Change::Append { key: changed, .. } => changed == key,
            Change::Clear { .. } => false,
            Change::Init { key: changed, .. } => changed == key,
        }
    }

    /// The store after the change was made to `store`.
    pub open spec fn apply(self, store: StoreState) -> StoreState {
        match self {
            Change::Write { key, value } => store.write(key, value),
            Change::Append { key, item } => store.append(key, item),
            Change::Clear { key } => store.clear(key),
            Change::Init { key, default_value } => store.init(key, default_value),
        }
    }
}

/// A change, and the epoch of the build that makes it.
pub struct Step {
    pub epoch: nat,
    pub change: Change,
}

/// The store as the build with the epoch `epoch` finds it, after the steps
/// of `history` were made, one after another, to storage that held
/// nothing.
pub open spec fn after_history(root: Seq<char>, history: Seq<Step>, epoch: nat) -> StoreState
    decreases history.len(),
{
    if history.len() == 0 {
        StoreState::empty(root, epoch)
    } else {
        let step = history.last();
        step.change.apply(after_history(root, history.drop_last(), step.epoch)).with_epoch(epoch)
    }
}

/// What the storage holds after a history does not depend on the build
/// that looks at it.
proof fn lemma_history_leaves_one_storage(
    root: Seq<char>,
    history: Seq<Step>,
    epoch1: nat,
    epoch2: nat,
)
    ensures
        after_history(root, history, epoch1).files == after_history(root, history, epoch2).files,
        after_history(root, history, epoch1).root == root,
        after_history(root, history, epoch1).epoch == epoch1,
    decreases history.len(),
{
    if history.len() > 0 {
        let step = history.last();
        lemma_history_leaves_one_storage(root, history.drop_last(), step.epoch, epoch1);
    }
}

/// A key has no value in a build until that build gives it one: whatever
/// this build did to other keys, and whatever builds with other epochs did
/// to any key, this one included.
pub proof fn lemma_no_value_before_the_build_gives_one(
    root: Seq<char>,
    history: Seq<Step>,
    epoch: nat,
    key: Seq<char>,
)
    requires
        forall|i: int|
            0 <= i < history.len() ==> !((#[trigger] history[i]).epoch == epoch
                && history[i].change.gives_value_to(key)),
    ensures
        !after_history(root, history, epoch).has(key),
    decreases history.len(),
{
    if history.len() > 0 {
        let step = history.last();
        let earlier = history.drop_last();
        assert forall|i: int| 0 <= i < earlier.len() implies !((#[trigger] earlier[i]).epoch
            == epoch && earlier[i].change.gives_value_to(key)) by {
            assert(earlier[i] == history[i]);
        }
        lemma_no_value_before_the_build_gives_one(root, earlier, epoch, key);
        lemma_history_leaves_one_storage(root, earlier, epoch, step.epoch);
        let before = after_history(root, earlier, step.epoch);
        let wanted = location(root, key, epoch);
        assert(!before.files.contains_key(wanted));
        assert(history[history.len() - 1] == step);
        match step.change {
            Change::Write { key: changed, .. } => {
                if before.location_of(changed) == wanted {
                    lemma_location_injective(root, changed, step.epoch, key, epoch);
                }
            },
            Change::Append { key: changed, .. } => {
                if before.location_of(changed) == wanted {
                    lemma_location_injective(root, changed, step.epoch, key, epoch);
                }
            },
            Change::Clear { .. } => {},
            Change::Init { key: changed, .. } => {
                if before.location_of(changed) == wanted {
                    lemma_location_injective(root, changed, step.epoch, key, epoch);
                }
            },
        }
    }
}

/// The list of a key without a value has no item.
pub proof fn lemma_read_list_without_value(store: StoreState, key: Seq<char>)
    requires
        !store.has(key),
    ensures
        store.read_list(key) == Seq::<Seq<char>>::empty(),
{
}

/// The list of a key has no item in a build until that build gives the
/// key a value.
pub proof fn lemma_no_item_before_the_build_gives_one(
    root: Seq<char>,
    history: Seq<Step>,
    epoch: nat,
    key: Seq<char>,
)
    requires
        forall|i: int|
            0 <= i < history.len() ==> !((#[trigger] history[i]).epoch == epoch
                && history[i].change.gives_value_to(key)),
    ensures
        after_history(root, history, epoch).read_list(key) == Seq::<Seq<char>>::empty(),
{
    lemma_no_value_before_the_build_gives_one(root, history, epoch, key);
}

/// After items were appended to a key that had no value, the key holds the
/// encoded items one after another.
pub proof fn lemma_appended_items_are_stored(
    store: StoreState,
    key: Seq<char>,
    items: Seq<Seq<char>>,
)
    requires
        !store.has(key),
        items.len() > 0,
    ensures
        store.append_all(key, items).read(key) == Ok::<Seq<char>, StoreError>(
            encoded_list(items),
        ),
    decreases items.len(),
{
    let init = items.drop_last();
    if init.len() == 0 {
        assert(encoded_list(init) + encoded_item(items.last()) =~= encoded_item(items.last()));
    } else {
        lemma_appended_items_are_stored(store, key, init);
    }
}

/// Items appended to a key that had no value are read back as the same
/// list, in the order in which they were appended. Items may hold
/// newlines. This holds of items without a backslash directly followed by
/// the letter `n`: in the stored value, such a pair stands for a newline.
pub proof fn lemma_appended_items_read_back(
    store: StoreState,
    key: Seq<char>,
    items: Seq<Seq<char>>,
)
    requires
        !store.has(key),
        free_of_escape_sequences(items),
    ensures
        store.append_all(key, items).read_list(key) == items,
{
    if items.len() > 0 {
        lemma_appended_items_are_stored(store, key, items);
        lemma_decode_inverts_encode(items);
    }
}

/// Three items without newlines, appended one after another to a key that
/// had no value, are read back as that list of three. This holds of items
/// without a backslash directly followed by the letter `n`.
pub proof fn lemma_three_appended_items_read_back(
    store: StoreState,
    key: Seq<char>,
    a: Seq<char>,
    b: Seq<char>,
    c: Seq<char>,
)
    requires
        !store.has(key),
        !a.contains('\n') && !b.contains('\n') && !c.contains('\n'),
        !has_escape_sequence(a) && !has_escape_sequence(b) && !has_escape_sequence(c),
    ensures
        store.append(key, a).append(key, b).append(key, c).read_list(key) == seq![a, b, c],
{
    let items = seq![a, b, c];
    assert(items.drop_last() =~= seq![a, b]);
    assert(seq![a, b].drop_last() =~= seq![a]);
    assert(seq![a].drop_last() =~= Seq::<Seq<char>>::empty());
    assert(store.append_all(key, Seq::<Seq<char>>::empty()) == store);
    assert(store.append_all(key, seq![a]) == store.append(key, a));
    assert(store.append_all(key, seq![a, b]) == store.append(key, a).append(key, b));
    assert(store.append_all(key, items) == store.append(key, a).append(key, b).append(key, c));
    lemma_appended_items_read_back(store, key, items);
}

/// An item that holds newlines, appended to a key that had no value, is
/// read back unchanged, as the one item of the list. This holds of an
/// item without a backslash directly followed by the letter `n`.
pub proof fn lemma_appended_item_reads_back(store: StoreState, key: Seq<char>, item: Seq<char>)
    requires
        !store.has(key),
        !has_escape_sequence(item),
    ensures
        store.append(key, item).read_list(key) == seq![item],
{
    let items = seq![item];
    assert(items.drop_last() =~= Seq::<Seq<char>>::empty());
    assert(store.append_all(key, Seq::<Seq<char>>::empty()) == store);
    assert(store.append_all(key, items) == store.append(key, item));
    lemma_appended_items_read_back(store, key, items);
}

} // verus!
