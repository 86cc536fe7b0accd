//! The store: values under keys, and listeners that are told of changes.

use tokio::sync::broadcast;
use vstd::hash_map::StringHashMap;
use vstd::prelude::*;
use crate::channel::{
    channel, handed_back, new_channel, send, subscribe, tap, Channel, Refused, Tap,
};
use crate::json::Json;
use crate::tree::{lemma_same_tree_reflexive, lemma_same_tree_transitive, same_tree, Tree};

verus! {

/// How many values a channel to listeners holds for a receiver that is slow to take them.
pub const CHANNEL_CAPACITY: usize = 100;

/// Values under keys. A key can have listeners, who are told of each change of its value.
pub struct Storage {
    data: StringHashMap<Json>,
    /// The senders to the listeners of each key. They are sent on through a mutable reference,
    /// which a `StringHashMap` does not hand out.
    listeners: Vec<(String, broadcast::Sender<Json>)>,
}

/// What a store holds.
#[verifier::ext_equal]
pub struct Contents {
    /// The values, by their keys.
    pub data: Map<Seq<char>, Tree>,
    /// The channels to listeners, by the keys they listen to.
    pub listeners: Map<Seq<char>, Channel>,
}

impl Contents {
    /// The value under a key; null where there is none.
    pub open spec fn read(self, key: Seq<char>) -> Tree {
        if self.data.contains_key(key) {
            self.data[key]
        } else {
            Tree::Null
        }
    }

    /// The contents with a value under a key, whatever stood there.
    pub open spec fn write(self, key: Seq<char>, value: Tree) -> Contents {
        Contents { data: self.data.insert(key, value), ..self }
    }

    /// Whether listeners are to be told when a value comes under a key: the key is listened to
    /// and the value is not the one that is there.
    pub open spec fn tells(self, key: Seq<char>, value: Tree) -> bool {
        self.listeners.contains_key(key) && !same_tree(self.read(key), value)
    }

    /// Whether a notice is true of a value that comes under a key: nobody was to be told, or
    /// the value was sent on the channel of the key, which took it or handed it back.
    pub open spec fn reported(self, key: Seq<char>, value: Tree, notice: Notice) -> bool {
        &&& notice is Silent <==> !self.tells(key, value)
        &&& notice matches Notice::Unheard(refused) ==> {
            &&& handed_back(refused.error) == value
            &&& refused.by@ == self.listeners[key]
        }
    }

    /// The contents after a value came under a key, by what became of telling its listeners.
    pub open spec fn inserted(self, key: Seq<char>, value: Tree, notice: Notice) -> Contents {
        if notice is Sent {
            self.write(key, value).tell(key, value)
        } else {
            self.write(key, value)
        }
    }

    /// The contents after the value under a key was taken away.
    pub open spec fn removed(self, key: Seq<char>) -> Contents {
        Contents { data: self.data.remove(key), ..self }
    }

    /// The contents after a key was listened to: they have the channel that the key has, or a
    /// new one, which has taken nothing yet.
    pub open spec fn listened(self, key: Seq<char>, id: int) -> Contents {
        if self.listeners.contains_key(key) {
            self
        } else {
            let channel = Channel {
                id,
                capacity: CHANNEL_CAPACITY as nat,
                sent: Seq::empty(),
            };
            Contents { listeners: self.listeners.insert(key, channel), ..self }
        }
    }

    /// The contents after the listeners of a key were let go.
    pub open spec fn unsubscribed(self, key: Seq<char>) -> Contents {
        Contents { listeners: self.listeners.remove(key), ..self }
    }

    /// The contents after a value was sent to the listeners of a key.
    pub open spec fn tell(self, key: Seq<char>, value: Tree) -> Contents {
        Contents {
            listeners: self.listeners.insert(key, self.listeners[key].push(value)),
            ..self
        }
    }
}

/// A value that comes under a key, and what becomes of telling the listeners of the key.
pub struct Insertion {
    pub key: Seq<char>,
    pub value: Tree,
    pub notice: Notice,
}

impl Contents {
    /// The contents after some insertions, in their order.
    pub open spec fn after(self, insertions: Seq<Insertion>) -> Contents
        decreases insertions.len(),
    {
        if insertions.len() == 0 {
            self
        } else {
            let last = insertions.last();
            self.after(insertions.drop_last()).inserted(last.key, last.value, last.notice)
        }
    }

    /// Whether the notices of some insertions are true of them.
    pub open spec fn told_of(self, insertions: Seq<Insertion>) -> bool
        decreases insertions.len(),
    {
        insertions.len() == 0 || {
            let last = insertions.last();
            let before = self.after(insertions.drop_last());
            &&& self.told_of(insertions.drop_last())
            &&& before.reported(last.key, last.value, last.notice)
        }
    }

    /// The values among some insertions that the channel of a key was sent, whether it took them
    /// or handed them back.
    pub open spec fn offered(self, key: Seq<char>, insertions: Seq<Insertion>) -> Seq<Tree>
        decreases insertions.len(),
    {
        if insertions.len() == 0 {
            Seq::empty()
        } else {
            let last = insertions.last();
            let before = self.offered(key, insertions.drop_last());
            match last.notice {
                Notice::Sent if last.key == key => before.push(last.value),
                Notice::Unheard(refused) if last.key == key => before.push(handed_back(refused.error)),
                _ => before,
            }
        }
    }

    /// The values among some insertions that the channel of a key took.
    pub open spec fn taken(self, key: Seq<char>, insertions: Seq<Insertion>) -> Seq<Tree>
        decreases insertions.len(),
    {
        if insertions.len() == 0 {
            Seq::empty()
        } else {
            let last = insertions.last();
            let before = self.taken(key, insertions.drop_last());
            if last.key == key && last.notice is Sent {
                before.push(last.value)
            } else {
                before
            }
        }
    }

    /// The values among some insertions that changed what stands under a key.
    pub open spec fn changes(self, key: Seq<char>, insertions: Seq<Insertion>) -> Seq<Tree>
        decreases insertions.len(),
    {
        if insertions.len() == 0 {
            Seq::empty()
        } else {
            let last = insertions.last();
            let before = self.changes(key, insertions.drop_last());
            if last.key == key && !same_tree(
                self.after(insertions.drop_last()).read(key),
                last.value,
            ) {
                before.push(last.value)
            } else {
                before
            }
        }
    }
}

/// The value that a listener knows who knew one at first and has heard of changes since.
pub open spec fn known(first: Tree, heard: Seq<Tree>) -> Tree {
    if heard.len() == 0 {
        first
    } else {
        heard.last()
    }
}

/// What became of telling listeners of a value.
pub enum Notice {
    /// Nobody was to be told.
    Silent,
    /// The value was sent.
    Sent,
    /// The value was sent, but handed back, since all receivers were gone.
    Unheard(Refused),
}

/// The place of a key among listeners.
spec fn holds(listeners: Seq<(String, broadcast::Sender<Json>)>, i: int, key: Seq<char>) -> bool {
    0 <= i < listeners.len() && listeners[i].0@ == key
}

impl Storage {
    spec fn listener_map(self) -> Map<Seq<char>, Channel> {
        Map::new(
            |key: Seq<char>| exists|i: int| holds(self.listeners@, i, key),
            |key: Seq<char>|
                channel(self.listeners@[choose|i: int| holds(self.listeners@, i, key)].1),
        )
    }

    /// Whether no key stands twice among the listeners, and their channels have the capacity
    /// that channels to listeners have.
    pub closed spec fn wf(self) -> bool {
        &&& forall|i: int, j: int|
            0 <= i < j < self.listeners@.len() ==> (#[trigger] self.listeners@[i]).0@ != (
            #[trigger] self.listeners@[j]).0@
        &&& forall|i: int|
            0 <= i < self.listeners@.len() ==> channel(
                (#[trigger] self.listeners@[i]).1,
            ).capacity == CHANNEL_CAPACITY
    }
}

impl View for Storage {
    type V = Contents;

    closed spec fn view(&self) -> Contents {
        Contents {
            data: self.data@.map_values(|value: Json| value@),
            listeners: self.listener_map(),
        }
    }
}

impl Default for Storage {
    fn default() -> (storage: Storage)
        ensures
            storage.wf(),
            storage@.data == Map::<Seq<char>, Tree>::empty(),
            storage@.listeners == Map::<Seq<char>, Channel>::empty(),
    {
        let storage = Storage { data: StringHashMap::new(), listeners: Vec::new() };
        assert(storage@.data =~= Map::empty());
        assert(storage@.listeners =~= Map::empty());
        storage
    }
}

/// What one more pair of a key and a sender does to the contents.
proof fn lemma_pushed(
    before: Storage,
    after: Storage,
    key: String,
    sender: broadcast::Sender<Json>,
)
    requires
        before.wf(),
        !before@.listeners.contains_key(key@),
        channel(sender).capacity == CHANNEL_CAPACITY,
        after.data == before.data,
        after.listeners@ == before.listeners@.push((key, sender)),
    ensures
        after.wf(),
        after@.data == before@.data,
        after@.listeners == before@.listeners.insert(key@, channel(sender)),
{
    let last = before.listeners@.len() as int;
    let expected = before@.listeners.insert(key@, channel(sender));
    assert forall|i: int| 0 <= i < last implies (#[trigger] after.listeners@[i]).0@ != key@ by {
        assert(before.listeners@[i] == after.listeners@[i]);
        lemma_listener_at(before, i);
    }
    assert(after.wf());
    assert forall|other: Seq<char>| #[trigger]
        after@.listeners.dom().contains(other) == expected.dom().contains(other) by {
        if after@.listeners.contains_key(other) {
            let k = lemma_listener_of(after, other);
            if k < last {
                assert(holds(before.listeners@, k, other));
            }
        }
        if before@.listeners.contains_key(other) {
            let k = lemma_listener_of(before, other);
            assert(holds(after.listeners@, k, other));
        }
        if other == key@ {
            assert(holds(after.listeners@, last, other));
        }
    }
    assert forall|other: Seq<char>| #[trigger]
        after@.listeners.dom().contains(other) implies after@.listeners[other]
        == expected[other] by {
        let k = lemma_listener_of(after, other);
        if k < last {
            lemma_listener_at(before, k);
        }
    }
    assert(after@.listeners =~= expected);
    assert(after@.data =~= before@.data);
}

/// What taking away the pair at a place does to the contents.
proof fn lemma_dropped(before: Storage, after: Storage, i: int, key: Seq<char>)
    requires
        before.wf(),
        holds(before.listeners@, i, key),
        after.data == before.data,
        after.listeners@ == before.listeners@.remove(i),
    ensures
        after.wf(),
        after@ == before@.unsubscribed(key),
{
    let expected = before@.listeners.remove(key);
    assert forall|k: int| 0 <= k < after.listeners@.len() implies #[trigger] after.listeners@[k]
        == before.listeners@[if k < i {
        k
    } else {
        k + 1
    }] by {}
    assert(after.wf());
    assert forall|other: Seq<char>| #[trigger]
        after@.listeners.dom().contains(other) == expected.dom().contains(other) by {
        if after@.listeners.contains_key(other) {
            let k = lemma_listener_of(after, other);
            assert(after.listeners@[k].0@ == other);
            assert(holds(
                before.listeners@,
                if k < i {
                    k
                } else {
                    k + 1
                },
                other,
            ));
        }
        if expected.dom().contains(other) {
            let k = lemma_listener_of(before, other);
            assert(after.listeners@[if k < i {
                k
            } else {
                k - 1
            }] == before.listeners@[k]);
            assert(holds(
                after.listeners@,
                if k < i {
                    k
                } else {
                    k - 1
                },
                other,
            ));
        }
    }
    assert forall|other: Seq<char>| #[trigger]
        after@.listeners.dom().contains(other) implies after@.listeners[other]
        == expected[other] by {
        let k = lemma_listener_of(after, other);
        lemma_listener_at(
            before,
            if k < i {
                k
            } else {
                k + 1
            },
        );
    }
    assert(after@.listeners =~= expected);
    assert(after@.data =~= before@.data);
}

/// What sending a value to the listeners at a place does to the contents.
proof fn lemma_told(
    before: Storage,
    after: Storage,
    i: int,
    key: Seq<char>,
    value: Tree,
    taken: bool,
)
    requires
        before.wf(),
        holds(before.listeners@, i, key),
        after.data == before.data,
        after.listeners@.len() == before.listeners@.len(),
        forall|k: int|
            0 <= k < after.listeners@.len() && k != i ==> (#[trigger] after.listeners@[k])
                == before.listeners@[k],
        after.listeners@[i].0 == before.listeners@[i].0,
        channel(after.listeners@[i].1) == if taken {
            channel(before.listeners@[i].1).push(value)
        } else {
            channel(before.listeners@[i].1)
        },
    ensures
        after.wf(),
        after@ == if taken {
            before@.tell(key, value)
        } else {
            before@
        },
{
    let told = if taken {
        before@.tell(key, value)
    } else {
        before@
    };
    assert forall|k: int| 0 <= k < after.listeners@.len() implies (
    #[trigger] after.listeners@[k]).0@ == before.listeners@[k].0@ by {}
    assert(after.wf());
    lemma_listener_at(before, i);
    assert forall|other: Seq<char>| #[trigger]
        after@.listeners.dom().contains(other) == told.listeners.dom().contains(other) by {
        if after@.listeners.contains_key(other) {
            let k = lemma_listener_of(after, other);
            assert(holds(before.listeners@, k, other));
        }
        if before@.listeners.contains_key(other) {
            let k = lemma_listener_of(before, other);
            assert(holds(after.listeners@, k, other));
        }
    }
    assert forall|other: Seq<char>| #[trigger]
        after@.listeners.dom().contains(other) implies after@.listeners[other]
        == told.listeners[other] by {
        let k = lemma_listener_of(after, other);
        lemma_listener_at(before, k);
    }
    assert(after@.listeners =~= told.listeners);
    assert(after@.data =~= told.data);
}

/// The channel of each listener is the one that the store has under its key.
proof fn lemma_listener_at(storage: Storage, i: int)
    requires
        storage.wf(),
        0 <= i < storage.listeners@.len(),
    ensures
        storage@.listeners.contains_key(storage.listeners@[i].0@),
        storage@.listeners[storage.listeners@[i].0@] == channel(storage.listeners@[i].1),
{
    let listeners = storage.listeners@;
    let key = listeners[i].0@;
    assert(holds(listeners, i, key));
    let j = choose|j: int| holds(listeners, j, key);
    assert(holds(listeners, j, key));
    assert(listeners[i].0@ == listeners[j].0@);
}

/// A key that the store has a channel for stands among the listeners.
proof fn lemma_listener_of(storage: Storage, key: Seq<char>) -> (i: int)
    requires
        storage.wf(),
        storage@.listeners.contains_key(key),
    ensures
        holds(storage.listeners@, i, key),
        storage@.listeners[key] == channel(storage.listeners@[i].1),
{
    let i = choose|i: int| holds(storage.listeners@, i, key);
    lemma_listener_at(storage, i);
    i
}

impl Storage {
    /// Where the listeners of a key stand.
    fn find(&self, key: &str) -> (place: Option<usize>)
        requires
            self.wf(),
        ensures
            match place {
                Some(i) => {
                    &&& holds(self.listeners@, i as int, key@)
                    &&& self@.listeners.contains_key(key@)
                    &&& self@.listeners[key@] == channel(self.listeners@[i as int].1)
                },
                None => !self@.listeners.contains_key(key@),
            },
    {
        for i in 0..self.listeners.len()
            invariant
                self.wf(),
                forall|k: int| 0 <= k < i ==> !#[trigger] holds(self.listeners@, k, key@),
        {
            if *self.listeners[i].0.as_str() == *key {
                proof {
                    lemma_listener_at(*self, i as int);
                }
                return Some(i);
            }
        }
        None
    }

    /// Puts a value under a key. The listeners of the key are sent the value, if it is not the
    /// one that was there. Whether there is still a receiver for it, other tasks decide; a value
    /// that finds none comes back in the notice.
    pub fn insert(&mut self, key: String, value: Json) -> (notice: Notice)
        requires
            old(self).wf(),
        ensures
            final(self).wf(),
            old(self)@.reported(key@, value@, notice),
            final(self)@ == old(self)@.inserted(key@, value@, notice),
    {
        let changed = !(*self.get(key.as_str()) == value);
        let place = self.find(key.as_str());
        self.data.insert(key.clone(), value.clone());
        assert(self@.data =~= old(self)@.write(key@, value@).data);
        assert(self@.listeners =~= old(self)@.listeners);
        match place {
            Some(i) => {
                if changed {
                    let ghost before = *self;
                    let sent = send(&mut self.listeners[i].1, value);
                    proof {
                        lemma_told(before, *self, i as int, key@, value@, sent is Ok);
                    }
                    match sent {
                        Ok(_) => Notice::Sent,
                        Err(refused) => Notice::Unheard(refused),
                    }
                } else {
                    Notice::Silent
                }
            },
            None => Notice::Silent,
        }
    }

    /// Takes the value away that stands under a key, if there is one. Listeners are not told.
    pub fn remove(&mut self, key: &str)
        requires
            old(self).wf(),
        ensures
            final(self).wf(),
            final(self)@ == old(self)@.removed(key@),
    {
        self.data.remove(key);
        assert(self@.data =~= old(self)@.data.remove(key@));
        assert(self@.listeners =~= old(self)@.listeners);
    }

    /// A receiver of the values that come under a key from now on.
    pub fn listen(&mut self, key: String) -> (receiver: broadcast::Receiver<Json>)
        requires
            old(self).wf(),
        ensures
            final(self).wf(),
            final(self)@ == old(self)@.listened(key@, tap(receiver).channel),
            tap(receiver) == final(self)@.listeners[key@].end(),
    {
        match self.find(key.as_str()) {
            Some(i) => subscribe(&self.listeners[i].1),
            None => {
                let (sender, receiver) = new_channel(CHANNEL_CAPACITY);
                let ghost before = *self;
                self.listeners.push((key, sender));
                proof {
                    lemma_pushed(before, *self, key, sender);
                }
                receiver
            },
        }
    }

    /// Lets the listeners of a key go: their channel closes.
    pub fn unsubscribe(&mut self, key: &str)
        requires
            old(self).wf(),
            old(self)@.listeners.contains_key(key@),
        ensures
            final(self).wf(),
            final(self)@ == old(self)@.unsubscribed(key@),
    {
        if let Some(i) = self.find(key) {
            let ghost before = *self;
            self.listeners.remove(i);
            proof {
                lemma_dropped(before, *self, i as int, key@);
            }
        }
    }

    /// The value under a key; null where there is none.
    pub fn get(&self, key: &str) -> (value: &Json)
        ensures
            value@ == self@.read(key@),
    {
        match self.data.get(key) {
            Some(value) => value,
            None => &Json::Null,
        }
    }
}

/// A key reads as what was last put under it, whoever was told of it, and the other keys read
/// as before.
pub proof fn lemma_read_after_insert(
    contents: Contents,
    key: Seq<char>,
    value: Tree,
    notice: Notice,
    other: Seq<char>,
)
    ensures
        contents.inserted(key, value, notice).read(key) == value,
        other != key ==> contents.inserted(key, value, notice).read(other) == contents.read(other),
{
}

/// A key reads as null after its value was taken away, the other keys read as before, and no
/// listener is told.
pub proof fn lemma_read_after_remove(contents: Contents, key: Seq<char>, other: Seq<char>)
    ensures
        contents.removed(key).read(key) == Tree::Null,
        contents.removed(key).listeners == contents.listeners,
        other != key ==> contents.removed(key).read(other) == contents.read(other),
{
}

/// Putting the value under a key again that is there tells nobody.
pub proof fn lemma_repeat_is_silent(
    contents: Contents,
    key: Seq<char>,
    value: Tree,
    notice: Notice,
    again: Tree,
)
    requires
        same_tree(value, again),
    ensures
        !contents.inserted(key, value, notice).tells(key, again),
{
}

/// A key with nothing under it already reads as null, so putting null there tells nobody.
pub proof fn lemma_null_over_nothing_is_silent(contents: Contents, key: Seq<char>)
    requires
        !contents.data.contains_key(key),
    ensures
        !contents.tells(key, Tree::Null),
{
}

/// Of a key whose listeners were let go, nobody is told any more.
pub proof fn lemma_let_go_is_silent(contents: Contents, key: Seq<char>, value: Tree)
    ensures
        !contents.unsubscribed(key).tells(key, value),
{
}

/// A key is listened to from the first time that somebody begins to listen to it until its
/// listeners are let go, which can be done once: neither values that come or are taken away, nor
/// receivers that are gone, nor what is done with other keys, changes that.
pub proof fn lemma_listened_until_let_go(
    contents: Contents,
    key: Seq<char>,
    id: int,
    other: Seq<char>,
    value: Tree,
    notice: Notice,
)
    requires
        contents.reported(other, value, notice),
    ensures
        contents.listened(key, id).listeners.contains_key(key),
        !contents.unsubscribed(key).listeners.contains_key(key),
        contents.inserted(other, value, notice).listeners.contains_key(key)
            == contents.listeners.contains_key(key),
        contents.removed(other).listeners.contains_key(key) == contents.listeners.contains_key(key),
        other != key ==> contents.listened(other, id).listeners.contains_key(key)
            == contents.listeners.contains_key(key),
        other != key ==> contents.unsubscribed(other).listeners.contains_key(key)
            == contents.listeners.contains_key(key),
{
}

/// Who begins to listen to a key changes no value, and no channel that is there: all who listen
/// to one key share its channel.
pub proof fn lemma_listening_changes_nothing(
    contents: Contents,
    key: Seq<char>,
    id: int,
    again: int,
    other: Seq<char>,
)
    ensures
        contents.listened(key, id).read(other) == contents.read(other),
        contents.listeners.contains_key(other) ==> contents.listened(key, id).listeners[other]
            == contents.listeners[other],
        contents.listened(key, id).listened(key, again) == contents.listened(key, id),
{
}

/// Who begins to listen to a key and reads its value knows the value, and has heard nothing.
pub proof fn lemma_listener_begins(contents: Contents, key: Seq<char>, id: int)
    ensures
        ({
            let after = contents.listened(key, id);
            let tap = after.listeners[key].end();
            &&& after.listeners.contains_key(key)
            &&& tap.hears(after.listeners[key]) == Seq::<Tree>::empty()
            &&& same_tree(known(contents.read(key), Seq::empty()), after.read(key))
        }),
{
    let channel = contents.listened(key, id).listeners[key];
    assert(channel.end().hears(channel) =~= Seq::<Tree>::empty());
    lemma_same_tree_reflexive(contents.read(key));
}

/// A listener knows the value under its key: who has heard all that its channel took, and knew
/// the value when it began to listen, knows the value after each insertion too, under
/// whichever key. The one insertion left out is of a value that was sent on the channel of this
/// listener but found no receiver there.
pub proof fn lemma_listener_follows(
    contents: Contents,
    tap: Tap,
    key: Seq<char>,
    first: Tree,
    changed: Seq<char>,
    value: Tree,
    notice: Notice,
)
    requires
        contents.listeners.contains_key(key),
        tap.channel == contents.listeners[key].id,
        tap.from <= contents.listeners[key].sent.len(),
        same_tree(known(first, tap.hears(contents.listeners[key])), contents.read(key)),
        contents.reported(changed, value, notice),
        changed == key ==> !(notice is Unheard),
    ensures
        ({
            let after = contents.inserted(changed, value, notice);
            &&& after.listeners.contains_key(key)
            &&& tap.channel == after.listeners[key].id
            &&& tap.from <= after.listeners[key].sent.len()
            &&& same_tree(known(first, tap.hears(after.listeners[key])), after.read(key))
        }),
{
    let after = contents.inserted(changed, value, notice);
    let heard = tap.hears(contents.listeners[key]);
    if changed == key {
        if notice is Sent {
            assert(tap.hears(after.listeners[key]) =~= heard.push(value));
            lemma_same_tree_reflexive(value);
        } else {
            lemma_same_tree_transitive(known(first, heard), contents.read(key), value);
        }
    }
}

/// Each change under a key that is listened to is sent on the channel of the key, once and in
/// their order, and nothing else is: what the channel does not take it hands back.
pub proof fn lemma_changes_are_offered(
    contents: Contents,
    key: Seq<char>,
    insertions: Seq<Insertion>,
)
    requires
        contents.listeners.contains_key(key),
        contents.told_of(insertions),
    ensures
        contents.offered(key, insertions) == contents.changes(key, insertions),
    decreases insertions.len(),
{
    if insertions.len() > 0 {
        let start = insertions.drop_last();
        lemma_changes_are_offered(contents, key, start);
        lemma_channels_grow(contents, key, start);
    }
}

/// A listener hears of what the channel of its key took, and of nothing else, while it keeps up.
pub proof fn lemma_listener_hears_what_is_taken(
    contents: Contents,
    key: Seq<char>,
    insertions: Seq<Insertion>,
)
    requires
        contents.listeners.contains_key(key),
        contents.told_of(insertions),
    ensures
        ({
            let tap = contents.listeners[key].end();
            let after = contents.after(insertions);
            &&& after.listeners.contains_key(key)
            &&& after.listeners[key].id == tap.channel
            &&& tap.hears(after.listeners[key]) == contents.taken(key, insertions)
        }),
    decreases insertions.len(),
{
    let tap = contents.listeners[key].end();
    if insertions.len() == 0 {
        assert(tap.hears(contents.listeners[key]) =~= Seq::<Tree>::empty());
    } else {
        let start = insertions.drop_last();
        let last = insertions.last();
        lemma_listener_hears_what_is_taken(contents, key, start);
        let before = contents.after(start);
        let after = contents.after(insertions);
        lemma_channels_grow(contents, key, start);
        if last.key == key && last.notice is Sent {
            assert(tap.hears(after.listeners[key]) =~= tap.hears(before.listeners[key]).push(
                last.value,
            ));
        }
    }
}

/// A listener hears of the changes under its key, each of them once and in their order, and of
/// nothing else, while there is a receiver of its channel and it keeps up with them.
pub proof fn lemma_listener_hears_changes(
    contents: Contents,
    key: Seq<char>,
    insertions: Seq<Insertion>,
)
    requires
        contents.listeners.contains_key(key),
        contents.told_of(insertions),
        forall|i: int|
            0 <= i < insertions.len() && (#[trigger] insertions[i]).key == key ==> !(
            insertions[i].notice is Unheard),
    ensures
        ({
            let tap = contents.listeners[key].end();
            let after = contents.after(insertions);
            &&& after.listeners.contains_key(key)
            &&& after.listeners[key].id == tap.channel
            &&& tap.hears(after.listeners[key]) == contents.changes(key, insertions)
        }),
{
    lemma_listener_hears_what_is_taken(contents, key, insertions);
    lemma_changes_are_offered(contents, key, insertions);
    lemma_offered_are_taken(contents, key, insertions);
}

/// A channel took what it was sent, if it handed nothing back.
proof fn lemma_offered_are_taken(contents: Contents, key: Seq<char>, insertions: Seq<Insertion>)
    requires
        forall|i: int|
            0 <= i < insertions.len() && (#[trigger] insertions[i]).key == key ==> !(
            insertions[i].notice is Unheard),
    ensures
        contents.taken(key, insertions) == contents.offered(key, insertions),
    decreases insertions.len(),
{
    if insertions.len() > 0 {
        let start = insertions.drop_last();
        assert forall|i: int|
            0 <= i < start.len() && (#[trigger] start[i]).key == key implies !(
        start[i].notice is Unheard) by {
            assert(start[i] == insertions[i]);
        }
        lemma_offered_are_taken(contents, key, start);
        assert(insertions[insertions.len() - 1] == insertions.last());
    }
}

/// Who knew the value under a key at first, and has heard of the changes under the key since,
/// knows the value that stands there now.
pub proof fn lemma_changes_lead_to_value(
    contents: Contents,
    key: Seq<char>,
    insertions: Seq<Insertion>,
)
    ensures
        same_tree(
            known(contents.read(key), contents.changes(key, insertions)),
            contents.after(insertions).read(key),
        ),
    decreases insertions.len(),
{
    if insertions.len() == 0 {
        lemma_same_tree_reflexive(contents.read(key));
    } else {
        let start = insertions.drop_last();
        let last = insertions.last();
        let before = contents.after(start);
        lemma_changes_lead_to_value(contents, key, start);
        lemma_read_after_insert(before, last.key, last.value, last.notice, key);
        if last.key == key {
            if same_tree(before.read(key), last.value) {
                lemma_same_tree_transitive(
                    known(contents.read(key), contents.changes(key, start)),
                    before.read(key),
                    last.value,
                );
            } else {
                lemma_same_tree_reflexive(last.value);
            }
        }
    }
}

/// A channel keeps what it has taken.
proof fn lemma_channels_grow(contents: Contents, key: Seq<char>, insertions: Seq<Insertion>)
    requires
        contents.listeners.contains_key(key),
        contents.told_of(insertions),
    ensures
        contents.after(insertions).listeners.contains_key(key),
        contents.after(insertions).listeners[key].sent.len() >= contents.listeners[key].sent.len(),
    decreases insertions.len(),
{
    if insertions.len() > 0 {
        lemma_channels_grow(contents, key, insertions.drop_last());
    }
}

/// What a store reads and tells by: a key that holds nothing reads as null, any other as what it
/// holds, and a value is told of if and only if the key is listened to and does not read as the
/// same value already.
pub proof fn lemma_told_if_listened_and_changed(contents: Contents, key: Seq<char>, value: Tree)
    ensures
        !contents.data.contains_key(key) ==> contents.read(key) == Tree::Null,
        contents.data.contains_key(key) ==> contents.read(key) == contents.data[key],
        contents.tells(key, value) <==> contents.listeners.contains_key(key) && !same_tree(
            contents.read(key),
            value,
        ),
{
}

/// What a true notice says: a value that is to be told was put on the channel of its key behind
/// what the channel had taken, or was handed back by that channel, which is then as it was. A
/// value that is not to be told, and the channels of other keys, change no channel.
pub proof fn lemma_changes_go_to_the_channel(
    contents: Contents,
    key: Seq<char>,
    value: Tree,
    notice: Notice,
    other: Seq<char>,
)
    requires
        contents.reported(key, value, notice),
    ensures
        ({
            let after = contents.inserted(key, value, notice);
            &&& contents.tells(key, value) ==> match notice {
                Notice::Silent => false,
                Notice::Sent => {
                    &&& after.listeners[key].sent == contents.listeners[key].sent + seq![value]
                    &&& after.listeners[key].id == contents.listeners[key].id
                },
                Notice::Unheard(refused) => {
                    &&& handed_back(refused.error) == value
                    &&& refused.by@ == contents.listeners[key]
                    &&& after.listeners == contents.listeners
                },
            }
            &&& !contents.tells(key, value) ==> notice is Silent && after.listeners
                == contents.listeners
            &&& after.listeners.dom() == contents.listeners.dom()
            &&& other != key ==> after.listeners[other] == contents.listeners[other]
        }),
{
    let after = contents.inserted(key, value, notice);
    if notice is Sent {
        assert(after.listeners.dom() =~= contents.listeners.dom());
        assert(contents.listeners[key].sent.push(value) =~= contents.listeners[key].sent
            + seq![value]);
    }
}

/// A key that nobody listened to gets a channel of its own, with room for a hundred values and
/// none in it yet. Letting the listeners of a key go takes its channel away. Neither changes a
/// value, nor the channel of another key.
pub proof fn lemma_channels_come_and_go(
    contents: Contents,
    key: Seq<char>,
    id: int,
    other: Seq<char>,
)
    ensures
        !contents.listeners.contains_key(key) ==> contents.listened(key, id).listeners[key] == (
        Channel { id, capacity: 100, sent: Seq::empty() }),
        contents.listeners.contains_key(key) ==> contents.listened(key, id) == contents,
        contents.listened(key, id).data == contents.data,
        contents.unsubscribed(key).data == contents.data,
        !contents.unsubscribed(key).listeners.contains_key(key),
        other != key ==> {
            &&& contents.listened(key, id).listeners[other] == contents.listeners[other]
            &&& contents.unsubscribed(key).listeners[other] == contents.listeners[other]
            &&& contents.listened(key, id).listeners.contains_key(other)
                == contents.listeners.contains_key(other)
            &&& contents.unsubscribed(key).listeners.contains_key(other)
                == contents.listeners.contains_key(other)
        },
{
}

/// Putting values under two keys gives the same values in either order.
pub proof fn lemma_keys_are_apart(
    contents: Contents,
    key: Seq<char>,
    value: Tree,
    notice: Notice,
    other: Seq<char>,
    another: Tree,
    second: Notice,
)
    requires
        key != other,
    ensures
        contents.inserted(key, value, notice).inserted(other, another, second).data
            == contents.inserted(other, another, second).inserted(key, value, notice).data,
{
    assert(contents.data.insert(key, value).insert(other, another) =~= contents.data.insert(
        other,
        another,
    ).insert(key, value));
}

} // verus!
