//! In-memory message store.

use crate::outside::buffer::{copy_from_slice, frozen, share};
use crate::store::stored::{stored_views, StoredMessage, StoredView};
use crate::store::traits::{
    check_range, is_ascending, is_legal_range, range_end, MessageStore,
};
use crate::types::error::StoreError;
use crate::types::message::{MsgType, MsgTypeView};
use bytes::Bytes;
use std::collections::BTreeMap;
use std::time::SystemTime;
use vstd::prelude::*;
use vstd::std_specs::btree::{increasing_seq, spec_btree_map_iter};
use vstd::std_specs::cmp::OrdSpec;
use vstd::std_specs::iter::IteratorSpec;

verus! {

/// Whether `list` holds a message with the given sequence number.
pub open spec fn holds(list: Seq<StoredView>, seq_num: u64) -> bool {
    exists|i: int| 0 <= i < list.len() && (#[trigger] list[i]).seq_num == seq_num
}

/// Whether `message` is what `messages` holds under its sequence number, and
/// that number lies in `begin..=end`.
pub open spec fn is_stored(
    messages: Map<u64, (MsgTypeView, Seq<u8>)>,
    begin: u64,
    end: u64,
    message: StoredView,
) -> bool {
    &&& begin <= message.seq_num <= end
    &&& messages.contains_key(message.seq_num)
    &&& messages[message.seq_num] == (message.msg_type, message.payload)
}

/// Whether `list` holds the messages with numbers in `begin..=end`: ascending,
/// each as it was filed, and none left out but, where a limit was reached,
/// those behind the last one.
pub open spec fn lists(
    list: Seq<StoredView>,
    messages: Map<u64, (MsgTypeView, Seq<u8>)>,
    begin: u64,
    end: u64,
    limit: Option<nat>,
) -> bool {
    &&& is_ascending(list)
    &&& forall|i: int| 0 <= i < list.len() ==> is_stored(messages, begin, end, #[trigger] list[i])
    &&& limit matches Some(most) ==> list.len() <= most
    &&& forall|seq_num: u64| #[trigger]
        messages.contains_key(seq_num) && begin <= seq_num <= end ==> holds(list, seq_num) || (limit
            == Some(list.len()) && forall|i: int|
            0 <= i < list.len() ==> (#[trigger] list[i]).seq_num < seq_num)
}

/// What a store holds.
#[verifier::ext_equal]
pub struct StoreView {
    /// Type and frame of the stored messages, by sequence number.
    pub messages: Map<u64, (MsgTypeView, Seq<u8>)>,
    /// Next sender sequence number.
    pub next_sender_seq: u64,
    /// Next expected target sequence number.
    pub next_target_seq: u64,
    /// When the store was created.
    pub creation_time: SystemTime,
}

impl StoreView {
    /// A store that was created at `now` and holds no message.
    pub open spec fn fresh(sender_seq: u64, target_seq: u64, now: SystemTime) -> Self {
        StoreView {
            messages: Map::empty(),
            next_sender_seq: sender_seq,
            next_target_seq: target_seq,
            creation_time: now,
        }
    }
}

/// What the entries of the map say.
pub open spec fn entries_view(entries: Map<u64, (MsgType, Bytes)>) -> Map<
    u64,
    (MsgTypeView, Seq<u8>),
> {
    entries.map_values(|entry: (MsgType, Bytes)| (entry.0@, frozen(entry.1)))
}

/// Whether `keys` are the numbers of the stored messages, strictly ascending.
spec fn are_keys(keys: Seq<u64>, entries: Map<u64, (MsgType, Bytes)>) -> bool {
    &&& forall|i: int, j: int| 0 <= i < j < keys.len() ==> keys[i] < keys[j]
    &&& forall|i: int| 0 <= i < keys.len() ==> entries.contains_key(#[trigger] keys[i])
    &&& forall|key: u64| #[trigger] entries.contains_key(key) ==> keys.contains(key)
}

/// What the order of a map's keys means for numbers.
proof fn lemma_increasing(keys: Seq<u64>)
    requires
        increasing_seq(keys),
    ensures
        forall|i: int, j: int| 0 <= i < j < keys.len() ==> keys[i] < keys[j],
{
    assert forall|i: int, j: int| 0 <= i < j < keys.len() implies keys[i] < keys[j] by {
        assert(keys[i].cmp_spec(&keys[j]) is Less);
    }
}

/// Whether `list` holds what the first `n` keys name within `begin..=end`.
spec fn has_walked(
    list: Seq<StoredView>,
    entries: Map<u64, (MsgType, Bytes)>,
    keys: Seq<u64>,
    n: int,
    begin: u64,
    end: u64,
) -> bool {
    &&& is_ascending(list)
    &&& forall|i: int|
        0 <= i < list.len() ==> is_stored(
            entries_view(entries),
            begin,
            end,
            #[trigger] list[i],
        )
    &&& forall|i: int|
        0 <= i < n && begin <= #[trigger] keys[i] <= end ==> holds(list, keys[i])
    &&& forall|i: int, j: int|
        0 <= i < list.len() && n <= j < keys.len() ==> (#[trigger] list[i]).seq_num
            < #[trigger] keys[j]
}

/// Taking up the message under the next key.
proof fn lemma_walk_on(
    list: Seq<StoredView>,
    entries: Map<u64, (MsgType, Bytes)>,
    keys: Seq<u64>,
    n: int,
    begin: u64,
    end: u64,
    message: StoredView,
)
    requires
        are_keys(keys, entries),
        has_walked(list, entries, keys, n, begin, end),
        0 <= n < keys.len(),
        message.seq_num == keys[n],
        is_stored(entries_view(entries), begin, end, message),
    ensures
        has_walked(list.push(message), entries, keys, n + 1, begin, end),
{
    let longer = list.push(message);
    assert forall|i: int| 0 <= i < n + 1 && begin <= #[trigger] keys[i] <= end implies holds(
        longer,
        keys[i],
    ) by {
        if i < n {
            let at = choose|at: int|
                0 <= at < list.len() && (#[trigger] list[at]).seq_num == keys[i];
            assert(longer[at] == list[at]);
        } else {
            assert(longer[list.len() as int] == message);
        }
    }
}

/// A walk that stopped at key `n` lists the range, where the keys from there on
/// lie behind the range or the limit was reached.
proof fn lemma_walk_ends(
    list: Seq<StoredView>,
    entries: Map<u64, (MsgType, Bytes)>,
    keys: Seq<u64>,
    n: int,
    begin: u64,
    end: u64,
    limit: Option<nat>,
)
    requires
        are_keys(keys, entries),
        has_walked(list, entries, keys, n, begin, end),
        0 <= n <= keys.len(),
        n < keys.len() ==> keys[n] > end || limit == Some(list.len()),
        limit matches Some(most) ==> list.len() <= most,
    ensures
        lists(list, entries_view(entries), begin, end, limit),
{
    let messages = entries_view(entries);
    assert forall|seq_num: u64| #[trigger]
        messages.contains_key(seq_num) && begin <= seq_num <= end implies holds(list, seq_num) || (
    limit == Some(list.len()) && forall|i: int|
        0 <= i < list.len() ==> (#[trigger] list[i]).seq_num < seq_num) by {
        assert(entries.contains_key(seq_num));
        let at = choose|at: int| 0 <= at < keys.len() && keys[at] == seq_num;
        if at >= n {
            assert(keys[n] <= keys[at]);
        }
    }
}

/// Reads the entries with numbers in `begin..=end`, up to the limit if there is
/// one.
fn collect(
    entries: &BTreeMap<u64, (MsgType, Bytes)>,
    begin: u64,
    end: u64,
    limit: Option<usize>,
) -> (list: Vec<StoredMessage>)
    ensures
        lists(
            stored_views(list@),
            entries_view(entries@),
            begin,
            end,
            match limit {
                Some(most) => Some(most as nat),
                None => None,
            },
        ),
{
    let iter = entries.iter();
    let ghost items = spec_btree_map_iter(entries).remaining();
    let ghost keys = items.map_values(|item: (&u64, &(MsgType, Bytes))| *item.0);
    proof {
        let sorted = iter.remaining().map_values(|kv: (&u64, &(MsgType, Bytes))| *kv.0);
        assert(sorted =~= keys);
        assert(increasing_seq(keys));
        assert forall|i: int| 0 <= i < keys.len() implies entries@.contains_key(
            #[trigger] keys[i],
        ) by {
            assert(keys[i] == *items[i].0);
        }
        assert forall|key: u64| #[trigger] entries@.contains_key(key) implies keys.contains(
            key,
        ) by {
            let at = choose|at: int|
                0 <= at < items.len() && items[at] == (&key, &entries@[key]);
            assert(items.contains((&key, &entries@[key])));
            assert(keys[at] == key);
        }
        lemma_increasing(keys);
    }
    let ghost most: Option<nat> = match limit {
        Some(most) => Some(most as nat),
        None => None,
    };
    let mut list: Vec<StoredMessage> = Vec::new();
    for item in it: iter
        invariant
            it.seq() == items,
            items == spec_btree_map_iter(entries).remaining(),
            keys == items.map_values(|item: (&u64, &(MsgType, Bytes))| *item.0),
            are_keys(keys, entries@),
            has_walked(stored_views(list@), entries@, keys, it.index(), begin, end),
            most matches Some(n) ==> list@.len() <= n,
            most == match limit {
                Some(most) => Some(most as nat),
                None => None::<nat>,
            },
    {
        let (seq_num, entry) = item;
        assert(keys[it.index()] == *seq_num);
        assert(entries@[*items[it.index()].0] == *items[it.index()].1);
        if *seq_num > end {
            proof {
                lemma_walk_ends(stored_views(list@), entries@, keys, it.index(), begin, end, most);
            }
            return list;
        }
        if *seq_num >= begin {
            if let Some(most_) = limit {
                if list.len() >= most_ {
                    proof {
                        lemma_walk_ends(
                            stored_views(list@),
                            entries@,
                            keys,
                            it.index(),
                            begin,
                            end,
                            most,
                        );
                    }
                    return list;
                }
            }
            let message = StoredMessage::new(*seq_num, entry.0.clone(), share(&entry.1));
            proof {
                lemma_walk_on(
                    stored_views(list@),
                    entries@,
                    keys,
                    it.index(),
                    begin,
                    end,
                    message@,
                );
                assert(stored_views(list@.push(message)) =~= stored_views(list@).push(message@));
            }
            list.push(message);
        }
    }
    proof {
        lemma_walk_ends(
            stored_views(list@),
            entries@,
            keys,
            keys.len() as int,
            begin,
            end,
            most,
        );
    }
    list
}

/// In-memory message store.
///
/// Stores messages in a `BTreeMap`, by sequence number. Not persistent: all
/// data is lost when the process exits, so it cannot carry a session across a
/// restart. A store that several tasks use is shared behind a lock.
#[derive(Debug)]
pub struct MemoryStore {
    /// Stored frames and their recorded `MsgType`, by sequence number.
    messages: BTreeMap<u64, (MsgType, Bytes)>,
    /// Next sender sequence number.
    next_sender_seq: u64,
    /// Next expected target sequence number.
    next_target_seq: u64,
    /// Store creation time.
    creation_time: SystemTime,
}

impl View for MemoryStore {
    type V = StoreView;

    closed spec fn view(&self) -> StoreView {
        StoreView {
            messages: entries_view(self.messages@),
            next_sender_seq: self.next_sender_seq,
            next_target_seq: self.next_target_seq,
            creation_time: self.creation_time,
        }
    }
}

impl MemoryStore {
    /// Creates a new empty memory store.
    #[must_use]
    pub fn new() -> (store: Self)
        ensures
            exists|now: SystemTime| #[trigger]
                call_ensures(SystemTime::now, (), now) && store@ == StoreView::fresh(1, 1, now),
    {
        Self::with_initial_seqs(1, 1)
    }

    /// Creates a new memory store with initial sequence numbers.
    #[must_use]
    pub fn with_initial_seqs(sender_seq: u64, target_seq: u64) -> (store: Self)
        ensures
            exists|now: SystemTime| #[trigger]
                call_ensures(SystemTime::now, (), now) && store@ == StoreView::fresh(
                    sender_seq,
                    target_seq,
                    now,
                ),
    {
        let now = SystemTime::now();
        Self::created_at(sender_seq, target_seq, now)
    }

    /// Creates a new memory store, the clock reading `now`.
    #[must_use]
    pub fn created_at(sender_seq: u64, target_seq: u64, now: SystemTime) -> (store: Self)
        ensures
            store@ == StoreView::fresh(sender_seq, target_seq, now),
    {
        let store = MemoryStore {
            messages: BTreeMap::new(),
            next_sender_seq: sender_seq,
            next_target_seq: target_seq,
            creation_time: now,
        };
        assert(store@.messages =~= Map::empty());
        store
    }

    /// Returns the number of stored messages.
    #[must_use]
    pub fn message_count(&self) -> (count: usize)
        ensures
            count == self@.messages.dom().len(),
    {
        assert(self@.messages.dom() =~= self.messages@.dom());
        self.messages.len()
    }

    /// Checks if a message with the given sequence number exists.
    #[must_use]
    pub fn contains(&self, seq_num: u64) -> (answer: bool)
        ensures
            answer == self@.messages.contains_key(seq_num),
    {
        self.messages.contains_key(&seq_num)
    }
}

impl Default for MemoryStore {
    fn default() -> (store: Self)
        ensures
            exists|now: SystemTime| #[trigger]
                call_ensures(SystemTime::now, (), now) && store@ == StoreView::fresh(1, 1, now),
    {
        Self::new()
    }
}

impl MessageStore for MemoryStore {
    fn store(&mut self, seq_num: u64, msg_type: &MsgType, message: &[u8]) -> (stored: Result<
        (),
        StoreError,
    >)
        ensures
            stored == Ok::<(), StoreError>(()),
            final(self)@ == (StoreView {
                messages: old(self)@.messages.insert(seq_num, (msg_type@, message@)),
                ..old(self)@
            }),
    {
        let entry = (msg_type.clone(), copy_from_slice(message));
        let _ = self.messages.insert(seq_num, entry);
        assert(self@.messages =~= old(self)@.messages.insert(seq_num, (msg_type@, message@)));
        Ok(())
    }

    fn get_range(&self, begin: u64, end: u64) -> (range: Result<Vec<StoredMessage>, StoreError>)
        ensures
            match range {
                Ok(messages) => {
                    &&& is_legal_range(begin, range_end(end))
                    &&& messages@.len() > 0
                    &&& lists(
                        stored_views(messages@),
                        self@.messages,
                        begin,
                        range_end(end),
                        None,
                    )
                },
                Err(e) => if is_legal_range(begin, range_end(end)) {
                    &&& e == (StoreError::RangeNotAvailable { begin, end: range_end(end) })
                    &&& lists(Seq::empty(), self@.messages, begin, range_end(end), None)
                } else {
                    e == (StoreError::InvalidRange { begin, end: range_end(end) })
                },
            },
    {
        // `EndSeqNo` (16) = 0 is resolved before any comparison, so that it is
        // not mistaken for a bound below `begin`.
        let end: u64 = if end == 0 {
            u64::MAX
        } else {
            end
        };
        if let Err(error) = check_range(begin, end) {
            return Err(error);
        }
        let list = collect(&self.messages, begin, end, None);
        if list.is_empty() {
            assert(stored_views(list@) =~= Seq::empty());
            return Err(StoreError::RangeNotAvailable { begin, end });
        }
        Ok(list)
    }

    fn get_page(&self, begin: u64, end: u64, limit: usize) -> (page: Result<
        Vec<StoredMessage>,
        StoreError,
    >)
        ensures
            match page {
                Ok(messages) => {
                    &&& is_legal_range(begin, end)
                    &&& lists(
                        stored_views(messages@),
                        self@.messages,
                        begin,
                        end,
                        Some(limit as nat),
                    )
                },
                Err(e) => {
                    &&& !is_legal_range(begin, end)
                    &&& e == (StoreError::InvalidRange { begin, end })
                },
            },
    {
        if let Err(error) = check_range(begin, end) {
            return Err(error);
        }
        Ok(collect(&self.messages, begin, end, Some(limit)))
    }

    fn next_sender_seq(&self) -> (seq: u64)
        ensures
            seq == self@.next_sender_seq,
    {
        self.next_sender_seq
    }

    fn next_target_seq(&self) -> (seq: u64)
        ensures
            seq == self@.next_target_seq,
    {
        self.next_target_seq
    }

    fn set_next_sender_seq(&mut self, seq: u64)
        ensures
            final(self)@ == (StoreView { next_sender_seq: seq, ..old(self)@ }),
    {
        self.next_sender_seq = seq;
    }

    fn set_next_target_seq(&mut self, seq: u64)
        ensures
            final(self)@ == (StoreView { next_target_seq: seq, ..old(self)@ }),
    {
        self.next_target_seq = seq;
    }

    fn reset(&mut self) -> (done: Result<(), StoreError>)
        ensures
            done == Ok::<(), StoreError>(()),
            final(self)@ == StoreView::fresh(1, 1, old(self)@.creation_time),
    {
        self.messages.clear();
        self.next_sender_seq = 1;
        self.next_target_seq = 1;
        assert(self@.messages =~= Map::empty());
        Ok(())
    }

    fn creation_time(&self) -> (time: SystemTime)
        ensures
            time == self@.creation_time,
    {
        self.creation_time
    }
}

} // verus!
