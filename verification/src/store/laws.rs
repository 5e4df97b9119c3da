//! What holds of message stores.

use crate::store::memory::{holds, is_stored, lists, MemoryStore, StoreView};
use crate::store::stored::{stored_views, StoredMessage, StoredView};
use crate::store::traits::{
    check_range, is_ascending, is_legal_range, page_of, range_end, MessageStore,
};
use crate::types::error::StoreError;
use crate::types::message::MsgTypeView;
use std::time::SystemTime;
use vstd::prelude::*;

verus! {

/// What was filed is read back verbatim: a lookup that covers its number gives
/// the message with the type and the bytes it was filed with.
pub proof fn law_filed_message_is_read_back(
    messages: Map<u64, (MsgTypeView, Seq<u8>)>,
    message: StoredView,
    list: Seq<StoredView>,
    begin: u64,
    end: u64,
)
    requires
        begin <= message.seq_num <= end,
        lists(
            list,
            messages.insert(message.seq_num, (message.msg_type, message.payload)),
            begin,
            end,
            None,
        ),
    ensures
        list.contains(message),
{
    let filed = messages.insert(message.seq_num, (message.msg_type, message.payload));
    assert(filed.contains_key(message.seq_num));
    let at = choose|at: int|
        0 <= at < list.len() && (#[trigger] list[at]).seq_num == message.seq_num;
    assert(is_stored(filed, begin, end, list[at]));
    assert(list[at] =~= message);
}

/// Filing a message leaves every message under another number as it was.
pub proof fn law_filing_keeps_other_messages(
    messages: Map<u64, (MsgTypeView, Seq<u8>)>,
    message: StoredView,
    other: StoredView,
    begin: u64,
    end: u64,
)
    requires
        other.seq_num != message.seq_num,
    ensures
        is_stored(
            messages.insert(message.seq_num, (message.msg_type, message.payload)),
            begin,
            end,
            other,
        ) == is_stored(messages, begin, end, other),
{
}

/// Two lists that hold the same numbers of the same store from the start on are
/// the same up to the shorter one.
proof fn lemma_same_prefix(
    first: Seq<StoredView>,
    second: Seq<StoredView>,
    messages: Map<u64, (MsgTypeView, Seq<u8>)>,
    begin: u64,
    end: u64,
    limit: Option<nat>,
    n: int,
)
    requires
        lists(first, messages, begin, end, limit),
        lists(second, messages, begin, end, limit),
        0 <= n <= first.len(),
        n <= second.len(),
    ensures
        forall|i: int| 0 <= i < n ==> first[i] == second[i],
    decreases n,
{
    if n > 0 {
        lemma_same_prefix(first, second, messages, begin, end, limit, n - 1);
        let i = n - 1;
        lemma_not_behind(first, second, messages, begin, end, limit, i);
        lemma_not_behind(second, first, messages, begin, end, limit, i);
        assert(is_stored(messages, begin, end, first[i]));
        assert(is_stored(messages, begin, end, second[i]));
        assert(first[i] =~= second[i]);
    }
}

/// Behind a common prefix, the number that comes next in one list is not
/// missing from the other.
proof fn lemma_not_behind(
    first: Seq<StoredView>,
    second: Seq<StoredView>,
    messages: Map<u64, (MsgTypeView, Seq<u8>)>,
    begin: u64,
    end: u64,
    limit: Option<nat>,
    i: int,
)
    requires
        lists(first, messages, begin, end, limit),
        lists(second, messages, begin, end, limit),
        0 <= i < first.len(),
        i < second.len(),
        forall|j: int| 0 <= j < i ==> first[j] == second[j],
    ensures
        second[i].seq_num <= first[i].seq_num,
{
    assert(is_stored(messages, begin, end, first[i]));
    let key = first[i].seq_num;
    assert(messages.contains_key(key));
    if second[i].seq_num > key {
        assert(holds(second, key));
        let at = choose|at: int| 0 <= at < second.len() && (#[trigger] second[at]).seq_num == key;
        assert(at < i);
        assert(first[at].seq_num < first[i].seq_num);
    }
}

/// A range and a limit determine what a lookup gives.
pub proof fn law_lookup_is_determined(
    first: Seq<StoredView>,
    second: Seq<StoredView>,
    messages: Map<u64, (MsgTypeView, Seq<u8>)>,
    begin: u64,
    end: u64,
    limit: Option<nat>,
)
    requires
        lists(first, messages, begin, end, limit),
        lists(second, messages, begin, end, limit),
    ensures
        first == second,
{
    if first.len() < second.len() {
        lemma_same_prefix(first, second, messages, begin, end, limit, first.len() as int);
        lemma_not_shorter(first, second, messages, begin, end, limit);
    } else if second.len() < first.len() {
        lemma_same_prefix(second, first, messages, begin, end, limit, second.len() as int);
        lemma_not_shorter(second, first, messages, begin, end, limit);
    } else {
        lemma_same_prefix(first, second, messages, begin, end, limit, first.len() as int);
        assert(first =~= second);
    }
}

/// A list cannot end before another one of the same range and limit.
proof fn lemma_not_shorter(
    short: Seq<StoredView>,
    long: Seq<StoredView>,
    messages: Map<u64, (MsgTypeView, Seq<u8>)>,
    begin: u64,
    end: u64,
    limit: Option<nat>,
)
    requires
        lists(short, messages, begin, end, limit),
        lists(long, messages, begin, end, limit),
        forall|j: int| 0 <= j < short.len() && j < long.len() ==> short[j] == long[j],
    ensures
        short.len() >= long.len(),
{
    if short.len() < long.len() {
        let next = long[short.len() as int];
        assert(is_stored(messages, begin, end, next));
        assert(messages.contains_key(next.seq_num));
        assert(holds(short, next.seq_num));
        let at = choose|at: int|
            0 <= at < short.len() && (#[trigger] short[at]).seq_num == next.seq_num;
        assert(long[at].seq_num < next.seq_num);
    }
}

/// A page that is shorter than its limit is the whole range.
pub proof fn law_short_page_is_the_whole_range(
    page: Seq<StoredView>,
    messages: Map<u64, (MsgTypeView, Seq<u8>)>,
    begin: u64,
    end: u64,
    limit: nat,
)
    requires
        lists(page, messages, begin, end, Some(limit)),
        page.len() < limit,
    ensures
        lists(page, messages, begin, end, None),
{
}

/// Paging walks the range without a gap and without a repetition: a page,
/// continued behind its last message, is the longer page.
pub proof fn law_pages_join(
    page: Seq<StoredView>,
    next: Seq<StoredView>,
    messages: Map<u64, (MsgTypeView, Seq<u8>)>,
    begin: u64,
    end: u64,
    limit: nat,
    next_limit: nat,
)
    requires
        lists(page, messages, begin, end, Some(limit)),
        page.len() > 0,
        page.last().seq_num < end,
        lists(next, messages, (page.last().seq_num + 1) as u64, end, Some(next_limit)),
    ensures
        lists(page + next, messages, begin, end, Some(page.len() + next_limit)),
        next.len() < next_limit ==> lists(page + next, messages, begin, end, None),
{
    let both = page + next;
    let last = page.last().seq_num;
    assert(is_stored(messages, begin, end, page.last()));
    assert forall|i: int| 0 <= i < both.len() implies is_stored(
        messages,
        begin,
        end,
        #[trigger] both[i],
    ) by {
        if i < page.len() {
            assert(both[i] == page[i]);
        } else {
            assert(both[i] == next[i - page.len()]);
        }
    }
    assert(is_ascending(both)) by {
        assert forall|i: int, j: int| 0 <= i < j < both.len() implies (#[trigger] both[i]).seq_num
            < (#[trigger] both[j]).seq_num by {
            if j < page.len() {
                assert(page[i].seq_num < page[j].seq_num);
            } else if i < page.len() {
                assert(page[i].seq_num <= last);
                assert(is_stored(
                    messages,
                    (last + 1) as u64,
                    end,
                    next[j - page.len()],
                ));
            } else {
                assert(next[i - page.len()].seq_num < next[j - page.len()].seq_num);
            }
        }
    }
    assert forall|seq_num: u64| #[trigger]
        messages.contains_key(seq_num) && begin <= seq_num <= end implies holds(both, seq_num) || (
    next.len() == next_limit && forall|i: int|
        0 <= i < both.len() ==> (#[trigger] both[i]).seq_num < seq_num) by {
        if seq_num <= last {
            assert(page[page.len() - 1].seq_num == last);
            assert(holds(page, seq_num));
            let at = choose|at: int|
                0 <= at < page.len() && (#[trigger] page[at]).seq_num == seq_num;
            assert(both[at] == page[at]);
        } else if holds(next, seq_num) {
            let at = choose|at: int|
                0 <= at < next.len() && (#[trigger] next[at]).seq_num == seq_num;
            assert(both[page.len() + at] == next[at]);
        } else {
            assert forall|i: int| 0 <= i < both.len() implies (#[trigger] both[i]).seq_num
                < seq_num by {
                if i < page.len() {
                    assert(page[i].seq_num <= last);
                } else {
                    assert(both[i] == next[i - page.len()]);
                }
            }
        }
    }
}

/// A page that is cut off the front of the whole range is what a bounded read
/// gives.
pub proof fn law_cut_range_is_a_page(
    range: Seq<StoredView>,
    messages: Map<u64, (MsgTypeView, Seq<u8>)>,
    begin: u64,
    end: u64,
    limit: usize,
)
    requires
        lists(range, messages, begin, end, None),
    ensures
        page_of(Ok(range), limit) matches Ok(page) && lists(
            page,
            messages,
            begin,
            end,
            Some(limit as nat),
        ),
{
    if range.len() > limit {
        let page = range.take(limit as int);
        assert forall|i: int| 0 <= i < page.len() implies is_stored(
            messages,
            begin,
            end,
            #[trigger] page[i],
        ) by {
            assert(page[i] == range[i]);
        }
        assert(is_ascending(page));
        assert forall|seq_num: u64| #[trigger]
            messages.contains_key(seq_num) && begin <= seq_num <= end implies holds(page, seq_num)
            || (forall|i: int| 0 <= i < page.len() ==> (#[trigger] page[i]).seq_num
            < seq_num) by {
            assert(holds(range, seq_num));
            let at = choose|at: int|
                0 <= at < range.len() && (#[trigger] range[at]).seq_num == seq_num;
            if at < limit {
                assert(page[at] == range[at]);
            }
        }
    }
}

/// A store without messages has nothing to list.
pub proof fn law_empty_store_lists_nothing(
    list: Seq<StoredView>,
    begin: u64,
    end: u64,
    limit: Option<nat>,
)
    requires
        lists(list, Map::empty(), begin, end, limit),
    ensures
        list.len() == 0,
{
    if list.len() > 0 {
        assert(is_stored(Map::empty(), begin, end, list[0]));
    }
}

/// A range is refused where it names no number, and only there, however many
/// numbers it names.
pub proof fn law_range_is_refused_only_if_it_names_no_number(
    begin: u64,
    end: u64,
    legal: Result<(), StoreError>,
)
    requires
        call_ensures(check_range, (begin, end), legal),
    ensures
        legal is Ok <==> begin >= 1 && begin <= end,
        legal matches Err(e) ==> e == (StoreError::InvalidRange { begin, end }),
        range_end(0) == u64::MAX,
        end > 0 ==> range_end(end) == end,
        is_legal_range(begin, range_end(end)) <==> begin >= 1 && (end == 0 || begin <= end),
{
}

/// A list is what the store holds in the range: in ascending order, each message
/// as it was filed, at most as many as the limit, and with none left out but,
/// once the limit is reached, those behind the last one.
pub proof fn law_list_leaves_nothing_out(
    list: Seq<StoredView>,
    messages: Map<u64, (MsgTypeView, Seq<u8>)>,
    begin: u64,
    end: u64,
    limit: Option<nat>,
)
    requires
        lists(list, messages, begin, end, limit),
    ensures
        forall|i: int, j: int|
            0 <= i < j < list.len() ==> (#[trigger] list[i]).seq_num < (#[trigger] list[j]).seq_num,
        forall|i: int|
            0 <= i < list.len() ==> {
                let message = #[trigger] list[i];
                &&& begin <= message.seq_num <= end
                &&& messages.contains_key(message.seq_num)
                &&& messages[message.seq_num].0 == message.msg_type
                &&& messages[message.seq_num].1 == message.payload
            },
        limit matches Some(most) ==> list.len() <= most,
        forall|n: u64| #[trigger]
            messages.contains_key(n) && begin <= n <= end ==> {
                ||| exists|i: int| 0 <= i < list.len() && (#[trigger] list[i]).seq_num == n
                ||| limit == Some(list.len()) && forall|i: int|
                    0 <= i < list.len() ==> (#[trigger] list[i]).seq_num < n
            },
{
    assert forall|i: int| 0 <= i < list.len() implies is_stored(
        messages,
        begin,
        end,
        #[trigger] list[i],
    ) by {}
    assert forall|n: u64| #[trigger] messages.contains_key(n) && begin <= n <= end implies (exists|
        i: int,
    | 0 <= i < list.len() && (#[trigger] list[i]).seq_num == n) || (limit == Some(list.len())
        && forall|i: int| 0 <= i < list.len() ==> (#[trigger] list[i]).seq_num < n) by {
        assert(holds(list, n) || limit == Some(list.len()));
    }
}

/// A stored message is found by every range that covers its number, together
/// with all others in the range, and a range that finds nothing holds nothing.
pub proof fn law_stored_message_is_found(
    store: MemoryStore,
    begin: u64,
    end: u64,
    n: u64,
    range: Result<Vec<StoredMessage>, StoreError>,
)
    requires
        call_ensures(MemoryStore::get_range, (&store, begin, end), range),
        store@.messages.contains_key(n),
        1 <= begin <= n,
        end == 0 || n <= end,
    ensures
        range is Ok,
        exists|i: int|
            0 <= i < stored_views(range->Ok_0@).len() && #[trigger] stored_views(range->Ok_0@)[i]
                == (StoredView {
                seq_num: n,
                msg_type: store@.messages[n].0,
                payload: store@.messages[n].1,
            }),
{
    let list = if range is Ok {
        stored_views(range->Ok_0@)
    } else {
        Seq::empty()
    };
    law_list_leaves_nothing_out(list, store@.messages, begin, range_end(end), None);
    assert(store@.messages.contains_key(n));
    let i = choose|i: int| 0 <= i < list.len() && (#[trigger] list[i]).seq_num == n;
    assert(list[i] == (StoredView {
        seq_num: n,
        msg_type: store@.messages[n].0,
        payload: store@.messages[n].1,
    }));
}

/// A range lookup is refused as illegal where `begin` is 0 or above an `end`
/// that is not 0, and only there; a page where `begin` is 0 or above `end`.
pub proof fn law_lookup_refuses_only_illegal_ranges(
    store: MemoryStore,
    begin: u64,
    end: u64,
    limit: usize,
    range: Result<Vec<StoredMessage>, StoreError>,
    page: Result<Vec<StoredMessage>, StoreError>,
)
    requires
        call_ensures(MemoryStore::get_range, (&store, begin, end), range),
        call_ensures(MemoryStore::get_page, (&store, begin, end, limit), page),
    ensures
        range matches Err(e) && e is InvalidRange <==> begin == 0 || (end != 0 && begin > end),
        page is Err <==> begin == 0 || begin > end,
        page matches Err(e) ==> e == (StoreError::InvalidRange { begin, end }),
{
}

/// A page is found by every range that covers its numbers: as many messages as
/// the limit allows, from the first number in the range on.
pub proof fn law_page_starts_at_the_first_number(
    store: MemoryStore,
    begin: u64,
    end: u64,
    limit: usize,
    n: u64,
    page: Result<Vec<StoredMessage>, StoreError>,
)
    requires
        call_ensures(MemoryStore::get_page, (&store, begin, end, limit), page),
        store@.messages.contains_key(n),
        1 <= begin <= n <= end,
        forall|m: u64| #[trigger] store@.messages.contains_key(m) && begin <= m <= end ==> n <= m,
        limit > 0,
    ensures
        page is Ok,
        stored_views(page->Ok_0@).len() > 0,
        stored_views(page->Ok_0@)[0] == (StoredView {
            seq_num: n,
            msg_type: store@.messages[n].0,
            payload: store@.messages[n].1,
        }),
{
    let list = stored_views(page->Ok_0@);
    law_list_leaves_nothing_out(list, store@.messages, begin, end, Some(limit as nat));
    if list.len() > 0 {
        let first = list[0];
        assert(store@.messages.contains_key(first.seq_num));
        if first.seq_num != n {
            let i = choose|i: int| 0 <= i < list.len() && (#[trigger] list[i]).seq_num == n;
            assert(list[0].seq_num < n);
        }
    }
}

/// Cutting a range to a page takes the first messages, as many as the limit
/// allows, and turns a range without messages into an empty page; any other
/// error stays as it is.
pub proof fn law_page_is_the_front_of_the_range(
    range: Result<Seq<StoredView>, StoreError>,
    limit: usize,
)
    ensures
        range matches Ok(all) ==> {
            &&& page_of(range, limit) matches Ok(page)
            &&& page.len() == if all.len() <= limit {
                all.len()
            } else {
                limit as nat
            }
            &&& forall|i: int| 0 <= i < page.len() ==> #[trigger] page[i] == all[i]
        },
        range matches Err(e) ==> if e is RangeNotAvailable {
            page_of(range, limit) matches Ok(page) && page.len() == 0
        } else {
            page_of(range, limit) == Err::<Seq<StoredView>, _>(e)
        },
{
}

/// A new store holds no message, and starts from the numbers and the time that
/// it was given.
pub proof fn law_new_store_starts_as_told(sender_seq: u64, target_seq: u64, now: SystemTime)
    ensures
        ({
            let store = StoreView::fresh(sender_seq, target_seq, now);
            &&& store.messages.dom().is_empty()
            &&& store.next_sender_seq == sender_seq
            &&& store.next_target_seq == target_seq
            &&& store.creation_time == now
        }),
{
}

} // verus!
