//! The interface of message stores.

use crate::store::stored::{stored_views, StoredMessage, StoredView};
use crate::types::error::StoreError;
use crate::types::message::MsgType;
use std::time::SystemTime;
use vstd::prelude::*;

verus! {

/// Whether `begin..=end` names at least one sequence number; numbers start
/// at 1.
pub open spec fn is_legal_range(begin: u64, end: u64) -> bool {
    1 <= begin <= end
}

/// The last number of a range whose `EndSeqNo` (16) is `end`: 0 is the FIX
/// spelling of "to infinity".
pub open spec fn range_end(end: u64) -> u64 {
    if end == 0 {
        u64::MAX
    } else {
        end
    }
}

/// Whether `list` is in strictly ascending sequence order.
pub open spec fn is_ascending(list: Seq<StoredView>) -> bool {
    forall|i: int, j: int|
        0 <= i < j < list.len() ==> (#[trigger] list[i]).seq_num < (#[trigger] list[j]).seq_num
}

/// Whether every number in `list` lies in `begin..=end`.
pub open spec fn lies_within(list: Seq<StoredView>, begin: u64, end: u64) -> bool {
    forall|i: int| 0 <= i < list.len() ==> begin <= (#[trigger] list[i]).seq_num <= end
}

/// Refuses a range that names no sequence number.
///
/// # Errors
/// [`StoreError::InvalidRange`] if `begin` is 0 or above `end`.
pub fn check_range(begin: u64, end: u64) -> (legal: Result<(), StoreError>)
    ensures
        legal == if is_legal_range(begin, end) {
            Ok::<(), StoreError>(())
        } else {
            Err(StoreError::InvalidRange { begin, end })
        },
{
    if begin == 0 || begin > end {
        Err(StoreError::InvalidRange { begin, end })
    } else {
        Ok(())
    }
}

/// The page that a whole range is cut to, and an empty page where the range
/// holds no message.
pub open spec fn page_of(range: Result<Seq<StoredView>, StoreError>, limit: usize) -> Result<
    Seq<StoredView>,
    StoreError,
> {
    match range {
        Ok(messages) => if messages.len() <= limit {
            Ok(messages)
        } else {
            Ok(messages.take(limit as int))
        },
        Err(StoreError::RangeNotAvailable { .. }) => Ok(Seq::empty()),
        Err(other) => Err(other),
    }
}

/// What a lookup gave, as views.
pub open spec fn lookup_view(lookup: Result<Vec<StoredMessage>, StoreError>) -> Result<
    Seq<StoredView>,
    StoreError,
> {
    match lookup {
        Ok(messages) => Ok(stored_views(messages@)),
        Err(e) => Err(e),
    }
}

/// Cuts what [`MessageStore::get_range`] gave to a page of at most `limit`
/// messages.
///
/// An entirely empty range is an error of a range lookup; for a page it is a
/// normal, non-terminal outcome that the caller resolves by advancing its
/// cursor.
///
/// # Errors
/// Every error of the range lookup but [`StoreError::RangeNotAvailable`].
pub fn page_from_range(range: Result<Vec<StoredMessage>, StoreError>, limit: usize) -> (page:
    Result<Vec<StoredMessage>, StoreError>)
    ensures
        lookup_view(page) == page_of(lookup_view(range), limit),
{
    match range {
        Ok(messages) => {
            let ghost all = messages@;
            let mut messages = messages;
            messages.truncate(limit);
            proof {
                if all.len() > limit {
                    assert(stored_views(messages@) =~= stored_views(all).take(limit as int));
                } else {
                    assert(stored_views(messages@) =~= stored_views(all));
                }
            }
            Ok(messages)
        },
        Err(StoreError::RangeNotAvailable { .. }) => {
            let page: Vec<StoredMessage> = Vec::new();
            assert(stored_views(page@) =~= Seq::empty());
            Ok(page)
        },
        Err(other) => Err(other),
    }
}

/// Abstract interface for FIX message storage.
///
/// Implementations keep outgoing messages to support resend requests and
/// session recovery.
pub trait MessageStore: Sized {
    /// Stores an outgoing message for potential resend.
    ///
    /// `msg_type` is passed in rather than parsed out of `message`: a store
    /// owns no decoder, and one that guessed the type would hand back a message
    /// that is not the one that was filed.
    ///
    /// `message` must be the **complete frame**, from `BeginString` (8) through
    /// `CheckSum` (10), because a resend rebuilds from it verbatim.
    ///
    /// # Errors
    /// `StoreError` if the message cannot be stored.
    fn store(&mut self, seq_num: u64, msg_type: &MsgType, message: &[u8]) -> Result<(), StoreError>;

    /// Retrieves messages for a resend request.
    ///
    /// The result is ordered by sequence number and may be **sparse**: a range
    /// covering sequence numbers that were never stored, or have been evicted,
    /// yields only what is present. Each [`StoredMessage`] carries the sequence
    /// number it was filed under, so a caller can tell exactly which numbers it
    /// received and gap-fill the holes.
    ///
    /// Both bounds are inclusive, and an `end` of 0 stands for infinity.
    ///
    /// # Errors
    /// [`StoreError::InvalidRange`] if `begin` is above `end` (with `end` = 0
    /// meaning infinity, which is never below `begin`), or `begin` is 0, which
    /// is not a legal `MsgSeqNum`; [`StoreError::RangeNotAvailable`] if the
    /// range is legal but holds no stored message at all; or another
    /// `StoreError` if retrieval fails.
    ///
    /// An entirely empty range is an error rather than an empty vector so a
    /// caller cannot mistake "nothing was stored" for "nothing was asked for".
    fn get_range(&self, begin: u64, end: u64) -> (range: Result<Vec<StoredMessage>, StoreError>)
        ensures
            range matches Ok(messages) ==> {
                &&& is_ascending(stored_views(messages@))
                &&& lies_within(stored_views(messages@), begin, range_end(end))
            },
    ;

    /// Reads at most `limit` stored messages inside `begin..=end`, in ascending
    /// sequence order, starting at or after `begin`.
    ///
    /// This is the paging primitive a resend replays over: a caller reads one
    /// bounded batch, replays it, yields, and asks for the next batch starting
    /// past the last sequence number it saw.
    ///
    /// Unlike [`get_range`](MessageStore::get_range), an **empty page is not an
    /// error**: paging over a sparse history naturally lands on stretches that
    /// hold nothing. `end` here is an absolute bound; `0` does **not** mean
    /// infinity. A `limit` of `0` yields an empty page.
    ///
    /// The default implementation reads the whole range through
    /// [`get_range`](MessageStore::get_range) and truncates it; a store whose
    /// history can be large should override this with a natively bounded read.
    ///
    /// # Errors
    /// [`StoreError::InvalidRange`] if `begin` is 0 or above `end`, or another
    /// `StoreError` if retrieval fails. An empty result is `Ok`, not an error.
    fn get_page(&self, begin: u64, end: u64, limit: usize) -> (page: Result<
        Vec<StoredMessage>,
        StoreError,
    >)
        ensures
            !is_legal_range(begin, end) ==> page == Err::<Vec<StoredMessage>, StoreError>(
                StoreError::InvalidRange { begin, end },
            ),
            page matches Ok(messages) ==> {
                &&& messages@.len() <= limit
                &&& is_ascending(stored_views(messages@))
                &&& lies_within(stored_views(messages@), begin, end)
            },
        default_ensures
            if is_legal_range(begin, end) {
                exists|range: Result<Vec<StoredMessage>, StoreError>|
                    #[trigger] call_ensures(Self::get_range, (self, begin, end), range)
                        && lookup_view(page) == page_of(lookup_view(range), limit)
            } else {
                page == Err::<Vec<StoredMessage>, StoreError>(
                    StoreError::InvalidRange { begin, end },
                )
            },
    {
        if let Err(error) = check_range(begin, end) {
            return Err(error);
        }
        let range = self.get_range(begin, end);
        let ghost whole = lookup_view(range);
        let page = page_from_range(range, limit);
        proof {
            if let Ok(cut) = lookup_view(page) {
                if let Ok(all) = whole {
                    assert(forall|i: int| 0 <= i < cut.len() ==> #[trigger] cut[i] == all[i]);
                }
                assert(is_ascending(cut));
                assert(lies_within(cut, begin, end));
            }
        }
        page
    }

    /// Returns the next sender sequence number.
    fn next_sender_seq(&self) -> u64;

    /// Returns the next expected target sequence number.
    fn next_target_seq(&self) -> u64;

    /// Sets the next sender sequence number.
    fn set_next_sender_seq(&mut self, seq: u64);

    /// Sets the next expected target sequence number.
    fn set_next_target_seq(&mut self, seq: u64);

    /// Resets the store, clearing all messages and resetting sequence numbers.
    ///
    /// # Errors
    /// `StoreError` if the reset fails.
    fn reset(&mut self) -> Result<(), StoreError>;

    /// Returns the creation time of the store/session.
    fn creation_time(&self) -> SystemTime;

    /// Refreshes the store from persistent storage.
    ///
    /// # Errors
    /// `StoreError` if the refresh fails.
    fn refresh(&mut self) -> (refreshed: Result<(), StoreError>)
        default_ensures
            refreshed == Ok::<(), StoreError>(()),
            *final(self) == *old(self),
    {
        Ok(())
    }
}

} // verus!
