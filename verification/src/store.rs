//! The buffer of recent messages. Every message gets a number when it comes in; every
//! client remembers the number up to which it has read, so that no client takes a message
//! away from another.

use std::collections::VecDeque;
use vstd::prelude::*;
use vstd::string::*;

use crate::message::DbMessage;
use crate::text::text_eq;

verus! {

/// A message with its number.
#[derive(Debug)]
pub struct BufferedMessage {
    pub cursor: u64,
    pub message: DbMessage,
}

/// What a [`BufferedMessage`] says.
pub struct BufferedView {
    pub cursor: u64,
    pub message: crate::message::MessageView,
}

impl View for BufferedMessage {
    type V = BufferedView;

    open spec fn view(&self) -> BufferedView {
        BufferedView { cursor: self.cursor, message: self.message@ }
    }
}

impl Clone for BufferedMessage {
    fn clone(&self) -> (copy: Self)
        ensures
            copy@ == self@,
    {
        BufferedMessage { cursor: self.cursor, message: self.message.clone() }
    }
}

pub open spec fn buffered_view(entries: Seq<BufferedMessage>) -> Seq<BufferedView> {
    entries.map_values(|e: BufferedMessage| e@)
}

/// The buffer of recent messages.
#[derive(Debug)]
pub struct MessageStore {
    capacity: usize,
    next_cursor: u64,
    legacy_cursor: u64,
    messages: VecDeque<BufferedMessage>,
}

/// What a [`MessageStore`] holds: the entries, oldest first, and the number that the
/// newest message got.
pub struct StoreView {
    pub capacity: nat,
    pub latest: u64,
    pub legacy_cursor: u64,
    pub entries: Seq<BufferedView>,
}

impl View for MessageStore {
    type V = StoreView;

    closed spec fn view(&self) -> StoreView {
        StoreView {
            capacity: self.capacity as nat,
            latest: self.next_cursor,
            legacy_cursor: self.legacy_cursor,
            entries: buffered_view(self.messages@),
        }
    }
}

/// The smallest capacity of a buffer.
pub const MIN_CAPACITY: usize = 128;

/// The longest list that a query returns.
pub const MAX_QUERY: usize = 500;

/// The entries are the newest messages, numbered without gaps up to the latest number, and
/// no more than the capacity.
pub open spec fn consecutive(store: StoreView) -> bool {
    &&& store.capacity >= MIN_CAPACITY
    &&& store.entries.len() <= store.capacity
    &&& store.entries.len() <= store.latest
    &&& forall|i: int|
        0 <= i < store.entries.len() ==> (#[trigger] store.entries[i]).cursor == store.latest
            - store.entries.len() + 1 + i
}

/// The entries after one more message: the oldest one leaves when the buffer is full.
pub open spec fn with_entry(store: StoreView, entry: BufferedView) -> Seq<BufferedView> {
    let longer = store.entries.push(entry);
    if longer.len() > store.capacity {
        longer.skip(1)
    } else {
        longer
    }
}

/// What putting a message into the buffer does.
pub open spec fn pushed(
    before: StoreView,
    message: crate::message::MessageView,
    stored: BufferedView,
    after: StoreView,
) -> bool {
    &&& stored == (BufferedView { cursor: (before.latest + 1) as u64, message })
    &&& after == (StoreView {
        latest: (before.latest + 1) as u64,
        entries: with_entry(before, stored),
        ..before
    })
}

/// What a client asks for; an absent filter lets everything pass.
pub struct FilterView {
    pub chat: Option<Seq<char>>,
    pub sender: Option<Seq<char>>,
    pub direction: Option<Seq<char>>,
}

/// Whether a message passes the filters: the conversation and the sender are named by
/// identifier or by name.
pub open spec fn passes(message: crate::message::MessageView, filter: FilterView) -> bool {
    &&& match filter.chat {
        Some(wanted) => message.conversation_id == wanted || message.conversation_name == wanted,
        None => true,
    }
    &&& match filter.sender {
        Some(wanted) => message.sender_id == wanted || message.sender_name == wanted,
        None => true,
    }
    &&& match filter.direction {
        Some(wanted) => message.direction == wanted,
        None => true,
    }
}

/// The entries after a number that pass the filters, oldest first.
pub open spec fn matching(entries: Seq<BufferedView>, after: u64, filter: FilterView) -> Seq<
    BufferedView,
>
    decreases entries.len(),
{
    if entries.len() == 0 {
        seq![]
    } else {
        let before = matching(entries.drop_last(), after, filter);
        let last = entries.last();
        if last.cursor > after && passes(last.message, filter) {
            before.push(last)
        } else {
            before
        }
    }
}

/// The first `n` of a list.
pub open spec fn first_entries(entries: Seq<BufferedView>, n: nat) -> Seq<BufferedView> {
    if entries.len() <= n {
        entries
    } else {
        entries.take(n as int)
    }
}

pub open spec fn query_limit(limit: usize) -> nat {
    if limit < 1 {
        1
    } else if limit > MAX_QUERY {
        MAX_QUERY as nat
    } else {
        limit as nat
    }
}

/// What a query returns.
pub open spec fn found_by(
    store: StoreView,
    after: u64,
    limit: usize,
    filter: FilterView,
    given: Seq<BufferedView>,
    more: bool,
) -> bool {
    let found = matching(store.entries, after, filter);
    &&& given == first_entries(found, query_limit(limit))
    &&& more == (found.len() > query_limit(limit))
}

/// What taking the new messages returns and leaves.
pub open spec fn taken(
    before: StoreView,
    limit: usize,
    given: Seq<BufferedView>,
    after: StoreView,
) -> bool {
    let none = FilterView { chat: None, sender: None, direction: None };
    let found = matching(before.entries, before.legacy_cursor, none);
    &&& given == first_entries(found, query_limit(limit))
    &&& after == (StoreView {
        legacy_cursor: if given.len() > 0 {
            given.last().cursor
        } else {
            before.legacy_cursor
        },
        ..before
    })
}

/// The newest entry with that identifier.
pub open spec fn last_with_id(entries: Seq<BufferedView>, message_id: Seq<char>) -> Option<
    BufferedView,
>
    decreases entries.len(),
{
    if entries.len() == 0 {
        None
    } else if entries.last().message.message_id == message_id {
        Some(entries.last())
    } else {
        last_with_id(entries.drop_last(), message_id)
    }
}

pub open spec fn slice_view(text: Option<&str>) -> Option<Seq<char>> {
    match text {
        Some(t) => Some(t@),
        None => None,
    }
}

fn is_or_none(wanted: Option<&str>, a: &str, b: &str) -> (pass: bool)
    ensures
        pass == match wanted {
            Some(w) => a@ == w@ || b@ == w@,
            None => true,
        },
{
    match wanted {
        Some(w) => text_eq(a, w) || text_eq(b, w),
        None => true,
    }
}

/// Whether a message passes the filters.
pub fn passes_filters(
    message: &DbMessage,
    chat: Option<&str>,
    sender: Option<&str>,
    direction: Option<&str>,
) -> (pass: bool)
    ensures
        pass == passes(
            message@,
            (FilterView {
                chat: slice_view(chat),
                sender: slice_view(sender),
                direction: slice_view(direction),
            }),
        ),
{
    is_or_none(chat, message.conversation_id.as_str(), message.conversation_name.as_str())
        && is_or_none(sender, message.sender_id.as_str(), message.sender_name.as_str())
        && is_or_none(direction, message.direction.as_str(), message.direction.as_str())
}

proof fn lemma_matching_prefix(
    entries: Seq<BufferedView>,
    after: u64,
    filter: FilterView,
    n: int,
)
    requires
        0 <= n <= entries.len(),
    ensures
        matching(entries.take(n), after, filter).len() <= matching(entries, after, filter).len(),
        matching(entries, after, filter).take(
            matching(entries.take(n), after, filter).len() as int,
        ) == matching(entries.take(n), after, filter),
    decreases entries.len() - n,
{
    if n == entries.len() {
        assert(entries.take(n) =~= entries);
        assert(matching(entries, after, filter).take(
            matching(entries, after, filter).len() as int,
        ) =~= matching(entries, after, filter));
    } else {
        lemma_matching_prefix(entries, after, filter, n + 1);
        let part = entries.take(n + 1);
        assert(part.drop_last() =~= entries.take(n));
        let short = matching(entries.take(n), after, filter);
        let longer = matching(part, after, filter);
        let all = matching(entries, after, filter);
        assert(longer.take(short.len() as int) =~= short);
        assert(all.take(longer.len() as int).take(short.len() as int) =~= all.take(
            short.len() as int,
        ));
    }
}

impl MessageStore {
    /// The entries are numbered without gaps and no more than the capacity.
    pub open spec fn wf(&self) -> bool {
        consecutive(self@)
    }

    /// An empty buffer for at least `capacity` messages.
    pub fn new(capacity: usize) -> (store: Self)
        ensures
            store.wf(),
            store@ == (StoreView {
                capacity: if capacity < MIN_CAPACITY {
                    MIN_CAPACITY as nat
                } else {
                    capacity as nat
                },
                latest: 0,
                legacy_cursor: 0,
                entries: seq![],
            }),
    {
        let store = MessageStore {
            capacity: if capacity < MIN_CAPACITY {
                MIN_CAPACITY
            } else {
                capacity
            },
            next_cursor: 0,
            legacy_cursor: 0,
            messages: VecDeque::new(),
        };
        proof {
            assert(buffered_view(store.messages@) =~= Seq::<BufferedView>::empty());
        }
        store
    }

    /// Puts a message into the buffer and gives it the next number.
    pub fn push(&mut self, message: DbMessage) -> (stored: BufferedMessage)
        requires
            old(self).wf(),
            old(self)@.latest < u64::MAX,
        ensures
            final(self).wf(),
            pushed(old(self)@, message@, stored@, final(self)@),
    {
        let ghost before = self@;
        let cursor: u64 = self.next_cursor + 1;
        self.next_cursor = cursor;
        let stored = BufferedMessage { cursor, message };
        let entry = stored.clone();
        self.messages.push_back(entry);
        proof {
            assert(buffered_view(self.messages@) =~= before.entries.push(stored@));
        }
        if self.messages.len() > self.capacity {
            let ghost longer = self.messages@;
            let _oldest = self.messages.pop_front();
            proof {
                assert(buffered_view(self.messages@) =~= buffered_view(longer).skip(1));
            }
        }
        proof {
            let after = self@;
            assert forall|i: int| 0 <= i < after.entries.len() implies (#[trigger] after.entries[i]).cursor
                == after.latest - after.entries.len() + 1 + i by {
                let shift = before.entries.len() + 1 - after.entries.len();
                if i + shift < before.entries.len() {
                    assert(after.entries[i] == before.entries[i + shift]);
                }
            }
        }
        stored
    }

    /// The number that the newest message got, or zero.
    pub fn latest_cursor(&self) -> (cursor: u64)
        ensures
            cursor == self@.latest,
    {
        self.next_cursor
    }

    /// The messages after a number that pass the filters, oldest first, at most `limit` of
    /// them, and whether there are more. Nothing changes by asking.
    pub fn query(
        &self,
        after: u64,
        limit: usize,
        chat: Option<&str>,
        sender: Option<&str>,
        direction: Option<&str>,
    ) -> (result: (Vec<BufferedMessage>, bool))
        ensures
            ({
                let filter = FilterView {
                    chat: slice_view(chat),
                    sender: slice_view(sender),
                    direction: slice_view(direction),
                };
                found_by(self@, after, limit, filter, buffered_view(result.0@), result.1)
            }),
    {
        let count: usize = if limit < 1 {
            1
        } else if limit > MAX_QUERY {
            MAX_QUERY
        } else {
            limit
        };
        let ghost filter = FilterView {
            chat: slice_view(chat),
            sender: slice_view(sender),
            direction: slice_view(direction),
        };
        let ghost all = self@.entries;
        let mut page: Vec<BufferedMessage> = Vec::new();
        let mut i: usize = 0;
        while i < self.messages.len()
            invariant
                i <= self.messages@.len(),
                all == buffered_view(self.messages@),
                all == self@.entries,
                filter == (FilterView {
                    chat: slice_view(chat),
                    sender: slice_view(sender),
                    direction: slice_view(direction),
                }),
                buffered_view(page@) =~= matching(all.take(i as int), after, filter),
                count == query_limit(limit),
                page@.len() <= count,
            decreases self.messages@.len() - i,
        {
            let ghost before = buffered_view(page@);
            proof {
                assert(all.take(i + 1).drop_last() =~= all.take(i as int));
                assert(all.take(i + 1).last() == self.messages@[i as int]@);
            }
            let entry = &self.messages[i];
            if entry.cursor > after && passes_filters(&entry.message, chat, sender, direction) {
                if page.len() == count {
                    proof {
                        lemma_matching_prefix(all, after, filter, i + 1);
                        lemma_matching_prefix(all, after, filter, i as int);
                        assert(first_entries(matching(all, after, filter), count as nat) =~= before);
                    }
                    return (page, true);
                }
                page.push(entry.clone());
                proof {
                    assert(buffered_view(page@) =~= before.push(entry@));
                }
            }
            i = i + 1;
        }
        proof {
            assert(all.take(all.len() as int) =~= all);
        }
        (page, false)
    }

    /// The newest message in the buffer with that identifier.
    pub fn find_message(&self, message_id: &str) -> (found: Option<BufferedMessage>)
        ensures
            match found {
                Some(entry) => last_with_id(self@.entries, message_id@) == Some(entry@),
                None => last_with_id(self@.entries, message_id@) is None,
            },
    {
        let ghost all = self@.entries;
        let mut n: usize = self.messages.len();
        proof {
            assert(all.take(all.len() as int) =~= all);
        }
        while n > 0
            invariant
                n <= self.messages@.len(),
                all == buffered_view(self.messages@),
                last_with_id(all, message_id@) == last_with_id(all.take(n as int), message_id@),
            decreases n,
        {
            proof {
                assert(all.take(n as int).last() == self.messages@[n - 1]@);
                assert(all.take(n as int).drop_last() =~= all.take(n - 1));
            }
            let entry = &self.messages[n - 1];
            if text_eq(entry.message.message_id.as_str(), message_id) {
                return Some(entry.clone());
            }
            n = n - 1;
        }
        None
    }

    /// The messages that no one has taken by this way before, at most `limit` of them. What
    /// is returned is not returned again.
    pub fn take_legacy(&mut self, limit: usize) -> (messages: Vec<BufferedMessage>)
        requires
            old(self).wf(),
        ensures
            final(self).wf(),
            taken(old(self)@, limit, buffered_view(messages@), final(self)@),
    {
        let (messages, _more) = self.query(self.legacy_cursor, limit, None, None, None);
        proof {
            assert(buffered_view(messages@).len() == messages@.len());
            if messages@.len() > 0 {
                assert(buffered_view(messages@).last() == messages@.last()@);
            }
        }
        if messages.len() > 0 {
            self.legacy_cursor = messages[messages.len() - 1].cursor;
        }
        messages
    }
}

// ---------------------------------------------------------------------------
// Laws of the buffer
// ---------------------------------------------------------------------------

/// Numbers grow from entry to entry.
pub open spec fn ascending_cursors(entries: Seq<BufferedView>) -> bool {
    forall|i: int, j: int|
        #![trigger entries[i], entries[j]]
        0 <= i < j < entries.len() ==> entries[i].cursor < entries[j].cursor
}

proof fn lemma_matching_ascends(entries: Seq<BufferedView>, after: u64, filter: FilterView)
    requires
        ascending_cursors(entries),
    ensures
        ascending_cursors(matching(entries, after, filter)),
        forall|k: int|
            0 <= k < matching(entries, after, filter).len() ==> {
                let m = #[trigger] matching(entries, after, filter)[k];
                m.cursor > after && m.cursor <= entries.last().cursor && entries.contains(m)
            },
    decreases entries.len(),
{
    if entries.len() > 0 {
        let rest = entries.drop_last();
        assert forall|i: int, j: int|
            #![trigger rest[i], rest[j]]
            0 <= i < j < rest.len() implies rest[i].cursor < rest[j].cursor by {
            assert(entries[i].cursor < entries[j].cursor);
        }
        lemma_matching_ascends(rest, after, filter);
        let found = matching(entries, after, filter);
        let before = matching(rest, after, filter);
        assert forall|k: int| 0 <= k < found.len() implies {
            let m = #[trigger] found[k];
            m.cursor > after && m.cursor <= entries.last().cursor && entries.contains(m)
        } by {
            if k < before.len() {
                assert(found[k] == before[k]);
                assert(rest.contains(before[k]));
                let n = choose|n: int| 0 <= n < rest.len() && rest[n] == before[k];
                assert(entries[n] == before[k]);
                assert(entries[n].cursor < entries[entries.len() - 1].cursor);
            } else {
                assert(entries[entries.len() - 1] == found[k]);
            }
        }
        assert forall|i: int, j: int|
            #![trigger found[i], found[j]]
            0 <= i < j < found.len() implies found[i].cursor < found[j].cursor by {
            if j < before.len() {
                assert(before[i].cursor < before[j].cursor);
            } else {
                assert(rest.contains(before[i]));
                let n = choose|n: int| 0 <= n < rest.len() && rest[n] == before[i];
                assert(entries[n].cursor < entries[entries.len() - 1].cursor);
            }
        }
    }
}

/// A client that goes on after the last number it was given gets what comes next: nothing
/// is left out and nothing comes twice, whatever the lengths of the lists it asks for, and
/// whatever other clients ask.
pub proof fn cursors_resume(
    entries: Seq<BufferedView>,
    after: u64,
    filter: FilterView,
    given: int,
)
    requires
        ascending_cursors(entries),
        0 < given <= matching(entries, after, filter).len(),
    ensures
        matching(entries, after, filter).take(given) + matching(
            entries,
            matching(entries, after, filter)[given - 1].cursor,
            filter,
        ) == matching(entries, after, filter),
    decreases entries.len(),
{
    let found = matching(entries, after, filter);
    let cursor = found[given - 1].cursor;
    let rest = entries.drop_last();
    assert forall|i: int, j: int|
        #![trigger rest[i], rest[j]]
        0 <= i < j < rest.len() implies rest[i].cursor < rest[j].cursor by {
        assert(entries[i].cursor < entries[j].cursor);
    }
    let before = matching(rest, after, filter);
    let last = entries.last();
    lemma_matching_ascends(entries, after, filter);
    if given <= before.len() {
        cursors_resume(rest, after, filter, given);
        assert(found[given - 1] == before[given - 1]);
        assert(found.take(given) =~= before.take(given));
        if found.len() > before.len() {
            assert(found[given - 1].cursor < found[found.len() - 1].cursor);
            assert(found.take(given) + matching(entries, cursor, filter) =~= found);
        } else {
            if last.cursor > cursor && passes(last.message, filter) {
                assert(last.cursor > after);
            }
            assert(matching(entries, cursor, filter) =~= matching(rest, cursor, filter));
        }
    } else {
        assert(found.len() == before.len() + 1);
        assert(given == found.len());
        lemma_nothing_after(entries, cursor, filter);
        assert(found.take(given) =~= found);
        assert(found + matching(entries, cursor, filter) =~= found);
    }
}

proof fn lemma_nothing_after(entries: Seq<BufferedView>, cursor: u64, filter: FilterView)
    requires
        forall|i: int| 0 <= i < entries.len() ==> (#[trigger] entries[i]).cursor <= cursor,
    ensures
        matching(entries, cursor, filter).len() == 0,
    decreases entries.len(),
{
    if entries.len() > 0 {
        let rest = entries.drop_last();
        assert forall|i: int| 0 <= i < rest.len() implies (#[trigger] rest[i]).cursor <= cursor by {
            assert(entries[i].cursor <= cursor);
        }
        assert(entries[entries.len() - 1].cursor <= cursor);
        lemma_nothing_after(rest, cursor, filter);
    }
}

/// A buffer whose numbers have no gaps has growing numbers.
pub proof fn cursors_ascend(store: StoreView)
    requires
        consecutive(store),
    ensures
        ascending_cursors(store.entries),
{
}

/// A message that was put into the buffer is found by its identifier, and a client that
/// had read everything before it is given it, unfiltered, and nothing else.
pub proof fn pushed_messages_are_found(store: StoreView, message: crate::message::MessageView)
    requires
        consecutive(store),
        store.latest < u64::MAX,
    ensures
        ({
            let entry = BufferedView { cursor: (store.latest + 1) as u64, message };
            let after = with_entry(store, entry);
            let none = FilterView { chat: None, sender: None, direction: None };
            &&& last_with_id(after, message.message_id) == Some(entry)
            &&& matching(after, store.latest, none) == seq![entry]
        }),
{
    let entry = BufferedView { cursor: (store.latest + 1) as u64, message };
    let after = with_entry(store, entry);
    let none = FilterView { chat: None, sender: None, direction: None };
    let rest = after.drop_last();
    assert forall|i: int| 0 <= i < rest.len() implies (#[trigger] rest[i]).cursor <= store.latest by {
        let shift = store.entries.len() - rest.len();
        assert(rest[i] == store.entries[i + shift]);
    }
    lemma_nothing_after(rest, store.latest, none);
    assert(matching(after, store.latest, none) =~= seq![entry]);
}

/// An entry is what was asked for: it is newer than the number, and where a chat, a sender
/// or a direction was named, it has exactly that, the chat and the sender by identifier or
/// by name.
pub open spec fn asked_for(entry: BufferedView, after: u64, filter: FilterView) -> bool {
    let m = entry.message;
    &&& entry.cursor > after
    &&& filter.chat is Some ==> filter.chat == Some(m.conversation_id) || filter.chat == Some(
        m.conversation_name,
    )
    &&& filter.sender is Some ==> filter.sender == Some(m.sender_id) || filter.sender == Some(
        m.sender_name,
    )
    &&& filter.direction is Some ==> filter.direction == Some(m.direction)
}

proof fn lemma_matching_exact(
    entries: Seq<BufferedView>,
    after: u64,
    filter: FilterView,
    entry: BufferedView,
)
    ensures
        matching(entries, after, filter).contains(entry) <==> entries.contains(entry) && asked_for(
            entry,
            after,
            filter,
        ),
    decreases entries.len(),
{
    let found = matching(entries, after, filter);
    if entries.len() > 0 {
        let rest = entries.drop_last();
        let before = matching(rest, after, filter);
        lemma_matching_exact(rest, after, filter, entry);
        if found.contains(entry) {
            let k = choose|k: int| 0 <= k < found.len() && found[k] == entry;
            if k < before.len() {
                assert(before[k] == entry);
                assert(rest.contains(entry));
                let n = choose|n: int| 0 <= n < rest.len() && rest[n] == entry;
                assert(entries[n] == entry);
            } else {
                assert(entries[entries.len() - 1] == entry);
            }
        }
        if entries.contains(entry) && asked_for(entry, after, filter) {
            let k = choose|k: int| 0 <= k < entries.len() && entries[k] == entry;
            if k < rest.len() {
                assert(rest[k] == entry);
                let n = choose|n: int| 0 <= n < before.len() && before[n] == entry;
                assert(found[n] == entry);
            } else {
                assert(found[before.len() as int] == entry);
            }
        }
    }
}

/// A list holds exactly what was asked for: each of its messages has the direction, the
/// sender and the chat that were named, whoever sent it; each message of the buffer that
/// has them is in the list, unless there are more than fit into it, and they are newer
/// than all of the list. The list is in the order of the buffer, is no longer than asked
/// for, and is full where there are more.
pub proof fn lists_hold_what_was_asked_for(
    store: StoreView,
    after: u64,
    limit: usize,
    filter: FilterView,
    given: Seq<BufferedView>,
    more: bool,
)
    requires
        consecutive(store),
        found_by(store, after, limit, filter, given, more),
    ensures
        forall|k: int|
            0 <= k < given.len() ==> store.entries.contains(#[trigger] given[k]) && asked_for(
                given[k],
                after,
                filter,
            ),
        forall|i: int|
            0 <= i < store.entries.len() && asked_for(#[trigger] store.entries[i], after, filter)
                ==> given.contains(store.entries[i]) || (more && given.len() > 0
                && store.entries[i].cursor > given.last().cursor),
        ascending_cursors(given),
        given.len() <= 500,
        given.len() <= limit || given.len() <= 1,
        more ==> given.len() == (if limit < 1 {
            1
        } else if limit > 500 {
            500
        } else {
            limit as int
        }),
        more <==> exists|i: int|
            0 <= i < store.entries.len() && asked_for(#[trigger] store.entries[i], after, filter)
                && !given.contains(store.entries[i]),
{
    let found = matching(store.entries, after, filter);
    cursors_ascend(store);
    lemma_matching_ascends(store.entries, after, filter);
    assert forall|k: int| 0 <= k < given.len() implies store.entries.contains(#[trigger] given[k])
        && asked_for(given[k], after, filter) by {
        assert(found[k] == given[k]);
        assert(found.contains(given[k]));
        lemma_matching_exact(store.entries, after, filter, given[k]);
    }
    assert forall|i: int, j: int|
        #![trigger given[i], given[j]]
        0 <= i < j < given.len() implies given[i].cursor < given[j].cursor by {
        assert(found[i].cursor < found[j].cursor);
    }
    assert forall|i: int|
        0 <= i < store.entries.len() && asked_for(
            #[trigger] store.entries[i],
            after,
            filter,
        ) implies given.contains(store.entries[i]) || (more && given.len() > 0
        && store.entries[i].cursor > given.last().cursor) by {
        let entry = store.entries[i];
        assert(store.entries.contains(entry));
        lemma_matching_exact(store.entries, after, filter, entry);
        let k = choose|k: int| 0 <= k < found.len() && found[k] == entry;
        if k < given.len() {
            assert(given[k] == entry);
        } else {
            assert(given.last() == found[given.len() - 1]);
            assert(found[given.len() - 1].cursor < found[k].cursor);
        }
    }
    if more {
        let entry = found[given.len() as int];
        assert(found.contains(entry));
        lemma_matching_exact(store.entries, after, filter, entry);
        let i = choose|i: int| 0 <= i < store.entries.len() && store.entries[i] == entry;
        if given.contains(entry) {
            let k = choose|k: int| 0 <= k < given.len() && given[k] == entry;
            assert(found[k].cursor < found[given.len() as int].cursor);
        }
        assert(asked_for(store.entries[i], after, filter) && !given.contains(store.entries[i]));
    }
}

/// Taking the new messages gives each message once: what is given is newer than everything
/// that was given before, nothing in between is left out, and the next time it goes on
/// behind what was given. The buffer itself stays as it is.
pub proof fn new_messages_come_once(
    before: StoreView,
    limit: usize,
    given: Seq<BufferedView>,
    after: StoreView,
)
    requires
        consecutive(before),
        taken(before, limit, given, after),
    ensures
        after.entries == before.entries,
        after.latest == before.latest,
        after.capacity == before.capacity,
        after.legacy_cursor >= before.legacy_cursor,
        forall|k: int|
            0 <= k < given.len() ==> before.legacy_cursor < (#[trigger] given[k]).cursor
                <= after.legacy_cursor && before.entries.contains(given[k]),
        forall|i: int|
            0 <= i < before.entries.len() && before.legacy_cursor < (
            #[trigger] before.entries[i]).cursor <= after.legacy_cursor ==> given.contains(
                before.entries[i],
            ),
        given.len() == 0 ==> after == before && forall|i: int|
            0 <= i < before.entries.len() ==> (#[trigger] before.entries[i]).cursor
                <= before.legacy_cursor,
{
    let none = FilterView { chat: None, sender: None, direction: None };
    let more = matching(before.entries, before.legacy_cursor, none).len() > query_limit(limit);
    lists_hold_what_was_asked_for(before, before.legacy_cursor, limit, none, given, more);
    assert forall|k: int| 0 <= k < given.len() implies before.legacy_cursor < (
    #[trigger] given[k]).cursor <= after.legacy_cursor && before.entries.contains(given[k]) by {
        assert(asked_for(given[k], before.legacy_cursor, none));
        if k < given.len() - 1 {
            assert(given[k].cursor < given[given.len() - 1].cursor);
        }
    }
    if given.len() > 0 {
        assert(asked_for(given[given.len() - 1], before.legacy_cursor, none));
    }
    assert forall|i: int|
        0 <= i < before.entries.len() && before.legacy_cursor < (
        #[trigger] before.entries[i]).cursor <= after.legacy_cursor implies given.contains(
        before.entries[i],
    ) by {
        assert(asked_for(before.entries[i], before.legacy_cursor, none));
    }
    if given.len() == 0 {
        assert forall|i: int| 0 <= i < before.entries.len() implies (
        #[trigger] before.entries[i]).cursor <= before.legacy_cursor by {
            if before.entries[i].cursor > before.legacy_cursor {
                assert(asked_for(before.entries[i], before.legacy_cursor, none));
            }
        }
    }
}

/// A message that comes in is the newest entry, with a number of its own that is one more
/// than the last; no other entry is added or changed, and the oldest leaves only where the
/// buffer is full. What clients took by way of the new messages is not touched.
pub proof fn pushing_appends(
    before: StoreView,
    message: crate::message::MessageView,
    stored: BufferedView,
    after: StoreView,
)
    requires
        consecutive(before),
        before.latest < u64::MAX,
        pushed(before, message, stored, after),
    ensures
        consecutive(after),
        stored.message == message,
        stored.cursor == before.latest + 1,
        after.latest == stored.cursor,
        after.entries.last() == stored,
        after.legacy_cursor == before.legacy_cursor,
        after.capacity == before.capacity,
        before.entries.len() < before.capacity ==> after.entries == before.entries.push(stored),
        before.entries.len() == before.capacity ==> after.entries.len() == before.capacity
            && forall|i: int|
            0 <= i < before.entries.len() - 1 ==> #[trigger] after.entries[i] == before.entries[i
                + 1],
{
    let shift = before.entries.len() + 1 - after.entries.len();
    assert forall|i: int| 0 <= i < after.entries.len() implies (#[trigger] after.entries[i]).cursor
        == after.latest - after.entries.len() + 1 + i by {
        if i + shift < before.entries.len() {
            assert(after.entries[i] == before.entries[i + shift]);
        }
    }
}

/// The message that is found by an identifier has it, and is the newest of those that do;
/// and none is found only where no entry has it.
pub proof fn found_messages_are_the_newest(entries: Seq<BufferedView>, message_id: Seq<char>)
    ensures
        match last_with_id(entries, message_id) {
            Some(entry) => entry.message.message_id == message_id && exists|i: int|
                0 <= i < entries.len() && #[trigger] entries[i] == entry && forall|j: int|
                    i < j < entries.len() ==> (#[trigger] entries[j]).message.message_id
                        != message_id,
            None => forall|j: int|
                0 <= j < entries.len() ==> (#[trigger] entries[j]).message.message_id
                    != message_id,
        },
    decreases entries.len(),
{
    if entries.len() > 0 {
        let rest = entries.drop_last();
        found_messages_are_the_newest(rest, message_id);
        let last = entries.len() - 1;
        assert(entries[last] == entries.last());
        if entries.last().message.message_id != message_id {
            match last_with_id(rest, message_id) {
                Some(entry) => {
                    let i = choose|i: int|
                        0 <= i < rest.len() && #[trigger] rest[i] == entry && forall|j: int|
                            i < j < rest.len() ==> (#[trigger] rest[j]).message.message_id
                                != message_id;
                    assert(entries[i] == entry);
                    assert forall|j: int| i < j < entries.len() implies (
                    #[trigger] entries[j]).message.message_id != message_id by {
                        if j < rest.len() {
                            assert(rest[j] == entries[j]);
                        }
                    }
                },
                None => {
                    assert forall|j: int| 0 <= j < entries.len() implies (
                    #[trigger] entries[j]).message.message_id != message_id by {
                        if j < rest.len() {
                            assert(rest[j] == entries[j]);
                        }
                    }
                },
            }
        }
    }
}

} // verus!
