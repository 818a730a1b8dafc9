//! The lists of messages that clients ask for.

use vstd::prelude::*;
use vstd::string::*;

use crate::http::ApiError;
use crate::message::DbMessage;
use crate::store::{passes_filters, BufferedMessage, MessageStore};

verus! {

/// How many messages a list holds where the request does not say.
pub fn default_message_limit() -> (limit: usize)
    ensures
        limit == 100,
{
    100
}

/// A request for recent messages.
#[derive(Debug)]
pub struct MessageQuery {
    /// The number up to which the client has read.
    pub after: u64,
    pub limit: usize,
    pub chat: Option<String>,
    pub sender: Option<String>,
    pub direction: Option<String>,
}

/// A list of recent messages.
#[derive(Debug)]
pub struct MessageListResponse {
    pub messages: Vec<BufferedMessage>,
    /// What the client sends as `after` the next time.
    pub next_cursor: u64,
    pub latest_cursor: u64,
    pub has_more: bool,
}

/// The filters of a request.
pub open spec fn filter_of(query: MessageQuery) -> crate::store::FilterView {
    crate::store::FilterView {
        chat: crate::text::text_of(query.chat),
        sender: crate::text::text_of(query.sender),
        direction: crate::text::text_of(query.direction),
    }
}

fn as_slice(text: &Option<String>) -> (slice: Option<&str>)
    ensures
        crate::store::slice_view(slice) == crate::text::text_of(*text),
{
    match text {
        Some(t) => Some(t.as_str()),
        None => None,
    }
}

/// What a list says in answer to a request.
pub open spec fn answers(
    store: crate::store::StoreView,
    query: MessageQuery,
    list: MessageListResponse,
) -> bool {
    let given = crate::store::buffered_view(list.messages@);
    &&& crate::store::found_by(
        store,
        query.after,
        query.limit,
        filter_of(query),
        given,
        list.has_more,
    )
    &&& list.next_cursor == (if given.len() > 0 {
        given.last().cursor
    } else {
        query.after
    })
    &&& list.latest_cursor == store.latest
}

/// The messages after the client's number that pass its filters. A client that gets none
/// keeps its number.
pub fn get_messages(store: &MessageStore, query: &MessageQuery) -> (list: MessageListResponse)
    ensures
        answers(store@, *query, list),
{
    let (messages, has_more) = store.query(
        query.after,
        query.limit,
        as_slice(&query.chat),
        as_slice(&query.sender),
        as_slice(&query.direction),
    );
    let ghost given = crate::store::buffered_view(messages@);
    proof {
        assert(given.len() == messages@.len());
        if messages@.len() > 0 {
            assert(given.last() == messages@.last()@);
        }
    }
    let next_cursor: u64 = if messages.len() > 0 {
        messages[messages.len() - 1].cursor
    } else {
        query.after
    };
    MessageListResponse { messages, next_cursor, latest_cursor: store.latest_cursor(), has_more }
}

/// Going on with the number that a list names gives the rest of what the list was taken
/// from.
pub proof fn lists_continue(
    entries: Seq<crate::store::BufferedView>,
    after: u64,
    filter: crate::store::FilterView,
    limit: usize,
)
    requires
        crate::store::ascending_cursors(entries),
    ensures
        ({
            let found = crate::store::matching(entries, after, filter);
            let given = crate::store::first_entries(found, crate::store::query_limit(limit));
            let next = if given.len() > 0 {
                given.last().cursor
            } else {
                after
            };
            given + crate::store::matching(entries, next, filter) == found
        }),
{
    let found = crate::store::matching(entries, after, filter);
    let given = crate::store::first_entries(found, crate::store::query_limit(limit));
    if given.len() > 0 {
        crate::store::cursors_resume(entries, after, filter, given.len() as int);
        assert(found.take(given.len() as int) =~= given);
        assert(given.last() == found[given.len() - 1]);
    } else {
        assert(found =~= given);
        assert(given + found =~= found);
    }
}

/// Whether a request names something that only a client of its own number asks for.
pub open spec fn has_own_cursor(query: MessageQuery) -> bool {
    query.after > 0 || query.chat is Some || query.sender is Some || query.direction is Some
}

/// What a request for the new messages gives and leaves.
pub open spec fn gives_new(
    before: crate::store::StoreView,
    query: MessageQuery,
    given: Seq<crate::store::BufferedView>,
    after: crate::store::StoreView,
) -> bool {
    if has_own_cursor(query) {
        &&& after == before
        &&& exists|more: bool| #[trigger]
            crate::store::found_by(
                before,
                query.after,
                query.limit,
                filter_of(query),
                given,
                more,
            )
    } else {
        crate::store::taken(before, query.limit, given, after)
    }
}

/// The new messages for clients that keep no number: each message is given once. A request
/// with a number or a filter is answered like any other and takes nothing away.
pub fn get_new_messages(store: &mut MessageStore, query: &MessageQuery) -> (messages: Vec<
    BufferedMessage,
>)
    requires
        old(store).wf(),
    ensures
        final(store).wf(),
        gives_new(
            old(store)@,
            *query,
            crate::store::buffered_view(messages@),
            final(store)@,
        ),
{
    if query.after > 0 || query.chat.is_some() || query.sender.is_some()
        || query.direction.is_some() {
        let (messages, _more) = store.query(
            query.after,
            query.limit,
            as_slice(&query.chat),
            as_slice(&query.sender),
            as_slice(&query.direction),
        );
        messages
    } else {
        store.take_legacy(query.limit)
    }
}

// ---------------------------------------------------------------------------
// History
// ---------------------------------------------------------------------------

/// A request for a page of the history.
#[derive(Debug)]
pub struct MessageHistoryQuery {
    pub since: i64,
    pub offset: usize,
    pub limit: usize,
    pub chat: Option<String>,
    pub sender: Option<String>,
    pub direction: Option<String>,
}

/// A page of the history.
#[derive(Debug)]
pub struct MessageHistoryResponse {
    pub messages: Vec<DbMessage>,
    /// What the client sends as `offset` the next time.
    pub next_offset: usize,
    pub checkpoint_time: i64,
    /// The same as `checkpoint_time`.
    pub next_since: i64,
    pub has_more: bool,
}

/// Checks a request for a page of the history.
pub fn check_history_query(query: &MessageHistoryQuery) -> (checked: Result<(), ApiError>)
    ensures
        match checked {
            Ok(_) => query.offset <= crate::history::MAX_OFFSET,
            Err(error) => query.offset > crate::history::MAX_OFFSET && error@ == (
            crate::http::ErrorView {
                status: crate::http::BAD_REQUEST,
                message: "历史分页 offset 不能超过 100000"@,
            }),
        },
{
    if query.offset > crate::history::MAX_OFFSET {
        return Err(ApiError::bad_request("历史分页 offset 不能超过 100000"));
    }
    Ok(())
}

/// The messages of a page that pass the filters for sender and direction.
pub open spec fn kept_messages(
    messages: Seq<crate::message::MessageView>,
    filter: crate::store::FilterView,
) -> Seq<crate::message::MessageView>
    decreases messages.len(),
{
    if messages.len() == 0 {
        seq![]
    } else {
        let before = kept_messages(messages.drop_last(), filter);
        if crate::store::passes(messages.last(), filter) {
            before.push(messages.last())
        } else {
            before
        }
    }
}

/// What a page of the history says in answer to a request.
pub open spec fn answers_history(
    all: Seq<crate::message::MessageView>,
    has_more: bool,
    query: MessageHistoryQuery,
    response: MessageHistoryResponse,
) -> bool {
    let filter = crate::store::FilterView {
        chat: None,
        sender: crate::text::text_of(query.sender),
        direction: crate::text::text_of(query.direction),
    };
    let checkpoint = if all.len() > 0 {
        all.last().create_time
    } else {
        query.since
    };
    &&& crate::message::messages_view(response.messages@) == kept_messages(all, filter)
    &&& response.next_offset == (if query.offset + all.len() > usize::MAX {
        usize::MAX as int
    } else {
        query.offset + all.len()
    })
    &&& response.checkpoint_time == checkpoint
    &&& response.next_since == checkpoint
    &&& response.has_more == has_more
}

/// The page as the client gets it. The next offset counts the whole page, also what the
/// filters leave out: a client whose filters leave out everything still comes to the end.
pub fn history_response(page: Vec<DbMessage>, has_more: bool, query: &MessageHistoryQuery) -> (response:
    MessageHistoryResponse)
    ensures
        answers_history(crate::message::messages_view(page@), has_more, *query, response),
{
    let ghost all = crate::message::messages_view(page@);
    let ghost filter = crate::store::FilterView {
        chat: None,
        sender: crate::text::text_of(query.sender),
        direction: crate::text::text_of(query.direction),
    };
    let scanned: usize = page.len();
    proof {
        assert(all.len() == page@.len());
        if page@.len() > 0 {
            assert(all.last() == page@.last()@);
        }
    }
    let checkpoint_time: i64 = if page.len() > 0 {
        page[page.len() - 1].create_time
    } else {
        query.since
    };
    let mut messages: Vec<DbMessage> = Vec::new();
    let mut i: usize = 0;
    while i < page.len()
        invariant
            i <= page@.len(),
            all == crate::message::messages_view(page@),
            filter == (crate::store::FilterView {
                chat: None,
                sender: crate::text::text_of(query.sender),
                direction: crate::text::text_of(query.direction),
            }),
            crate::message::messages_view(messages@) =~= kept_messages(all.take(i as int), filter),
        decreases page@.len() - i,
    {
        let ghost before = crate::message::messages_view(messages@);
        proof {
            assert(all.take(i + 1).drop_last() =~= all.take(i as int));
            assert(all.take(i + 1).last() == page@[i as int]@);
        }
        if passes_filters(&page[i], None, as_slice(&query.sender), as_slice(&query.direction)) {
            messages.push(page[i].clone());
            proof {
                assert(crate::message::messages_view(messages@) =~= before.push(
                    page@[i as int]@,
                ));
            }
        }
        i = i + 1;
    }
    proof {
        assert(all.take(all.len() as int) =~= all);
    }
    let next_offset: usize = if query.offset > usize::MAX - scanned {
        usize::MAX
    } else {
        query.offset + scanned
    };
    MessageHistoryResponse {
        messages,
        next_offset,
        checkpoint_time,
        next_since: checkpoint_time,
        has_more,
    }
}

// ---------------------------------------------------------------------------
// The live stream
// ---------------------------------------------------------------------------

/// How often a client of the live stream is asked for a sign of life, in seconds.
pub const PING_SECONDS: u64 = 30;

/// What happens on a live stream.
#[derive(Debug, Clone, Copy, PartialEq, Eq, Structural)]
pub enum StreamEvent {
    /// There is a message for the client.
    Message,
    /// Messages were lost, or there will be none any more.
    SourceLost,
    /// The client closed the stream or is gone.
    ClientGone,
    /// Anything else came from the client.
    Frame,
    /// It is time to ask for a sign of life.
    Tick,
    /// Something could not be handed to the client.
    SendFailed,
}

/// What is done about it.
#[derive(Debug, Clone, Copy, PartialEq, Eq, Structural)]
pub enum StreamAction {
    Forward,
    Ping,
    Wait,
    Close,
}

/// What is done about what happens on a live stream: a client that is gone, or that missed
/// a message, is let go.
pub fn stream_step(event: StreamEvent) -> (action: StreamAction)
    ensures
        action == match event {
            StreamEvent::Message => StreamAction::Forward,
            StreamEvent::Tick => StreamAction::Ping,
            StreamEvent::Frame => StreamAction::Wait,
            StreamEvent::SourceLost => StreamAction::Close,
            StreamEvent::ClientGone => StreamAction::Close,
            StreamEvent::SendFailed => StreamAction::Close,
        },
{
    match event {
        StreamEvent::Message => StreamAction::Forward,
        StreamEvent::Tick => StreamAction::Ping,
        StreamEvent::Frame => StreamAction::Wait,
        StreamEvent::SourceLost | StreamEvent::ClientGone | StreamEvent::SendFailed => {
            StreamAction::Close
        },
    }
}

/// The offset of a page that is followed by another grows, so that going through the
/// history comes to an end, whatever the filters leave out.
pub proof fn history_offsets_grow(
    messages: Seq<crate::message::MessageView>,
    offset: nat,
    limit: nat,
)
    requires
        limit >= 1,
        messages.len() > offset + limit,
    ensures
        offset + crate::history::page_of(messages, offset, limit).len() == offset + limit,
        offset + crate::history::page_of(messages, offset, limit).len() > offset,
{
}

// ---------------------------------------------------------------------------
// What a client can rely on
// ---------------------------------------------------------------------------

/// A text that a request may name.
pub open spec fn named(wanted: Option<String>, id: Seq<char>, name: Seq<char>) -> bool {
    wanted is Some ==> (wanted->0)@ == id || (wanted->0)@ == name
}

/// Every message in a list that was asked for with a direction has exactly that direction,
/// whoever sent it, and likewise the sender and the chat by identifier or by name. Every
/// such message of the buffer that is newer than the client's number and no newer than the
/// number it is given is in the list. A client that is given nothing keeps its number, and
/// there is nothing for it; one that is told that there is no more has got everything.
pub proof fn lists_answer_their_requests(
    store: crate::store::StoreView,
    query: MessageQuery,
    list: MessageListResponse,
)
    requires
        crate::store::consecutive(store),
        answers(store, query, list),
    ensures
        forall|k: int|
            0 <= k < list.messages@.len() ==> {
                let entry = (#[trigger] list.messages@[k])@;
                let m = entry.message;
                &&& store.entries.contains(entry)
                &&& query.after < entry.cursor <= list.next_cursor
                &&& named(query.direction, m.direction, m.direction)
                &&& named(query.sender, m.sender_id, m.sender_name)
                &&& named(query.chat, m.conversation_id, m.conversation_name)
            },
        forall|i: int|
            0 <= i < store.entries.len() ==> {
                let entry = #[trigger] store.entries[i];
                let m = entry.message;
                query.after < entry.cursor && (entry.cursor <= list.next_cursor || !list.has_more)
                    && named(query.direction, m.direction, m.direction) && named(
                    query.sender,
                    m.sender_id,
                    m.sender_name,
                ) && named(query.chat, m.conversation_id, m.conversation_name)
                    ==> crate::store::buffered_view(list.messages@).contains(entry)
            },
        crate::store::ascending_cursors(crate::store::buffered_view(list.messages@)),
        list.messages@.len() == 0 ==> list.next_cursor == query.after && !list.has_more,
        list.messages@.len() > 0 ==> list.next_cursor == list.messages@.last().cursor,
        list.latest_cursor == store.latest,
        list.messages@.len() <= 500,
{
    let given = crate::store::buffered_view(list.messages@);
    let filter = filter_of(query);
    crate::store::lists_hold_what_was_asked_for(
        store,
        query.after,
        query.limit,
        filter,
        given,
        list.has_more,
    );
    assert(given.len() == list.messages@.len());
    assert forall|k: int| 0 <= k < list.messages@.len() implies {
        let entry = (#[trigger] list.messages@[k])@;
        let m = entry.message;
        &&& store.entries.contains(entry)
        &&& query.after < entry.cursor <= list.next_cursor
        &&& named(query.direction, m.direction, m.direction)
        &&& named(query.sender, m.sender_id, m.sender_name)
        &&& named(query.chat, m.conversation_id, m.conversation_name)
    } by {
        assert(given[k] == list.messages@[k]@);
        assert(crate::store::asked_for(given[k], query.after, filter));
        if k < given.len() - 1 {
            assert(given[k].cursor < given[given.len() - 1].cursor);
        }
    }
    assert forall|i: int| 0 <= i < store.entries.len() implies {
        let entry = #[trigger] store.entries[i];
        let m = entry.message;
        query.after < entry.cursor && (entry.cursor <= list.next_cursor || !list.has_more)
            && named(query.direction, m.direction, m.direction) && named(
            query.sender,
            m.sender_id,
            m.sender_name,
        ) && named(query.chat, m.conversation_id, m.conversation_name) ==> given.contains(entry)
    } by {
        let entry = store.entries[i];
        let m = entry.message;
        if query.after < entry.cursor && (entry.cursor <= list.next_cursor || !list.has_more)
            && named(query.direction, m.direction, m.direction) && named(
            query.sender,
            m.sender_id,
            m.sender_name,
        ) && named(query.chat, m.conversation_id, m.conversation_name) {
            assert(crate::store::asked_for(entry, query.after, filter));
        }
    }
    if given.len() > 0 {
        assert(given.last() == list.messages@.last()@);
    }
}

/// A request for the new messages that names a number or a filter takes nothing away; one
/// that names none gives what nobody was given by this way before, and everything up to
/// the newest that it gives.
pub proof fn new_messages_are_given_once(
    before: crate::store::StoreView,
    query: MessageQuery,
    given: Seq<crate::store::BufferedView>,
    after: crate::store::StoreView,
)
    requires
        crate::store::consecutive(before),
        gives_new(before, query, given, after),
    ensures
        after.entries == before.entries,
        after.latest == before.latest,
        query.after > 0 || query.chat is Some || query.sender is Some || query.direction is Some
            ==> after == before && forall|k: int|
            0 <= k < given.len() ==> {
                let m = (#[trigger] given[k]).message;
                &&& given[k].cursor > query.after
                &&& named(query.direction, m.direction, m.direction)
                &&& named(query.sender, m.sender_id, m.sender_name)
                &&& named(query.chat, m.conversation_id, m.conversation_name)
            },
        query.after == 0 && query.chat is None && query.sender is None && query.direction is None
            ==> {
            &&& forall|k: int|
                0 <= k < given.len() ==> before.legacy_cursor < (#[trigger] given[k]).cursor
                    <= after.legacy_cursor
            &&& forall|i: int|
                0 <= i < before.entries.len() && before.legacy_cursor < (
                #[trigger] before.entries[i]).cursor <= after.legacy_cursor ==> given.contains(
                    before.entries[i],
                )
            &&& given.len() == 0 ==> after == before
        },
{
    if has_own_cursor(query) {
        let filter = filter_of(query);
        let more = choose|more: bool| #[trigger]
            crate::store::found_by(before, query.after, query.limit, filter, given, more);
        crate::store::lists_hold_what_was_asked_for(
            before,
            query.after,
            query.limit,
            filter,
            given,
            more,
        );
        assert forall|k: int| 0 <= k < given.len() implies {
            let m = (#[trigger] given[k]).message;
            &&& given[k].cursor > query.after
            &&& named(query.direction, m.direction, m.direction)
            &&& named(query.sender, m.sender_id, m.sender_name)
            &&& named(query.chat, m.conversation_id, m.conversation_name)
        } by {
            assert(crate::store::asked_for(given[k], query.after, filter));
        }
    } else {
        crate::store::new_messages_come_once(before, query.limit, given, after);
    }
}

proof fn lemma_kept_exact(
    messages: Seq<crate::message::MessageView>,
    filter: crate::store::FilterView,
    m: crate::message::MessageView,
)
    ensures
        kept_messages(messages, filter).contains(m) <==> messages.contains(m)
            && crate::store::asked_for(
            (crate::store::BufferedView { cursor: 1, message: m }),
            0,
            filter,
        ),
    decreases messages.len(),
{
    let found = kept_messages(messages, filter);
    if messages.len() > 0 {
        let rest = messages.drop_last();
        let before = kept_messages(rest, filter);
        lemma_kept_exact(rest, filter, m);
        if found.contains(m) {
            let k = choose|k: int| 0 <= k < found.len() && found[k] == m;
            if k < before.len() {
                assert(before[k] == m);
                let n = choose|n: int| 0 <= n < rest.len() && rest[n] == m;
                assert(messages[n] == m);
            } else {
                assert(messages[messages.len() - 1] == m);
            }
        }
        if messages.contains(m) && crate::store::asked_for(
            (crate::store::BufferedView { cursor: 1, message: m }),
            0,
            filter,
        ) {
            let k = choose|k: int| 0 <= k < messages.len() && messages[k] == m;
            if k < rest.len() {
                assert(rest[k] == m);
                let n = choose|n: int| 0 <= n < before.len() && before[n] == m;
                assert(found[n] == m);
            } else {
                assert(found[before.len() as int] == m);
            }
        }
    }
}

/// Whether the first list is the second one with some items left out.
pub open spec fn thinned<A>(short: Seq<A>, long: Seq<A>) -> bool
    decreases long.len(),
{
    if short.len() == 0 {
        true
    } else if long.len() == 0 {
        false
    } else {
        (short.last() == long.last() && thinned(short.drop_last(), long.drop_last())) || thinned(
            short,
            long.drop_last(),
        )
    }
}

proof fn lemma_kept_thinned(
    messages: Seq<crate::message::MessageView>,
    filter: crate::store::FilterView,
)
    ensures
        thinned(kept_messages(messages, filter), messages),
    decreases messages.len(),
{
    if messages.len() > 0 {
        let rest = messages.drop_last();
        lemma_kept_thinned(rest, filter);
        let before = kept_messages(rest, filter);
        if crate::store::passes(messages.last(), filter) {
            assert(before.push(messages.last()).drop_last() =~= before);
        }
    }
}

/// A page of the history that was asked for with a direction or a sender holds exactly
/// those messages of the page that have that direction and that sender, by identifier or
/// by name, in their order; the next page begins behind the whole page, the time of the
/// page is that of its last message, also where the filters leave that message out, and
/// whether there is more does not depend on the filters.
pub proof fn history_pages_answer_their_requests(
    all: Seq<crate::message::MessageView>,
    has_more: bool,
    query: MessageHistoryQuery,
    response: MessageHistoryResponse,
)
    requires
        answers_history(all, has_more, query, response),
    ensures
        ({
            let kept = crate::message::messages_view(response.messages@);
            &&& thinned(kept, all)
            &&& forall|m: crate::message::MessageView| #[trigger]
                kept.contains(m) <==> all.contains(m) && named(
                    query.direction,
                    m.direction,
                    m.direction,
                ) && named(query.sender, m.sender_id, m.sender_name)
            &&& query.offset + all.len() <= usize::MAX ==> response.next_offset == query.offset
                + all.len()
            &&& response.next_offset >= query.offset
            &&& all.len() > 0 ==> response.checkpoint_time == all[all.len() - 1].create_time
            &&& all.len() == 0 ==> response.checkpoint_time == query.since && response.next_offset
                == query.offset
            &&& response.next_since == response.checkpoint_time
            &&& response.has_more == has_more
        }),
{
    let filter = crate::store::FilterView {
        chat: None,
        sender: crate::text::text_of(query.sender),
        direction: crate::text::text_of(query.direction),
    };
    let kept = crate::message::messages_view(response.messages@);
    lemma_kept_thinned(all, filter);
    assert forall|m: crate::message::MessageView| #[trigger] kept.contains(m) <==> all.contains(m)
        && named(query.direction, m.direction, m.direction) && named(
        query.sender,
        m.sender_id,
        m.sender_name,
    ) by {
        lemma_kept_exact(all, filter, m);
    }
}

} // verus!
