//! The history of all conversations, oldest first, in pages.

use vstd::hash_map::StringHashMap;
use vstd::prelude::*;
use vstd::string::*;

use crate::message::{message_of_row, stable_message_id, DbMessage, MessageRow, RawMsg};
use crate::text::text_less;

verus! {

/// The messages of a page, and whether there are more after it.
pub type MessageSeq = Seq<crate::message::MessageView>;

/// Whether a message stands before another: it is older or, of the same second, has the
/// smaller identifier.
pub open spec fn stands_before(
    a: crate::message::MessageView,
    b: crate::message::MessageView,
) -> bool {
    a.create_time < b.create_time || (a.create_time == b.create_time && crate::text::text_before(
        a.message_id,
        b.message_id,
    ))
}

/// Whether one of the messages has that identifier.
pub open spec fn has_id(messages: MessageSeq, id: Seq<char>) -> bool {
    exists|k: int| 0 <= k < messages.len() && (#[trigger] messages[k]).message_id == id
}

/// The earliest message with that identifier, the first of them where several are of one
/// second.
pub open spec fn earliest(messages: MessageSeq, id: Seq<char>) -> Option<
    crate::message::MessageView,
>
    decreases messages.len(),
{
    if messages.len() == 0 {
        None
    } else {
        let before = earliest(messages.drop_last(), id);
        let last = messages.last();
        if last.message_id == id && (before is None || last.create_time < before->0.create_time) {
            Some(last)
        } else {
            before
        }
    }
}

/// The first place of an identifier among messages, if it has one.
pub open spec fn place_of(messages: MessageSeq, id: Seq<char>) -> Option<int>
    decreases messages.len(),
{
    if messages.len() == 0 {
        None
    } else {
        match place_of(messages.drop_last(), id) {
            Some(k) => Some(k),
            None => if messages.last().message_id == id {
                Some(messages.len() - 1)
            } else {
                None
            },
        }
    }
}

/// The earliest message of each identifier.
pub open spec fn earliest_of_each(messages: MessageSeq) -> MessageSeq
    decreases messages.len(),
{
    if messages.len() == 0 {
        seq![]
    } else {
        let before = earliest_of_each(messages.drop_last());
        let last = messages.last();
        match place_of(before, last.message_id) {
            Some(k) => if last.create_time < before[k].create_time {
                before.update(k, last)
            } else {
                before
            },
            None => before.push(last),
        }
    }
}

/// Puts a message where it belongs among messages in order.
pub open spec fn put_in_order(
    messages: MessageSeq,
    message: crate::message::MessageView,
) -> MessageSeq
    decreases messages.len(),
{
    if messages.len() == 0 || !stands_before(message, messages.last()) {
        messages.push(message)
    } else {
        put_in_order(messages.drop_last(), message).push(messages.last())
    }
}

/// The messages in order.
pub open spec fn in_order(messages: MessageSeq) -> MessageSeq
    decreases messages.len(),
{
    if messages.len() == 0 {
        seq![]
    } else {
        put_in_order(in_order(messages.drop_last()), messages.last())
    }
}

/// The whole history: every identifier once, where it occurs first, oldest first.
pub open spec fn timeline(messages: MessageSeq) -> MessageSeq {
    in_order(earliest_of_each(messages))
}

/// The part of a list from `offset` on, at most `limit` long.
pub open spec fn page_of(messages: MessageSeq, offset: nat, limit: nat) -> MessageSeq {
    let start = if offset < messages.len() {
        offset as int
    } else {
        messages.len() as int
    };
    let end = if offset + limit < messages.len() {
        (offset + limit) as int
    } else {
        messages.len() as int
    };
    messages.subrange(start, end)
}

// ---------------------------------------------------------------------------
// Order
// ---------------------------------------------------------------------------

/// Every message stands before those after it.
pub open spec fn ascending(messages: MessageSeq) -> bool {
    forall|i: int, j: int|
        #![trigger messages[i], messages[j]]
        0 <= i < j < messages.len() ==> stands_before(messages[i], messages[j])
}

/// No identifier occurs twice.
pub open spec fn ids_distinct(messages: MessageSeq) -> bool {
    forall|i: int, j: int|
        #![trigger messages[i], messages[j]]
        0 <= i < j < messages.len() ==> messages[i].message_id != messages[j].message_id
}

/// The same messages, whatever their order and number.
pub open spec fn same_messages(a: MessageSeq, b: MessageSeq) -> bool {
    forall|m: crate::message::MessageView|
        #![trigger a.contains(m)]
        #![trigger b.contains(m)]
        a.contains(m) <==> b.contains(m)
}

proof fn lemma_before_irreflexive(a: crate::message::MessageView)
    ensures
        !stands_before(a, a),
{
    crate::text::lemma_text_order_total(a.message_id, a.message_id);
}

proof fn lemma_before_transitive(
    a: crate::message::MessageView,
    b: crate::message::MessageView,
    c: crate::message::MessageView,
)
    requires
        stands_before(a, b),
        stands_before(b, c),
    ensures
        stands_before(a, c),
{
    if a.create_time == b.create_time && b.create_time == c.create_time {
        crate::text::lemma_text_order_transitive(a.message_id, b.message_id, c.message_id);
    }
}

proof fn lemma_before_total(a: crate::message::MessageView, b: crate::message::MessageView)
    requires
        a.message_id != b.message_id,
    ensures
        stands_before(a, b) || stands_before(b, a),
{
    crate::text::lemma_text_order_total(a.message_id, b.message_id);
}

/// There is only one way to put messages in ascending order.
proof fn lemma_ascending_unique(a: MessageSeq, b: MessageSeq)
    requires
        ascending(a),
        ascending(b),
        same_messages(a, b),
    ensures
        a == b,
    decreases a.len(),
{
    if a.len() == 0 {
        if b.len() > 0 {
            assert(b.contains(b[0]));
        }
        assert(a =~= b);
    } else {
        assert(a.contains(a.last()));
        assert(b.contains(a.last()));
        let x = a.last();
        let y = b.last();
        assert(b.contains(y));
        assert(a.contains(y));
        if x != y {
            let i = choose|i: int| 0 <= i < a.len() && a[i] == y;
            let j = choose|j: int| 0 <= j < b.len() && b[j] == x;
            assert(stands_before(a[i], a[a.len() - 1]));
            assert(stands_before(b[j], b[b.len() - 1]));
            lemma_before_transitive(x, y, x);
            lemma_before_irreflexive(x);
        }
        let p = a.drop_last();
        let q = b.drop_last();
        assert forall|m: crate::message::MessageView| #[trigger] p.contains(m) <==> q.contains(m) by {
            if p.contains(m) {
                let i = choose|i: int| 0 <= i < p.len() && p[i] == m;
                assert(a[i] == m);
                assert(a.contains(m));
                assert(b.contains(m));
                let j = choose|j: int| 0 <= j < b.len() && b[j] == m;
                if j == b.len() - 1 {
                    assert(stands_before(a[i], a[a.len() - 1]));
                    lemma_before_irreflexive(x);
                }
                assert(q[j] == m);
            }
            if q.contains(m) {
                let j = choose|j: int| 0 <= j < q.len() && q[j] == m;
                assert(b[j] == m);
                assert(b.contains(m));
                assert(a.contains(m));
                let i = choose|i: int| 0 <= i < a.len() && a[i] == m;
                if i == a.len() - 1 {
                    assert(stands_before(b[j], b[b.len() - 1]));
                    lemma_before_irreflexive(x);
                }
                assert(p[i] == m);
            }
        }
        lemma_ascending_unique(p, q);
        assert(a =~= p.push(x));
        assert(b =~= q.push(y));
    }
}

proof fn lemma_put_in_order(messages: MessageSeq, message: crate::message::MessageView)
    requires
        ascending(messages),
        !has_id(messages, message.message_id),
    ensures
        ascending(put_in_order(messages, message)),
        same_messages(put_in_order(messages, message), messages.push(message)),
        put_in_order(messages, message).len() == messages.len() + 1,
    decreases messages.len(),
{
    let result = put_in_order(messages, message);
    if messages.len() == 0 || !stands_before(message, messages.last()) {
        assert forall|i: int, j: int|
            #![trigger result[i], result[j]]
            0 <= i < j < result.len() implies stands_before(result[i], result[j]) by {
            if j == messages.len() {
                let last = messages.last();
                assert(messages[messages.len() - 1].message_id != message.message_id);
                lemma_before_total(last, message);
                if i < messages.len() - 1 {
                    assert(stands_before(messages[i], messages[messages.len() - 1]));
                    lemma_before_transitive(messages[i], last, message);
                }
            }
        }
    } else {
        let rest = messages.drop_last();
        assert forall|k: int| 0 <= k < rest.len() implies (#[trigger] rest[k]).message_id
            != message.message_id by {
            assert(messages[k].message_id != message.message_id);
        }
        lemma_put_in_order(rest, message);
        let inner = put_in_order(rest, message);
        let last = messages.last();
        assert forall|i: int, j: int|
            #![trigger result[i], result[j]]
            0 <= i < j < result.len() implies stands_before(result[i], result[j]) by {
            if j == inner.len() {
                assert(inner.contains(inner[i]));
                assert(rest.push(message).contains(inner[i]));
                let k = choose|k: int|
                    0 <= k < rest.push(message).len() && rest.push(message)[k] == inner[i];
                if k < rest.len() {
                    assert(stands_before(messages[k], messages[messages.len() - 1]));
                }
            }
        }
        assert forall|m: crate::message::MessageView| #[trigger]
            result.contains(m) <==> messages.push(message).contains(m) by {
            if result.contains(m) {
                let k = choose|k: int| 0 <= k < result.len() && result[k] == m;
                if k < inner.len() {
                    assert(inner.contains(inner[k]));
                    assert(rest.push(message).contains(m));
                    let n = choose|n: int|
                        0 <= n < rest.push(message).len() && rest.push(message)[n] == m;
                    if n < rest.len() {
                        assert(messages.push(message)[n] == m);
                    } else {
                        assert(messages.push(message)[messages.len() as int] == m);
                    }
                } else {
                    assert(messages.push(message)[messages.len() - 1] == m);
                }
            }
            if messages.push(message).contains(m) {
                let k = choose|k: int|
                    0 <= k < messages.push(message).len() && messages.push(message)[k] == m;
                if k == messages.len() - 1 {
                    assert(result[inner.len() as int] == m);
                } else {
                    if k < rest.len() {
                        assert(rest.push(message)[k] == m);
                    } else {
                        assert(rest.push(message)[rest.len() as int] == m);
                    }
                    assert(rest.push(message).contains(m));
                    assert(inner.contains(m));
                    let n = choose|n: int| 0 <= n < inner.len() && inner[n] == m;
                    assert(result[n] == m);
                }
            }
        }
    }
}

proof fn lemma_same_has_id(a: MessageSeq, b: MessageSeq, id: Seq<char>)
    requires
        same_messages(a, b),
    ensures
        has_id(a, id) == has_id(b, id),
{
    if has_id(a, id) {
        let k = choose|k: int| 0 <= k < a.len() && (#[trigger] a[k]).message_id == id;
        assert(a.contains(a[k]));
        assert(b.contains(a[k]));
        let n = choose|n: int| 0 <= n < b.len() && b[n] == a[k];
        assert(b[n].message_id == id);
    }
    if has_id(b, id) {
        let k = choose|k: int| 0 <= k < b.len() && (#[trigger] b[k]).message_id == id;
        assert(b.contains(b[k]));
        assert(a.contains(b[k]));
        let n = choose|n: int| 0 <= n < a.len() && a[n] == b[k];
        assert(a[n].message_id == id);
    }
}

proof fn lemma_in_order(messages: MessageSeq)
    requires
        ids_distinct(messages),
    ensures
        ascending(in_order(messages)),
        same_messages(in_order(messages), messages),
        in_order(messages).len() == messages.len(),
    decreases messages.len(),
{
    if messages.len() > 0 {
        let rest = messages.drop_last();
        let last = messages.last();
        assert forall|i: int, j: int|
            #![trigger rest[i], rest[j]]
            0 <= i < j < rest.len() implies rest[i].message_id != rest[j].message_id by {
            assert(messages[i].message_id != messages[j].message_id);
        }
        lemma_in_order(rest);
        assert(!has_id(rest, last.message_id)) by {
            if has_id(rest, last.message_id) {
                let k = choose|k: int|
                    0 <= k < rest.len() && (#[trigger] rest[k]).message_id == last.message_id;
                assert(messages[k].message_id != messages[messages.len() - 1].message_id);
            }
        }
        lemma_same_has_id(in_order(rest), rest, last.message_id);
        lemma_put_in_order(in_order(rest), last);
        let a = in_order(rest).push(last);
        assert forall|m: crate::message::MessageView| #[trigger]
            in_order(messages).contains(m) <==> messages.contains(m) by {
            assert(in_order(messages).contains(m) <==> a.contains(m));
            if a.contains(m) {
                let k = choose|k: int| 0 <= k < a.len() && a[k] == m;
                if k < in_order(rest).len() {
                    assert(in_order(rest).contains(in_order(rest)[k]));
                    assert(rest.contains(m));
                    let n = choose|n: int| 0 <= n < rest.len() && rest[n] == m;
                    assert(messages[n] == m);
                } else {
                    assert(messages[messages.len() - 1] == m);
                }
            }
            if messages.contains(m) {
                let k = choose|k: int| 0 <= k < messages.len() && messages[k] == m;
                if k < rest.len() {
                    assert(rest[k] == m);
                    assert(rest.contains(m));
                    assert(in_order(rest).contains(m));
                    let n = choose|n: int| 0 <= n < in_order(rest).len() && in_order(rest)[n] == m;
                    assert(a[n] == m);
                } else {
                    assert(a[in_order(rest).len() as int] == m);
                }
            }
        }
    }
}

proof fn lemma_place_of(messages: MessageSeq, id: Seq<char>)
    ensures
        match place_of(messages, id) {
            Some(k) => 0 <= k < messages.len() && messages[k].message_id == id,
            None => !has_id(messages, id),
        },
    decreases messages.len(),
{
    if messages.len() > 0 {
        let rest = messages.drop_last();
        lemma_place_of(rest, id);
        if place_of(messages, id) is None && has_id(messages, id) {
            let k = choose|k: int| 0 <= k < messages.len() && (#[trigger] messages[k]).message_id
                == id;
            assert(k < rest.len());
            assert(rest[k].message_id == id);
        }
    }
}

proof fn lemma_earliest(messages: MessageSeq, id: Seq<char>)
    ensures
        match earliest(messages, id) {
            Some(m) => {
                &&& m.message_id == id
                &&& messages.contains(m)
                &&& forall|k: int|
                    0 <= k < messages.len() && (#[trigger] messages[k]).message_id == id
                        ==> m.create_time <= messages[k].create_time
            },
            None => !has_id(messages, id),
        },
    decreases messages.len(),
{
    if messages.len() > 0 {
        let rest = messages.drop_last();
        lemma_earliest(rest, id);
        assert forall|k: int| 0 <= k < rest.len() implies #[trigger] messages[k] == rest[k] by {}
        match earliest(messages, id) {
            Some(m) => {
                if m == messages.last() {
                    assert(messages[messages.len() - 1] == m);
                } else {
                    let k = choose|k: int| 0 <= k < rest.len() && rest[k] == m;
                    assert(messages[k] == m);
                }
                assert forall|k: int|
                    0 <= k < messages.len() && (#[trigger] messages[k]).message_id
                        == id implies m.create_time <= messages[k].create_time by {
                    if k < rest.len() {
                        assert(rest[k].message_id == id);
                    }
                }
            },
            None => {
                if has_id(messages, id) {
                    let k = choose|k: int|
                        0 <= k < messages.len() && (#[trigger] messages[k]).message_id == id;
                    assert(k < rest.len());
                    assert(rest[k].message_id == id);
                }
            },
        }
    }
}

proof fn lemma_earliest_of_each(messages: MessageSeq)
    ensures
        ids_distinct(earliest_of_each(messages)),
        earliest_of_each(messages).len() <= messages.len(),
        forall|m: crate::message::MessageView| #[trigger]
            earliest_of_each(messages).contains(m) <==> earliest(messages, m.message_id) == Some(m),
    decreases messages.len(),
{
    if messages.len() > 0 {
        let rest = messages.drop_last();
        let last = messages.last();
        lemma_earliest_of_each(rest);
        let before = earliest_of_each(rest);
        let result = earliest_of_each(messages);
        lemma_place_of(before, last.message_id);
        let place = place_of(before, last.message_id);
        match place {
            Some(k) => {
                assert(before.contains(before[k]));
                assert(earliest(rest, last.message_id) == Some(before[k]));
            },
            None => {
                match earliest(rest, last.message_id) {
                    Some(m) => {
                        lemma_earliest(rest, last.message_id);
                        assert(before.contains(m));
                        let k = choose|k: int| 0 <= k < before.len() && before[k] == m;
                        assert(before[k].message_id == last.message_id);
                    },
                    None => {},
                }
            },
        }
        assert forall|i: int, j: int|
            #![trigger result[i], result[j]]
            0 <= i < j < result.len() implies result[i].message_id != result[j].message_id by {
            if j < before.len() {
                assert(before[i].message_id != before[j].message_id);
            } else {
                assert(before[i].message_id != last.message_id);
            }
        }
        assert forall|m: crate::message::MessageView| #[trigger] result.contains(m) <==> earliest(
            messages,
            m.message_id,
        ) == Some(m) by {
            assert(before.contains(m) <==> earliest(rest, m.message_id) == Some(m));
            if result.contains(m) {
                let n = choose|n: int| 0 <= n < result.len() && result[n] == m;
                if n < before.len() && result[n] == before[n] {
                    assert(before.contains(m));
                    if m.message_id == last.message_id {
                        assert(place is Some);
                        let k = place->0;
                        if n < k {
                            assert(before[n].message_id != before[k].message_id);
                        } else if k < n {
                            assert(before[k].message_id != before[n].message_id);
                        }
                    }
                }
            }
            if earliest(messages, m.message_id) == Some(m) {
                lemma_earliest(messages, m.message_id);
                if earliest(rest, m.message_id) == Some(m) {
                    assert(before.contains(m));
                    let n = choose|n: int| 0 <= n < before.len() && before[n] == m;
                    if place is Some && place->0 == n {
                        assert(result[n] == before[n]);
                    }
                    assert(result[n] == m);
                } else {
                    match place {
                        Some(k) => {
                            assert(result[k] == last);
                        },
                        None => {
                            assert(result[before.len() as int] == last);
                        },
                    }
                }
            }
        }
    }
}

/// The history is in ascending order; every identifier that occurs stands in it once, with
/// the earliest message that has it.
pub proof fn timeline_is_ordered(messages: MessageSeq)
    ensures
        ascending(timeline(messages)),
        ids_distinct(timeline(messages)),
        forall|id: Seq<char>| #[trigger] has_id(timeline(messages), id) <==> has_id(messages, id),
        forall|m: crate::message::MessageView| #[trigger]
            timeline(messages).contains(m) <==> earliest(messages, m.message_id) == Some(m),
        forall|m: crate::message::MessageView| #[trigger]
            timeline(messages).contains(m) ==> messages.contains(m),
{
    lemma_earliest_of_each(messages);
    let once = earliest_of_each(messages);
    let all = timeline(messages);
    lemma_in_order(once);
    assert forall|m: crate::message::MessageView| #[trigger] all.contains(m) <==> earliest(
        messages,
        m.message_id,
    ) == Some(m) by {
        assert(all.contains(m) <==> once.contains(m));
    }
    assert forall|i: int, j: int| #![trigger all[i], all[j]] 0 <= i < j < all.len() implies all[i].message_id
        != all[j].message_id by {
        assert(stands_before(all[i], all[j]));
        lemma_before_irreflexive(all[i]);
        assert(all.contains(all[i]) && all.contains(all[j]));
    }
    assert forall|id: Seq<char>| #[trigger] has_id(all, id) <==> has_id(messages, id) by {
        lemma_earliest(messages, id);
        if has_id(all, id) {
            let k = choose|k: int| 0 <= k < all.len() && (#[trigger] all[k]).message_id == id;
            assert(all.contains(all[k]));
        }
        if has_id(messages, id) {
            let m = earliest(messages, id)->0;
            assert(all.contains(m));
            let k = choose|k: int| 0 <= k < all.len() && all[k] == m;
            assert(all[k].message_id == id);
        }
        if earliest(messages, id) is Some {
            let m = earliest(messages, id)->0;
            let k = choose|k: int| 0 <= k < messages.len() && messages[k] == m;
            assert(messages[k].message_id == id);
        }
    }
    assert forall|m: crate::message::MessageView| #[trigger] all.contains(m) implies messages.contains(
        m,
    ) by {
        lemma_earliest(messages, m.message_id);
    }
}

// ---------------------------------------------------------------------------
// Putting messages in order
// ---------------------------------------------------------------------------

fn reversed(messages: Vec<DbMessage>) -> (back: Vec<DbMessage>)
    ensures
        back@ == messages@.reverse(),
{
    let ghost all = messages@;
    let mut rest = messages;
    let mut back: Vec<DbMessage> = Vec::new();
    proof {
        assert(back@ =~= all.skip(all.len() as int).reverse());
    }
    while rest.len() > 0
        invariant
            rest@.len() <= all.len(),
            rest@ =~= all.take(rest@.len() as int),
            back@ =~= all.skip(rest@.len() as int).reverse(),
        decreases rest@.len(),
    {
        let ghost n = rest@.len() as int;
        if let Some(message) = rest.pop() {
            proof {
                assert(message == all[n - 1]);
                assert(all.skip(n - 1).reverse() =~= all.skip(n).reverse().push(all[n - 1]));
            }
            back.push(message);
        }
    }
    proof {
        assert(all.skip(0) =~= all);
    }
    back
}

/// Keeps the earliest message of each identifier.
fn keep_earliest(messages: Vec<DbMessage>) -> (kept: Vec<DbMessage>)
    ensures
        crate::message::messages_view(kept@) == earliest_of_each(
            crate::message::messages_view(messages@),
        ),
{
    let ghost all = crate::message::messages_view(messages@);
    let ghost total = messages@.len() as int;
    let ghost source = messages@;
    let mut rest = reversed(messages);
    let mut kept: Vec<DbMessage> = Vec::new();
    let mut places: StringHashMap<usize> = StringHashMap::new();
    proof {
        assert(crate::message::messages_view(kept@) =~= earliest_of_each(all.take(0)));
    }
    while rest.len() > 0
        invariant
            total == source.len(),
            all == crate::message::messages_view(source),
            rest@.len() <= total,
            rest@ =~= source.skip(total - rest@.len()).reverse(),
            crate::message::messages_view(kept@) =~= earliest_of_each(
                all.take(total - rest@.len()),
            ),
            forall|id: Seq<char>| #[trigger]
                places@.contains_key(id) <==> place_of(crate::message::messages_view(kept@), id)
                    is Some,
            forall|id: Seq<char>| #[trigger]
                places@.contains_key(id) ==> place_of(crate::message::messages_view(kept@), id)
                    == Some(places@[id] as int),
        decreases rest@.len(),
    {
        let ghost i = total - rest@.len();
        let ghost before = crate::message::messages_view(kept@);
        let ghost places_before = places@;
        proof {
            assert(all.take(i + 1).drop_last() =~= all.take(i));
            assert(rest@.last() == source[i]);
            assert(rest@.drop_last() =~= source.skip(i + 1).reverse());
            assert(all.take(i + 1).last() == source[i]@);
        }
        if let Some(message) = rest.pop() {
            let ghost view = message@;
            proof {
                lemma_place_of(before, view.message_id);
            }
            match places.get(message.message_id.as_str()) {
                Some(place) => {
                    let k: usize = *place;
                    if message.create_time < kept[k].create_time {
                        kept.set(k, message);
                        proof {
                            let after = crate::message::messages_view(kept@);
                            assert(after =~= before.update(k as int, view));
                            assert forall|id: Seq<char>| place_of(after, id) == place_of(
                                before,
                                id,
                            ) by {
                                lemma_place_kept(before, after, id);
                            }
                        }
                    }
                },
                None => {
                    let n: usize = kept.len();
                    places.insert(message.message_id.clone(), n);
                    kept.push(message);
                    proof {
                        let after = crate::message::messages_view(kept@);
                        assert(after =~= before.push(view));
                        assert(after.drop_last() =~= before);
                        assert forall|id: Seq<char>| #[trigger]
                            places@.contains_key(id) <==> place_of(after, id) is Some by {
                            assert(places_before.contains_key(id) <==> place_of(before, id) is Some);
                        }
                        assert forall|id: Seq<char>| #[trigger]
                            places@.contains_key(id) implies place_of(after, id) == Some(
                            places@[id] as int,
                        ) by {
                            assert(places_before.contains_key(id) <==> place_of(before, id) is Some);
                        }
                    }
                },
            }
        }
    }
    proof {
        assert(all.take(total) =~= all);
    }
    kept
}

proof fn lemma_place_kept(before: MessageSeq, after: MessageSeq, id: Seq<char>)
    requires
        before.len() == after.len(),
        forall|k: int|
            #![trigger before[k]]
            #![trigger after[k]]
            0 <= k < before.len() ==> before[k].message_id == after[k].message_id,
    ensures
        place_of(after, id) == place_of(before, id),
    decreases before.len(),
{
    if before.len() > 0 {
        let p = before.drop_last();
        let q = after.drop_last();
        assert forall|k: int|
            #![trigger p[k]]
            #![trigger q[k]]
            0 <= k < p.len() implies p[k].message_id == q[k].message_id by {
            assert(before[k].message_id == after[k].message_id);
        }
        lemma_place_kept(p, q, id);
        assert(before[before.len() - 1].message_id == after[before.len() - 1].message_id);
    }
}

fn is_before(a: &DbMessage, b: &DbMessage) -> (before: bool)
    ensures
        before == stands_before(a@, b@),
{
    a.create_time < b.create_time || (a.create_time == b.create_time && text_less(
        a.message_id.as_str(),
        b.message_id.as_str(),
    ))
}

/// Every message of `a` has another identifier than every message of `b`.
pub open spec fn ids_apart(a: MessageSeq, b: MessageSeq) -> bool {
    forall|i: int, j: int|
        #![trigger a[i], b[j]]
        0 <= i < a.len() && 0 <= j < b.len() ==> a[i].message_id != b[j].message_id
}

/// Every message of `a` stands before every message of `b`.
pub open spec fn all_before(a: MessageSeq, b: MessageSeq) -> bool {
    forall|i: int, j: int|
        #![trigger a[i], b[j]]
        0 <= i < a.len() && 0 <= j < b.len() ==> stands_before(a[i], b[j])
}

proof fn lemma_ascending_part(messages: MessageSeq, n: int)
    requires
        ascending(messages),
        0 <= n <= messages.len(),
    ensures
        ascending(messages.take(n)),
{
    assert forall|i: int, j: int|
        #![trigger messages.take(n)[i], messages.take(n)[j]]
        0 <= i < j < n implies stands_before(messages.take(n)[i], messages.take(n)[j]) by {
        assert(stands_before(messages[i], messages[j]));
    }
}

/// Takes the last message off the list whose last message is the later one.
proof fn lemma_take_later(a: MessageSeq, b: MessageSeq, out: MessageSeq)
    requires
        a.len() > 0,
        ascending(a),
        ascending(b),
        ascending(out),
        all_before(a, out),
        all_before(b, out),
        b.len() > 0 ==> stands_before(b.last(), a.last()),
    ensures
        ascending(seq![a.last()] + out),
        all_before(a.drop_last(), seq![a.last()] + out),
        all_before(b, seq![a.last()] + out),
        ascending(a.drop_last()),
{
    let x = a.last();
    let longer = seq![x] + out;
    let shorter = a.drop_last();
    assert forall|i: int, j: int|
        #![trigger longer[i], longer[j]]
        0 <= i < j < longer.len() implies stands_before(longer[i], longer[j]) by {
        assert(longer[j] == out[j - 1]);
        if i == 0 {
            assert(stands_before(a[a.len() - 1], out[j - 1]));
        } else {
            assert(stands_before(out[i - 1], out[j - 1]));
        }
    }
    assert forall|i: int, j: int|
        #![trigger shorter[i], longer[j]]
        0 <= i < shorter.len() && 0 <= j < longer.len() implies stands_before(
        shorter[i],
        longer[j],
    ) by {
        assert(shorter[i] == a[i]);
        if j == 0 {
            assert(stands_before(a[i], a[a.len() - 1]));
        } else {
            assert(stands_before(a[i], out[j - 1]));
        }
    }
    assert forall|i: int, j: int|
        #![trigger b[i], longer[j]]
        0 <= i < b.len() && 0 <= j < longer.len() implies stands_before(b[i], longer[j]) by {
        if j == 0 {
            if i < b.len() - 1 {
                assert(stands_before(b[i], b[b.len() - 1]));
                lemma_before_transitive(b[i], b.last(), x);
            }
        } else {
            assert(stands_before(b[i], out[j - 1]));
        }
    }
    assert(shorter =~= a.take(a.len() - 1));
    lemma_ascending_part(a, a.len() - 1);
}

/// Merges two ascending lists.
fn merge(left: Vec<DbMessage>, right: Vec<DbMessage>) -> (merged: Vec<DbMessage>)
    requires
        ascending(crate::message::messages_view(left@)),
        ascending(crate::message::messages_view(right@)),
        ids_apart(
            crate::message::messages_view(left@),
            crate::message::messages_view(right@),
        ),
    ensures
        ascending(crate::message::messages_view(merged@)),
        same_messages(
            crate::message::messages_view(merged@),
            crate::message::messages_view(left@) + crate::message::messages_view(right@),
        ),
{
    let ghost whole = crate::message::messages_view(left@) + crate::message::messages_view(right@);
    let ghost left0 = crate::message::messages_view(left@);
    let ghost right0 = crate::message::messages_view(right@);
    let mut a = left;
    let mut b = right;
    // The merged messages, the latest first.
    let mut back: Vec<DbMessage> = Vec::new();
    let ghost mut out: MessageSeq = seq![];
    while a.len() > 0 || b.len() > 0
        invariant
            whole == left0 + right0,
            ids_apart(left0, right0),
            a@.len() <= left0.len(),
            b@.len() <= right0.len(),
            crate::message::messages_view(a@) =~= left0.take(a@.len() as int),
            crate::message::messages_view(b@) =~= right0.take(b@.len() as int),
            ascending(crate::message::messages_view(a@)),
            ascending(crate::message::messages_view(b@)),
            ascending(out),
            all_before(crate::message::messages_view(a@), out),
            all_before(crate::message::messages_view(b@), out),
            out =~= crate::message::messages_view(back@).reverse(),
            same_messages(
                crate::message::messages_view(a@) + crate::message::messages_view(b@) + out,
                whole,
            ),
        decreases a@.len() + b@.len(),
    {
        let from_left: bool = if b.len() == 0 {
            true
        } else if a.len() == 0 {
            false
        } else {
            is_before(&b[b.len() - 1], &a[a.len() - 1])
        };
        let ghost x = crate::message::messages_view(a@);
        let ghost y = crate::message::messages_view(b@);
        let ghost old_back = crate::message::messages_view(back@);
        let ghost old_out = out;
        proof {
            if x.len() > 0 && y.len() > 0 {
                assert(x.last() == left0[x.len() - 1]);
                assert(y.last() == right0[y.len() - 1]);
                assert(left0[x.len() - 1].message_id != right0[y.len() - 1].message_id);
                lemma_before_total(x.last(), y.last());
            }
        }
        if from_left {
            proof {
                lemma_take_later(x, y, out);
            }
            if let Some(message) = a.pop() {
                proof {
                    out = seq![message@] + out;
                    assert(crate::message::messages_view(a@) =~= x.drop_last());
                }
                back.push(message);
                proof {
                    assert(crate::message::messages_view(back@) =~= old_back.push(message@));
                    lemma_regroup(x.drop_last(), x.last(), y, old_out);
                    assert(x.drop_last().push(x.last()) =~= x);
                    lemma_same_transitive(x.drop_last() + y + out, x + y + old_out, whole);
                }
            }
        } else {
            proof {
                lemma_take_later(y, x, out);
            }
            if let Some(message) = b.pop() {
                proof {
                    out = seq![message@] + out;
                    assert(crate::message::messages_view(b@) =~= y.drop_last());
                }
                back.push(message);
                proof {
                    assert(crate::message::messages_view(back@) =~= old_back.push(message@));
                    lemma_regroup_right(x, y.drop_last(), y.last(), old_out);
                    assert(y.drop_last().push(y.last()) =~= y);
                    lemma_same_transitive(x + y.drop_last() + out, x + y + old_out, whole);
                }
            }
        }
        proof {
            assert(out =~= crate::message::messages_view(back@).reverse());
        }
    }
    let merged = reversed(back);
    proof {
        assert(crate::message::messages_view(merged@) =~= out);
        assert(crate::message::messages_view(a@) + crate::message::messages_view(b@) + out =~= out);
    }
    merged
}

proof fn lemma_same_transitive(a: MessageSeq, b: MessageSeq, c: MessageSeq)
    requires
        same_messages(a, b),
        same_messages(b, c),
    ensures
        same_messages(a, c),
{
    assert forall|m: crate::message::MessageView|
        #![trigger a.contains(m)]
        #![trigger c.contains(m)]
        a.contains(m) <==> c.contains(m) by {
        assert(a.contains(m) <==> b.contains(m));
    }
}

proof fn lemma_regroup(
    a: MessageSeq,
    x: crate::message::MessageView,
    b: MessageSeq,
    out: MessageSeq,
)
    ensures
        same_messages(a + b + (seq![x] + out), a.push(x) + b + out),
{
    let p = a + b + (seq![x] + out);
    let q = a.push(x) + b + out;
    assert forall|m: crate::message::MessageView|
        #![trigger p.contains(m)]
        #![trigger q.contains(m)]
        p.contains(m) <==> q.contains(m) by {
        if p.contains(m) {
            let k = choose|k: int| 0 <= k < p.len() && p[k] == m;
            if k < a.len() {
                assert(q[k] == m);
            } else if k < a.len() + b.len() {
                assert(q[k + 1] == m);
            } else if k == a.len() + b.len() {
                assert(q[a.len() as int] == m);
            } else {
                assert(q[k] == m);
            }
        }
        if q.contains(m) {
            let k = choose|k: int| 0 <= k < q.len() && q[k] == m;
            if k < a.len() {
                assert(p[k] == m);
            } else if k == a.len() {
                assert(p[(a.len() + b.len()) as int] == m);
            } else if k < a.len() + 1 + b.len() {
                assert(p[k - 1] == m);
            } else {
                assert(p[k] == m);
            }
        }
    }
}

proof fn lemma_regroup_right(
    a: MessageSeq,
    b: MessageSeq,
    x: crate::message::MessageView,
    out: MessageSeq,
)
    ensures
        same_messages(a + b + (seq![x] + out), a + b.push(x) + out),
{
    assert(a + b + (seq![x] + out) =~= a + b.push(x) + out);
}

/// Puts messages in ascending order.
fn sorted(messages: Vec<DbMessage>) -> (result: Vec<DbMessage>)
    requires
        ids_distinct(crate::message::messages_view(messages@)),
    ensures
        ascending(crate::message::messages_view(result@)),
        same_messages(
            crate::message::messages_view(result@),
            crate::message::messages_view(messages@),
        ),
    decreases messages@.len(),
{
    let ghost all = crate::message::messages_view(messages@);
    if messages.len() <= 1 {
        return messages;
    }
    let mut left = messages;
    let middle: usize = left.len() / 2;
    let right = left.split_off(middle);
    let ghost l = crate::message::messages_view(left@);
    let ghost r = crate::message::messages_view(right@);
    proof {
        assert(l =~= all.take(middle as int));
        assert(r =~= all.skip(middle as int));
        assert forall|i: int, j: int| #![trigger l[i], l[j]] 0 <= i < j < l.len() implies l[i].message_id
            != l[j].message_id by {
            assert(all[i].message_id != all[j].message_id);
        }
        assert forall|i: int, j: int| #![trigger r[i], r[j]] 0 <= i < j < r.len() implies r[i].message_id
            != r[j].message_id by {
            assert(all[i + middle].message_id != all[j + middle].message_id);
        }
    }
    let left_sorted = sorted(left);
    let right_sorted = sorted(right);
    let ghost ls = crate::message::messages_view(left_sorted@);
    let ghost rs = crate::message::messages_view(right_sorted@);
    proof {
        assert forall|i: int, j: int|
            #![trigger ls[i], rs[j]]
            0 <= i < ls.len() && 0 <= j < rs.len() implies ls[i].message_id != rs[j].message_id by {
            assert(ls.contains(ls[i]));
            assert(rs.contains(rs[j]));
            assert(l.contains(ls[i]));
            assert(r.contains(rs[j]));
            let p = choose|p: int| 0 <= p < l.len() && l[p] == ls[i];
            let q = choose|q: int| 0 <= q < r.len() && r[q] == rs[j];
            assert(all[p].message_id != all[q + middle].message_id);
        }
    }
    let result = merge(left_sorted, right_sorted);
    proof {
        let whole = ls + rs;
        let done = crate::message::messages_view(result@);
        assert forall|m: crate::message::MessageView|
            #![trigger done.contains(m)]
            #![trigger all.contains(m)]
            done.contains(m) <==> all.contains(m) by {
            assert(done.contains(m) <==> whole.contains(m));
            if whole.contains(m) {
                let k = choose|k: int| 0 <= k < whole.len() && whole[k] == m;
                if k < ls.len() {
                    assert(ls.contains(ls[k]));
                    assert(l.contains(m));
                    let n = choose|n: int| 0 <= n < l.len() && l[n] == m;
                    assert(all[n] == m);
                } else {
                    assert(rs.contains(rs[k - ls.len()]));
                    assert(r.contains(m));
                    let n = choose|n: int| 0 <= n < r.len() && r[n] == m;
                    assert(all[n + middle] == m);
                }
            }
            if all.contains(m) {
                let k = choose|k: int| 0 <= k < all.len() && all[k] == m;
                if k < middle {
                    assert(l[k] == m);
                    assert(l.contains(m));
                    assert(ls.contains(m));
                    let n = choose|n: int| 0 <= n < ls.len() && ls[n] == m;
                    assert(whole[n] == m);
                } else {
                    assert(r[k - middle] == m);
                    assert(r.contains(m));
                    assert(rs.contains(m));
                    let n = choose|n: int| 0 <= n < rs.len() && rs[n] == m;
                    assert(whole[n + ls.len()] == m);
                }
            }
        }
    }
    result
}

// ---------------------------------------------------------------------------
// Pages
// ---------------------------------------------------------------------------

/// The longest page.
pub const MAX_PAGE: usize = 500;

/// The greatest number of messages that can be skipped.
pub const MAX_OFFSET: usize = 100_000;

pub open spec fn clamped_limit(limit: usize) -> nat {
    if limit < 1 {
        1
    } else if limit > MAX_PAGE {
        MAX_PAGE as nat
    } else {
        limit as nat
    }
}

pub open spec fn clamped_offset(offset: usize) -> nat {
    if offset > MAX_OFFSET {
        MAX_OFFSET as nat
    } else {
        offset as nat
    }
}

pub fn page_limit(limit: usize) -> (clamped: usize)
    ensures
        clamped == clamped_limit(limit),
{
    if limit < 1 {
        1
    } else if limit > MAX_PAGE {
        MAX_PAGE
    } else {
        limit
    }
}

pub fn page_offset(offset: usize) -> (clamped: usize)
    ensures
        clamped == clamped_offset(offset),
{
    if offset > MAX_OFFSET {
        MAX_OFFSET
    } else {
        offset
    }
}

/// How many different messages each table has to give for a page, if it has them: those
/// that are skipped, the page, and one more, which tells whether there is a next page.
pub fn fetch_limit(offset: usize, limit: usize) -> (rows: usize)
    ensures
        rows == clamped_offset(offset) + clamped_limit(limit) + 1,
{
    page_offset(offset) + page_limit(limit) + 1
}

/// Whether a list is the page of the history that begins at `offset`, and whether it is
/// rightly said that there are messages after it.
pub open spec fn is_page(
    messages: MessageSeq,
    offset: usize,
    limit: usize,
    page: MessageSeq,
    more: bool,
) -> bool {
    let all = timeline(messages);
    let start = clamped_offset(offset);
    let count = clamped_limit(limit);
    &&& page == page_of(all, start, count)
    &&& more == (all.len() > start + count)
}

/// The page of the history that begins at `offset`, and whether there are messages after
/// it.
pub fn history_page(messages: Vec<DbMessage>, offset: usize, limit: usize) -> (page: (
    Vec<DbMessage>,
    bool,
))
    ensures
        is_page(
            crate::message::messages_view(messages@),
            offset,
            limit,
            crate::message::messages_view(page.0@),
            page.1,
        ),
{
    let ghost source = crate::message::messages_view(messages@);
    let start: usize = page_offset(offset);
    let count: usize = page_limit(limit);
    let once = keep_earliest(messages);
    proof {
        lemma_earliest_of_each(source);
    }
    let ghost distinct = crate::message::messages_view(once@);
    let mut all = sorted(once);
    let ghost view = crate::message::messages_view(all@);
    proof {
        lemma_in_order(distinct);
        let other = in_order(distinct);
        assert forall|m: crate::message::MessageView|
            #![trigger view.contains(m)]
            #![trigger other.contains(m)]
            view.contains(m) <==> other.contains(m) by {
            assert(view.contains(m) <==> distinct.contains(m));
            assert(other.contains(m) <==> distinct.contains(m));
        }
        lemma_ascending_unique(view, other);
    }
    let has_more: bool = all.len() > start + count;
    if start >= all.len() {
        let none: Vec<DbMessage> = Vec::new();
        proof {
            assert(crate::message::messages_view(none@) =~= page_of(
                view,
                start as nat,
                count as nat,
            ));
        }
        return (none, has_more);
    }
    let mut tail = all.split_off(start);
    if tail.len() > count {
        let _rest = tail.split_off(count);
    }
    proof {
        assert(crate::message::messages_view(tail@) =~= page_of(view, start as nat, count as nat));
    }
    (tail, has_more)
}

/// Pages follow one another without a gap and without a repetition: a page and the one
/// after it are together the page that begins where the first does.
pub proof fn pages_join(messages: MessageSeq, offset: nat, first: nat, second: nat)
    ensures
        page_of(messages, offset, first) + page_of(messages, offset + first, second) == page_of(
            messages,
            offset,
            first + second,
        ),
{
    assert(page_of(messages, offset, first) + page_of(messages, offset + first, second)
        =~= page_of(messages, offset, first + second));
}

// ---------------------------------------------------------------------------
// How much of each table is read
// ---------------------------------------------------------------------------

pub type RawSeq = Seq<crate::message::RawView>;

/// The identifier that a message of a table gets.
pub open spec fn raw_id(raw: crate::message::RawView) -> Seq<char> {
    crate::message::message_id_of(raw.server_id, raw.chat, raw.local_id, raw.create_time)
}

/// The identifiers that messages of a table get.
pub open spec fn raw_ids(raws: RawSeq) -> Set<Seq<char>> {
    raws.map_values(|r: crate::message::RawView| raw_id(r)).to_set()
}

/// Whether a table has given enough, and ends a second before `next`.
pub open spec fn is_enough(given: RawSeq, wanted: nat, next: crate::message::RawView) -> bool {
    &&& given.len() > 0
    &&& raw_ids(given).len() >= wanted
    &&& given.last().create_time < next.create_time
}

/// What is read of a table that is ordered by time: `wanted` different messages, and the
/// rest of the second in which the last of them was sent.
pub open spec fn read_of(table: RawSeq, wanted: nat) -> RawSeq
    decreases table.len(),
{
    if table.len() == 0 {
        seq![]
    } else {
        let before = read_of(table.drop_last(), wanted);
        if before.len() < table.len() - 1 || is_enough(before, wanted, table.last()) {
            before
        } else {
            before.push(table.last())
        }
    }
}

/// Reads a table row by row, in the order of time, as far as a page of the history needs.
pub struct TableReading {
    wanted: usize,
    given: Vec<RawMsg>,
    ids: StringHashMap<bool>,
    different: usize,
    stopped: bool,
    offered: Ghost<RawSeq>,
}

/// What a [`TableReading`] has seen, what it keeps of it, and whether it is over.
pub struct ReadingView {
    pub wanted: nat,
    pub offered: RawSeq,
    pub given: RawSeq,
    pub stopped: bool,
}

impl View for TableReading {
    type V = ReadingView;

    closed spec fn view(&self) -> ReadingView {
        ReadingView {
            wanted: self.wanted as nat,
            offered: self.offered@,
            given: crate::message::raws_view(self.given@),
            stopped: self.stopped,
        }
    }
}

proof fn lemma_raw_ids_push(raws: RawSeq, raw: crate::message::RawView)
    ensures
        raw_ids(raws).finite(),
        raw_ids(raws.push(raw)) =~= raw_ids(raws).insert(raw_id(raw)),
{
    let f = |r: crate::message::RawView| raw_id(r);
    let a = raws.map_values(f);
    let b = raws.push(raw).map_values(f);
    vstd::seq_lib::seq_to_set_is_finite(a);
    assert forall|id: Seq<char>| b.to_set().contains(id) <==> a.to_set().insert(
        raw_id(raw),
    ).contains(id) by {
        if b.contains(id) {
            let k = choose|k: int| 0 <= k < b.len() && b[k] == id;
            if k < a.len() {
                assert(a[k] == id);
            }
        }
        if a.contains(id) {
            let k = choose|k: int| 0 <= k < a.len() && a[k] == id;
            assert(b[k] == id);
        }
        assert(b[a.len() as int] == raw_id(raw));
    }
}

impl TableReading {
    /// What is kept is what is to be read of the messages so far.
    pub closed spec fn wf(&self) -> bool {
        &&& self@.given == read_of(self@.offered, self@.wanted)
        &&& self.stopped == (self@.given.len() < self@.offered.len())
        &&& self.ids@.dom() == raw_ids(self@.given)
        &&& self.different == raw_ids(self@.given).len()
    }

    /// Begins to read a table.
    pub fn new(wanted: usize) -> (reading: TableReading)
        ensures
            reading.wf(),
            reading@ == (ReadingView {
                wanted: wanted as nat,
                offered: seq![],
                given: seq![],
                stopped: false,
            }),
    {
        let reading = TableReading {
            wanted,
            given: Vec::new(),
            ids: StringHashMap::new(),
            different: 0,
            stopped: false,
            offered: Ghost(Seq::empty()),
        };
        proof {
            assert(crate::message::raws_view(reading.given@) =~= Seq::<
                crate::message::RawView,
            >::empty());
            assert(raw_ids(seq![]) =~= Set::<Seq<char>>::empty());
            assert(reading.ids@.dom() =~= Set::<Seq<char>>::empty());
        }
        reading
    }

    /// Takes the next row of the table of `chat`. Says whether to go on: once it says no,
    /// what is kept does not change any more.
    pub fn add_row(&mut self, row: &MessageRow, chat: &str) -> (more: bool)
        requires
            old(self).wf(),
        ensures
            final(self).wf(),
            final(self)@.wanted == old(self)@.wanted,
            final(self)@.offered == match crate::message::row_message(*row, chat@, true) {
                Some(raw) => old(self)@.offered.push(raw),
                None => old(self)@.offered,
            },
            final(self)@.given == read_of(final(self)@.offered, final(self)@.wanted),
            final(self)@.stopped == (final(self)@.given.len() < final(self)@.offered.len()),
            more == !final(self)@.stopped,
    {
        let raw = match message_of_row(row, chat, true) {
            Some(raw) => raw,
            None => {
                return !self.stopped;
            },
        };
        let ghost before = self@;
        let ghost view = raw@;
        let ghost table = before.offered.push(view);
        proof {
            assert(table.drop_last() =~= before.offered);
            lemma_read_of_is_a_part(before.offered, before.wanted);
        }
        if !self.stopped {
            let n: usize = self.given.len();
            if n > 0 && self.different >= self.wanted && self.given[n - 1].create_time
                < raw.create_time {
                proof {
                    assert(before.given.last() == self.given@[n - 1]@);
                }
                self.stopped = true;
            } else {
                proof {
                    if n > 0 {
                        assert(before.given.last() == self.given@[n - 1]@);
                    }
                    lemma_raw_ids_push(before.given, view);
                    assert(raw_ids(before.given).len() <= before.given.len()) by {
                        before.given.map_values(
                            |r: crate::message::RawView| raw_id(r),
                        ).lemma_cardinality_of_set();
                    }
                }
                let id = stable_message_id(
                    raw.server_id,
                    raw.chat.as_str(),
                    raw.local_id,
                    raw.create_time,
                );
                self.given.push(raw);
                let length: usize = self.given.len();
                if !self.ids.contains_key(id.as_str()) {
                    proof {
                        assert(self.different < length);
                    }
                    self.different = self.different + 1;
                    self.ids.insert(id, true);
                }
                proof {
                    assert(crate::message::raws_view(self.given@) =~= before.given.push(view));
                    assert(self.ids@.dom() =~= raw_ids(before.given.push(view)));
                }
            }
        }
        self.offered = Ghost(table);
        !self.stopped
    }

    /// What was read.
    pub fn messages(self) -> (raws: Vec<RawMsg>)
        requires
            self.wf(),
        ensures
            crate::message::raws_view(raws@) == read_of(self@.offered, self@.wanted),
    {
        self.given
    }
}

/// What is read of a table is its beginning.
proof fn lemma_read_of_is_a_part(table: RawSeq, wanted: nat)
    ensures
        read_of(table, wanted).len() <= table.len(),
        read_of(table, wanted) == table.take(read_of(table, wanted).len() as int),
        read_of(table, wanted).len() < table.len() ==> is_enough(
            read_of(table, wanted),
            wanted,
            table[read_of(table, wanted).len() as int],
        ),
    decreases table.len(),
{
    let part = read_of(table, wanted);
    if table.len() > 0 {
        let rest = table.drop_last();
        let before = read_of(rest, wanted);
        lemma_read_of_is_a_part(rest, wanted);
        if part.len() == before.len() {
            assert(table.take(part.len() as int) =~= rest.take(part.len() as int));
        } else {
            assert(table.take(part.len() as int) =~= table);
            assert(before =~= rest);
        }
    } else {
        assert(part =~= table.take(0));
    }
}

// ---------------------------------------------------------------------------
// Pages of what is read are pages of the whole
// ---------------------------------------------------------------------------

/// The messages of all tables, one table after the other.
pub open spec fn joined_tables(tables: Seq<RawSeq>) -> RawSeq
    decreases tables.len(),
{
    if tables.len() == 0 {
        seq![]
    } else {
        joined_tables(tables.drop_last()) + tables.last()
    }
}

/// What is read of all tables.
pub open spec fn read_tables(tables: Seq<RawSeq>, wanted: nat) -> Seq<RawSeq> {
    tables.map_values(|t: RawSeq| read_of(t, wanted))
}

/// A table gives its messages in the order of time, in any order within a second.
pub open spec fn by_time(table: RawSeq) -> bool {
    forall|i: int, j: int|
        #![trigger table[i], table[j]]
        0 <= i < j < table.len() ==> table[i].create_time <= table[j].create_time
}

/// The history that tables hold.
pub open spec fn history_of(
    tables: Seq<RawSeq>,
    reader: crate::message::ReaderView,
) -> MessageSeq {
    timeline(crate::message::all_hydrated(joined_tables(tables), reader))
}

/// The messages up to a time.
pub open spec fn until(messages: MessageSeq, time: i64) -> MessageSeq
    decreases messages.len(),
{
    if messages.len() == 0 {
        seq![]
    } else {
        let before = until(messages.drop_last(), time);
        if messages.last().create_time <= time {
            before.push(messages.last())
        } else {
            before
        }
    }
}

proof fn lemma_until_joins(a: MessageSeq, b: MessageSeq, time: i64)
    ensures
        until(a + b, time) == until(a, time) + until(b, time),
    decreases b.len(),
{
    if b.len() == 0 {
        assert(a + b =~= a);
        assert(until(a, time) + until(b, time) =~= until(a, time));
    } else {
        lemma_until_joins(a, b.drop_last(), time);
        assert((a + b).drop_last() =~= a + b.drop_last());
        assert((a + b).last() == b.last());
        assert(until(a + b, time) =~= until(a, time) + until(b, time));
    }
}

proof fn lemma_until_none(messages: MessageSeq, time: i64)
    requires
        forall|k: int| 0 <= k < messages.len() ==> (#[trigger] messages[k]).create_time > time,
    ensures
        until(messages, time) == Seq::<crate::message::MessageView>::empty(),
    decreases messages.len(),
{
    if messages.len() > 0 {
        let rest = messages.drop_last();
        assert forall|k: int| 0 <= k < rest.len() implies (#[trigger] rest[k]).create_time
            > time by {
            assert(messages[k].create_time > time);
        }
        lemma_until_none(rest, time);
        assert(messages[messages.len() - 1].create_time > time);
    }
}

proof fn lemma_until_has(messages: MessageSeq, time: i64, k: int)
    requires
        0 <= k < messages.len(),
        messages[k].create_time <= time,
    ensures
        has_id(until(messages, time), messages[k].message_id),
    decreases messages.len(),
{
    let rest = messages.drop_last();
    let id = messages[k].message_id;
    if k < rest.len() {
        assert(rest[k] == messages[k]);
        lemma_until_has(rest, time, k);
        let before = until(rest, time);
        let n = choose|n: int| 0 <= n < before.len() && (#[trigger] before[n]).message_id == id;
        assert(until(messages, time)[n].message_id == id);
    } else {
        assert(until(messages, time)[until(rest, time).len() as int].message_id == id);
    }
}

/// Of the messages up to a time, the earliest of an identifier is the earliest of all, if
/// it is of that time.
proof fn lemma_earliest_until(messages: MessageSeq, time: i64, id: Seq<char>)
    ensures
        earliest(until(messages, time), id) == match earliest(messages, id) {
            Some(m) => if m.create_time <= time {
                Some(m)
            } else {
                None
            },
            None => None,
        },
    decreases messages.len(),
{
    if messages.len() > 0 {
        let rest = messages.drop_last();
        lemma_earliest_until(rest, time, id);
        if messages.last().create_time <= time {
            assert(until(messages, time).drop_last() =~= until(rest, time));
        }
    }
}

proof fn lemma_times_ascend(messages: MessageSeq, time: i64) -> (k: int)
    requires
        ascending(messages),
    ensures
        0 <= k <= messages.len(),
        forall|i: int| 0 <= i < k ==> (#[trigger] messages[i]).create_time <= time,
        forall|i: int| k <= i < messages.len() ==> (#[trigger] messages[i]).create_time > time,
    decreases messages.len(),
{
    if messages.len() == 0 {
        0
    } else if messages.last().create_time <= time {
        assert forall|i: int| 0 <= i < messages.len() implies (#[trigger] messages[i]).create_time
            <= time by {
            if i < messages.len() - 1 {
                assert(stands_before(messages[i], messages[messages.len() - 1]));
            }
        }
        messages.len() as int
    } else {
        let rest = messages.drop_last();
        lemma_ascending_part(messages, messages.len() - 1);
        assert(rest =~= messages.take(messages.len() - 1));
        let k = lemma_times_ascend(rest, time);
        assert forall|i: int| 0 <= i < k implies (#[trigger] messages[i]).create_time <= time by {
            assert(rest[i].create_time <= time);
        }
        assert forall|i: int| k <= i < messages.len() implies (#[trigger] messages[i]).create_time
            > time by {
            if i < rest.len() {
                assert(rest[i].create_time > time);
            }
        }
        k
    }
}

/// The history of the messages up to a time is the beginning of the history.
proof fn lemma_history_begins(messages: MessageSeq, time: i64)
    ensures
        timeline(until(messages, time)).len() <= timeline(messages).len(),
        timeline(until(messages, time)) == timeline(messages).take(
            timeline(until(messages, time)).len() as int,
        ),
{
    let all = timeline(messages);
    let early = timeline(until(messages, time));
    timeline_is_ordered(messages);
    timeline_is_ordered(until(messages, time));
    let k = lemma_times_ascend(all, time);
    let head = all.take(k);
    lemma_ascending_part(all, k);
    assert forall|m: crate::message::MessageView|
        #![trigger head.contains(m)]
        #![trigger early.contains(m)]
        head.contains(m) <==> early.contains(m) by {
        lemma_earliest_until(messages, time, m.message_id);
        assert(all.contains(m) <==> earliest(messages, m.message_id) == Some(m));
        assert(early.contains(m) <==> earliest(until(messages, time), m.message_id) == Some(m));
        if head.contains(m) {
            let i = choose|i: int| 0 <= i < head.len() && head[i] == m;
            assert(all[i] == m);
            assert(all.contains(m));
        }
        if early.contains(m) {
            assert(all.contains(m));
            let i = choose|i: int| 0 <= i < all.len() && all[i] == m;
            if i < k {
                assert(head[i] == m);
            }
        }
    }
    lemma_ascending_unique(head, early);
}

/// What is read of a table, and the rest of it, as clients are told of them.
proof fn lemma_table_parts(
    table: RawSeq,
    wanted: nat,
    reader: crate::message::ReaderView,
    time: i64,
)
    requires
        by_time(table),
        read_of(table, wanted).len() < table.len() ==> time <= read_of(
            table,
            wanted,
        ).last().create_time,
    ensures
        until(crate::message::all_hydrated(read_of(table, wanted), reader), time) == until(
            crate::message::all_hydrated(table, reader),
            time,
        ),
{
    lemma_read_of_is_a_part(table, wanted);
    let part = read_of(table, wanted);
    let a = crate::message::all_hydrated(part, reader);
    let whole = crate::message::all_hydrated(table, reader);
    let n = part.len() as int;
    let b = whole.skip(n);
    assert(whole =~= a + b);
    lemma_until_joins(a, b, time);
    assert forall|k: int| 0 <= k < b.len() implies (#[trigger] b[k]).create_time > time by {
        assert(b[k].create_time == table[n + k].create_time);
        assert(part.last() == table[n - 1]);
        if k > 0 {
            assert(table[n].create_time <= table[n + k].create_time);
        }
    }
    lemma_until_none(b, time);
    assert(until(a, time) + until(b, time) =~= until(a, time));
}

proof fn lemma_joined_until(
    tables: Seq<RawSeq>,
    wanted: nat,
    reader: crate::message::ReaderView,
    time: i64,
)
    requires
        forall|t: int| 0 <= t < tables.len() ==> by_time(#[trigger] tables[t]),
        forall|t: int|
            0 <= t < tables.len() && read_of(#[trigger] tables[t], wanted).len() < tables[t].len()
                ==> time <= read_of(tables[t], wanted).last().create_time,
    ensures
        until(
            crate::message::all_hydrated(joined_tables(read_tables(tables, wanted)), reader),
            time,
        ) == until(crate::message::all_hydrated(joined_tables(tables), reader), time),
    decreases tables.len(),
{
    let parts = read_tables(tables, wanted);
    if tables.len() > 0 {
        let rest = tables.drop_last();
        assert forall|t: int| 0 <= t < rest.len() implies by_time(#[trigger] rest[t]) by {
            assert(by_time(tables[t]));
        }
        assert forall|t: int|
            0 <= t < rest.len() && read_of(#[trigger] rest[t], wanted).len()
                < rest[t].len() implies time <= read_of(rest[t], wanted).last().create_time by {
            assert(rest[t] == tables[t]);
        }
        lemma_joined_until(rest, wanted, reader, time);
        assert(parts.drop_last() =~= read_tables(rest, wanted));
        let table = tables[tables.len() - 1];
        assert(parts.last() == read_of(table, wanted));
        lemma_table_parts(table, wanted, reader, time);
        let a = crate::message::all_hydrated(joined_tables(rest), reader);
        let b = crate::message::all_hydrated(table, reader);
        let c = crate::message::all_hydrated(joined_tables(read_tables(rest, wanted)), reader);
        let d = crate::message::all_hydrated(read_of(table, wanted), reader);
        assert(crate::message::all_hydrated(joined_tables(tables), reader) =~= a + b);
        assert(crate::message::all_hydrated(joined_tables(parts), reader) =~= c + d);
        lemma_until_joins(a, b, time);
        lemma_until_joins(c, d, time);
    } else {
        assert(parts =~= tables);
    }
}

/// Of the tables that are not read whole, the one that is read the least far.
proof fn lemma_least_read(tables: Seq<RawSeq>, wanted: nat) -> (least: Option<int>)
    ensures
        match least {
            Some(t) => {
                &&& 0 <= t < tables.len()
                &&& read_of(tables[t], wanted).len() < tables[t].len()
                &&& forall|u: int|
                    0 <= u < tables.len() && read_of(#[trigger] tables[u], wanted).len()
                        < tables[u].len() ==> read_of(tables[t], wanted).last().create_time
                        <= read_of(tables[u], wanted).last().create_time
            },
            None => forall|u: int|
                0 <= u < tables.len() ==> read_of(#[trigger] tables[u], wanted).len()
                    >= tables[u].len(),
        },
    decreases tables.len(),
{
    if tables.len() == 0 {
        None
    } else {
        let rest = tables.drop_last();
        let before = lemma_least_read(rest, wanted);
        let last = tables.len() - 1;
        assert forall|u: int| 0 <= u < rest.len() implies #[trigger] tables[u] == rest[u] by {}
        if read_of(tables[last], wanted).len() < tables[last].len() && (before is None || read_of(
            tables[last],
            wanted,
        ).last().create_time < read_of(tables[before->0], wanted).last().create_time) {
            Some(last)
        } else {
            before
        }
    }
}

proof fn lemma_joined_has(tables: Seq<RawSeq>, t: int, k: int) -> (n: int)
    requires
        0 <= t < tables.len(),
        0 <= k < tables[t].len(),
    ensures
        0 <= n < joined_tables(tables).len(),
        joined_tables(tables)[n] == tables[t][k],
    decreases tables.len(),
{
    let rest = tables.drop_last();
    if t == tables.len() - 1 {
        joined_tables(rest).len() + k
    } else {
        assert(rest[t] == tables[t]);
        lemma_joined_has(rest, t, k)
    }
}

/// A history holds as many messages as there are identifiers.
proof fn lemma_history_holds(
    messages: MessageSeq,
    ids: Set<Seq<char>>,
)
    requires
        forall|id: Seq<char>| #[trigger] ids.contains(id) ==> has_id(messages, id),
    ensures
        ids.len() <= timeline(messages).len(),
{
    timeline_is_ordered(messages);
    let all = timeline(messages);
    let names = all.map_values(|m: crate::message::MessageView| m.message_id);
    assert forall|id: Seq<char>| ids.contains(id) implies names.to_set().contains(id) by {
        assert(has_id(all, id));
        let k = choose|k: int| 0 <= k < all.len() && (#[trigger] all[k]).message_id == id;
        assert(names[k] == id);
    }
    vstd::seq_lib::seq_to_set_is_finite(names);
    names.lemma_cardinality_of_set();
    vstd::set_lib::lemma_len_subset(ids, names.to_set());
}

/// What is read of the tables begins as the whole history does.
proof fn lemma_read_begins(
    tables: Seq<RawSeq>,
    reader: crate::message::ReaderView,
    wanted: nat,
)
    requires
        forall|t: int| 0 <= t < tables.len() ==> by_time(#[trigger] tables[t]),
    ensures
        ({
            let whole = history_of(tables, reader);
            let part = history_of(read_tables(tables, wanted), reader);
            ||| part == whole
            ||| {
                &&& part.len() >= wanted
                &&& whole.len() >= wanted
                &&& part.take(wanted as int) == whole.take(wanted as int)
            }
        }),
{
    let parts = read_tables(tables, wanted);
    let full = crate::message::all_hydrated(joined_tables(tables), reader);
    let some = crate::message::all_hydrated(joined_tables(parts), reader);
    match lemma_least_read(tables, wanted) {
        None => {
            assert forall|t: int| 0 <= t < tables.len() implies parts[t] == #[trigger] tables[t] by {
                lemma_read_of_is_a_part(tables[t], wanted);
                assert(read_of(tables[t], wanted) =~= tables[t]);
            }
            assert(parts =~= tables);
        },
        Some(t) => {
            let table = tables[t];
            let given = read_of(table, wanted);
            lemma_read_of_is_a_part(table, wanted);
            let time = given.last().create_time;
            lemma_joined_until(tables, wanted, reader, time);
            let early = until(full, time);
            assert forall|id: Seq<char>| #[trigger] raw_ids(given).contains(id) implies has_id(
                early,
                id,
            ) by {
                let names = given.map_values(|r: crate::message::RawView| raw_id(r));
                let k = choose|k: int| 0 <= k < names.len() && names[k] == id;
                assert(given[k] == table[k]);
                assert(given.last() == table[given.len() - 1]);
                if k < given.len() - 1 {
                    assert(table[k].create_time <= table[given.len() - 1].create_time);
                }
                let n = lemma_joined_has(tables, t, k);
                assert(full[n].message_id == id);
                lemma_until_has(full, time, n);
            }
            lemma_history_holds(early, raw_ids(given));
            lemma_history_begins(full, time);
            lemma_history_begins(some, time);
            let head = timeline(early);
            let w = wanted as int;
            assert(timeline(full).take(w) =~= head.take(w));
            assert(timeline(some).take(w) =~= head.take(w));
        },
    }
}

/// A page of what is read of the tables.
pub open spec fn page_read(
    tables: Seq<RawSeq>,
    reader: crate::message::ReaderView,
    offset: nat,
    limit: nat,
) -> MessageSeq {
    page_of(history_of(read_tables(tables, offset + limit + 1), reader), offset, limit)
}

/// Whether what is read of the tables for a page holds more than the page.
pub open spec fn more_after(
    tables: Seq<RawSeq>,
    reader: crate::message::ReaderView,
    offset: nat,
    limit: nat,
) -> bool {
    history_of(read_tables(tables, offset + limit + 1), reader).len() > offset + limit
}

/// Reading of each table what a page needs gives the page of the whole history, and tells
/// rightly whether there are more messages.
pub proof fn tables_need_not_be_read_whole(
    tables: Seq<RawSeq>,
    reader: crate::message::ReaderView,
    offset: nat,
    limit: nat,
)
    requires
        forall|t: int| 0 <= t < tables.len() ==> by_time(#[trigger] tables[t]),
    ensures
        page_read(tables, reader, offset, limit) == page_of(
            history_of(tables, reader),
            offset,
            limit,
        ),
        more_after(tables, reader, offset, limit) == (history_of(tables, reader).len() > offset
            + limit),
{
    let n = offset + limit + 1;
    let whole = history_of(tables, reader);
    let part = history_of(read_tables(tables, n), reader);
    lemma_read_begins(tables, reader, n);
    if part != whole {
        assert(page_of(part, offset, limit) =~= part.take(n as int).subrange(
            offset as int,
            (offset + limit) as int,
        ));
        assert(page_of(whole, offset, limit) =~= whole.take(n as int).subrange(
            offset as int,
            (offset + limit) as int,
        ));
    }
}

/// The pages that a client gets one after the other, each from where the last one ended.
pub open spec fn pages_read(
    tables: Seq<RawSeq>,
    reader: crate::message::ReaderView,
    limits: Seq<nat>,
) -> MessageSeq
    decreases limits.len(),
{
    if limits.len() == 0 {
        seq![]
    } else {
        let before = pages_read(tables, reader, limits.drop_last());
        before + page_read(tables, reader, before.len(), limits.last())
    }
}

/// Going through the history page by page, each from where the last one ended, gives every
/// message once and in order: the pages so far are the beginning of the history; a page
/// after which there are more is full; and after one that says there are no more, they are
/// the whole history.
pub proof fn pages_are_the_history(
    tables: Seq<RawSeq>,
    reader: crate::message::ReaderView,
    limits: Seq<nat>,
)
    requires
        forall|t: int| 0 <= t < tables.len() ==> by_time(#[trigger] tables[t]),
    ensures
        ({
            let pages = pages_read(tables, reader, limits);
            let whole = history_of(tables, reader);
            &&& pages.len() <= whole.len()
            &&& pages == whole.take(pages.len() as int)
            &&& limits.len() > 0 ==> {
                let before = pages_read(tables, reader, limits.drop_last()).len();
                if more_after(tables, reader, before, limits.last()) {
                    pages.len() == before + limits.last()
                } else {
                    pages == whole
                }
            }
        }),
    decreases limits.len(),
{
    let whole = history_of(tables, reader);
    let pages = pages_read(tables, reader, limits);
    if limits.len() == 0 {
        assert(pages =~= whole.take(0));
    } else {
        pages_are_the_history(tables, reader, limits.drop_last());
        let before = pages_read(tables, reader, limits.drop_last());
        tables_need_not_be_read_whole(tables, reader, before.len(), limits.last());
        assert(pages =~= whole.take(pages.len() as int));
        if !more_after(tables, reader, before.len(), limits.last()) {
            assert(pages =~= whole);
        }
    }
}

// ---------------------------------------------------------------------------
// What a page holds
// ---------------------------------------------------------------------------

/// The history goes from older to newer messages, and within a second by their identifiers;
/// every identifier that is there stands in it once, with a message of the tables that is
/// no newer than any other of that identifier.
pub proof fn the_history_holds_every_message_once(
    messages: MessageSeq,
    i: int,
    j: int,
    k: int,
)
    requires
        0 <= i < j < timeline(messages).len(),
        0 <= k < messages.len(),
    ensures
        ({
            let all = timeline(messages);
            &&& all[i].create_time <= all[j].create_time
            &&& all[i].create_time == all[j].create_time ==> crate::text::text_before(
                all[i].message_id,
                all[j].message_id,
            )
            &&& all[i].message_id != all[j].message_id
            &&& messages.contains(all[i])
            &&& all[i].message_id == messages[k].message_id ==> all[i].create_time
                <= messages[k].create_time
            &&& exists|n: int|
                0 <= n < all.len() && (#[trigger] all[n]).message_id == messages[k].message_id
                    && all[n].create_time <= messages[k].create_time
        }),
{
    let all = timeline(messages);
    timeline_is_ordered(messages);
    assert(stands_before(all[i], all[j]));
    assert(all.contains(all[i]));
    lemma_earliest(messages, all[i].message_id);
    let id = messages[k].message_id;
    assert(has_id(messages, id));
    assert(has_id(all, id));
    let n = choose|n: int| 0 <= n < all.len() && (#[trigger] all[n]).message_id == id;
    assert(all.contains(all[n]));
    lemma_earliest(messages, id);
}

/// A page holds the messages of the history from its offset on, one after the other, at
/// least one and at most five hundred where there are as many; and there are more exactly
/// where the history goes on behind it.
pub proof fn pages_hold_what_stands_at_their_offset(
    messages: MessageSeq,
    offset: usize,
    limit: usize,
    page: MessageSeq,
    more: bool,
)
    requires
        is_page(messages, offset, limit, page, more),
        offset <= 100_000,
    ensures
        ({
            let all = timeline(messages);
            &&& page.len() <= 500
            &&& limit >= 1 ==> page.len() <= limit
            &&& limit == 0 ==> page.len() <= 1
            &&& forall|k: int| 0 <= k < page.len() ==> #[trigger] page[k] == all[offset + k]
            &&& offset >= all.len() ==> page.len() == 0
            &&& offset < all.len() ==> page.len() > 0
            &&& more <==> offset + page.len() < all.len()
            &&& more && 1 <= limit <= 500 ==> page.len() == limit
        }),
{
}

/// How many messages each table is asked for is enough for the page and one more.
pub proof fn tables_are_asked_for_enough(offset: usize, limit: usize)
    requires
        offset <= 100_000,
        1 <= limit <= 500,
    ensures
        clamped_offset(offset) + clamped_limit(limit) == offset + limit,
{
}

/// A table is read from its beginning without a gap; it is left off only where enough
/// different messages were read, and where the next one is of a later second.
pub proof fn tables_are_read_from_the_beginning(table: RawSeq, wanted: nat)
    ensures
        ({
            let part = read_of(table, wanted);
            &&& part.len() <= table.len()
            &&& forall|k: int| 0 <= k < part.len() ==> #[trigger] part[k] == table[k]
            &&& part.len() < table.len() ==> part.len() > 0 && raw_ids(part).len() >= wanted
                && part.last().create_time < table[part.len() as int].create_time
        }),
{
    lemma_read_of_is_a_part(table, wanted);
    let part = read_of(table, wanted);
    assert forall|k: int| 0 <= k < part.len() implies #[trigger] part[k] == table[k] by {
        assert(part[k] == table.take(part.len() as int)[k]);
    }
}

/// A table of which enough was read is read no further.
pub proof fn tables_are_read_no_further(
    table: RawSeq,
    next: crate::message::RawView,
    wanted: nat,
)
    requires
        table.len() > 0,
        raw_ids(table).len() >= wanted,
        table.last().create_time < next.create_time,
    ensures
        read_of(table.push(next), wanted) == read_of(table, wanted),
{
    assert(table.push(next).drop_last() =~= table);
    lemma_read_of_is_a_part(table, wanted);
    if read_of(table, wanted).len() == table.len() {
        assert(read_of(table, wanted) =~= table);
    }
}

} // verus!
