//! Contacts, chat rooms and sessions, as the databases of the client hold them.

use vstd::prelude::*;
use vstd::string::*;

use crate::cell::{read_integer, read_text, wcdb_get_text, Cell};
use crate::text::text_eq;
use crate::textmap::TextMap;

verus! {

/// A contact or a chat room.
#[derive(Debug)]
pub struct ContactInfo {
    pub username: String,
    pub nick_name: String,
    pub remark: String,
    pub alias: String,
    /// The name to show: the remark, else the nickname, else the user name.
    pub display_name: String,
}

/// What a [`ContactInfo`] says.
pub struct ContactView {
    pub username: Seq<char>,
    pub nick_name: Seq<char>,
    pub remark: Seq<char>,
    pub alias: Seq<char>,
    pub display_name: Seq<char>,
}

impl View for ContactInfo {
    type V = ContactView;

    open spec fn view(&self) -> ContactView {
        ContactView {
            username: self.username@,
            nick_name: self.nick_name@,
            remark: self.remark@,
            alias: self.alias@,
            display_name: self.display_name@,
        }
    }
}

impl Clone for ContactInfo {
    fn clone(&self) -> (copy: Self)
        ensures
            copy@ == self@,
    {
        ContactInfo {
            username: self.username.clone(),
            nick_name: self.nick_name.clone(),
            remark: self.remark.clone(),
            alias: self.alias.clone(),
            display_name: self.display_name.clone(),
        }
    }
}

/// A row of the contact table.
#[derive(Debug)]
pub struct ContactRow {
    pub username: Cell,
    pub nick_name: Cell,
    pub remark: Cell,
    pub alias: Cell,
}

/// A row of the chat room table, joined with the contacts.
#[derive(Debug)]
pub struct RoomRow {
    pub username: Cell,
    pub nick_name: Cell,
}

/// The name to show: the remark, else the nickname, else the user name.
pub open spec fn shown_name(
    username: Seq<char>,
    nick_name: Seq<char>,
    remark: Seq<char>,
) -> Seq<char> {
    if remark.len() > 0 {
        remark
    } else if nick_name.len() > 0 {
        nick_name
    } else {
        username
    }
}

/// The contact in a row; a row without a user name is none.
pub open spec fn row_contact(row: ContactRow) -> Option<ContactView> {
    let username = crate::cell::stored_text(row.username@);
    let nick_name = crate::cell::stored_text(row.nick_name@);
    let remark = crate::cell::stored_text(row.remark@);
    if username.len() == 0 {
        None
    } else {
        Some(
            ContactView {
                username,
                nick_name,
                remark,
                alias: crate::cell::stored_text(row.alias@),
                display_name: shown_name(username, nick_name, remark),
            },
        )
    }
}

/// The contacts in the rows, in order.
pub open spec fn rows_contacts(rows: Seq<ContactRow>) -> Seq<ContactView>
    decreases rows.len(),
{
    if rows.len() == 0 {
        seq![]
    } else {
        let before = rows_contacts(rows.drop_last());
        match row_contact(rows.last()) {
            Some(contact) => before.push(contact),
            None => before,
        }
    }
}

/// A contact book: each user name with its contact.
pub type BookView = Seq<(Seq<char>, ContactView)>;

/// The contacts by user name; of two with one user name the later counts.
pub open spec fn book_of(contacts: Seq<ContactView>) -> BookView
    decreases contacts.len(),
{
    if contacts.len() == 0 {
        seq![]
    } else {
        crate::textmap::with_value(
            book_of(contacts.drop_last()),
            contacts.last().username,
            contacts.last(),
        )
    }
}

/// The contact that a chat room gets which the contact table does not name.
pub open spec fn room_contact(username: Seq<char>, nick_name: Seq<char>) -> ContactView {
    ContactView {
        username,
        nick_name,
        remark: seq![],
        alias: seq![],
        display_name: nick_name,
    }
}

/// The book with one chat room added, unless it is there or the row lacks a name.
pub open spec fn with_room(book: BookView, row: RoomRow) -> BookView {
    let username = crate::cell::stored_text(row.username@);
    let nick_name = crate::cell::stored_text(row.nick_name@);
    if username.len() > 0 && nick_name.len() > 0 && crate::textmap::value_of(book, username) is None {
        crate::textmap::with_value(book, username, room_contact(username, nick_name))
    } else {
        book
    }
}

/// The book with the chat rooms added, one row after the other.
pub open spec fn with_rooms(book: BookView, rows: Seq<RoomRow>) -> BookView
    decreases rows.len(),
{
    if rows.len() == 0 {
        book
    } else {
        with_room(with_rooms(book, rows.drop_last()), rows.last())
    }
}

/// The contact in a row; a row without a user name is none.
pub fn contact_of_row(row: &ContactRow) -> (contact: Option<ContactInfo>)
    ensures
        match contact {
            Some(c) => row_contact(*row) == Some(c@),
            None => row_contact(*row) is None,
        },
{
    let username = wcdb_get_text(&row.username);
    if username.as_str().is_empty() {
        return None;
    }
    let nick_name = wcdb_get_text(&row.nick_name);
    let remark = wcdb_get_text(&row.remark);
    let alias = wcdb_get_text(&row.alias);
    let display_name = if !remark.as_str().is_empty() {
        remark.clone()
    } else if !nick_name.as_str().is_empty() {
        nick_name.clone()
    } else {
        username.clone()
    };
    Some(ContactInfo { username, nick_name, remark, alias, display_name })
}

/// The contacts in the rows by user name, and how many rows held one.
pub fn load_contacts(rows: &Vec<ContactRow>) -> (loaded: (TextMap<ContactInfo>, usize))
    ensures
        loaded.0.wf(),
        loaded.0@ == book_of(rows_contacts(rows@)),
        loaded.1 == rows_contacts(rows@).len(),
{
    let mut book: TextMap<ContactInfo> = TextMap::new();
    let mut count: usize = 0;
    let mut i: usize = 0;
    while i < rows.len()
        invariant
            i <= rows@.len(),
            count <= i,
            book.wf(),
            book@ == book_of(rows_contacts(rows@.take(i as int))),
            count == rows_contacts(rows@.take(i as int)).len(),
        decreases rows@.len() - i,
    {
        let ghost seen = rows_contacts(rows@.take(i as int));
        proof {
            assert(rows@.take(i + 1).drop_last() =~= rows@.take(i as int));
            assert(rows@.take(i + 1).last() == rows@[i as int]);
        }
        if let Some(contact) = contact_of_row(&rows[i]) {
            let ghost view = contact@;
            let username = contact.username.clone();
            book.insert(username, contact);
            count = count + 1;
            proof {
                assert(seen.push(view).drop_last() =~= seen);
            }
        }
        i = i + 1;
    }
    proof {
        assert(rows@.take(rows@.len() as int) =~= rows@);
    }
    (book, count)
}

/// Adds the chat rooms that the book lacks.
pub fn add_rooms(book: &mut TextMap<ContactInfo>, rows: &Vec<RoomRow>)
    requires
        old(book).wf(),
    ensures
        final(book).wf(),
        final(book)@ == with_rooms(old(book)@, rows@),
{
    let ghost start = book@;
    let mut i: usize = 0;
    while i < rows.len()
        invariant
            i <= rows@.len(),
            book.wf(),
            book@ == with_rooms(start, rows@.take(i as int)),
        decreases rows@.len() - i,
    {
        proof {
            assert(rows@.take(i + 1).drop_last() =~= rows@.take(i as int));
            assert(rows@.take(i + 1).last() == rows@[i as int]);
        }
        let username = wcdb_get_text(&rows[i].username);
        let nick_name = wcdb_get_text(&rows[i].nick_name);
        if !username.as_str().is_empty() && !nick_name.as_str().is_empty() && book.get(
            username.as_str(),
        ).is_none() {
            let contact = ContactInfo {
                username: username.clone(),
                nick_name: nick_name.clone(),
                remark: String::new(),
                alias: String::new(),
                display_name: nick_name,
            };
            proof {
                assert(contact.remark@ =~= Seq::<char>::empty());
                assert(contact.alias@ =~= Seq::<char>::empty());
            }
            book.insert(username, contact);
        }
        i = i + 1;
    }
    proof {
        assert(rows@.take(rows@.len() as int) =~= rows@);
    }
}

// ---------------------------------------------------------------------------
// Names
// ---------------------------------------------------------------------------

/// The name to show for a user name: the contact's, or the user name itself.
pub open spec fn name_in(book: BookView, username: Seq<char>) -> Seq<char> {
    match crate::textmap::value_of(book, username) {
        Some(contact) => contact.display_name,
        None => username,
    }
}

/// The name to show for a user name: the contact's, or the user name itself.
pub fn resolve_name(book: &TextMap<ContactInfo>, username: &str) -> (name: String)
    requires
        book.wf(),
    ensures
        name@ == name_in(book@, username@),
{
    match book.get(username) {
        Some(contact) => contact.display_name.clone(),
        None => username.to_owned(),
    }
}

/// Whether a contact goes by that name. A name that a contact lacks is no name.
pub open spec fn goes_by(contact: ContactView, name: Seq<char>) -> bool {
    name.len() > 0 && (contact.display_name == name || contact.remark == name
        || contact.nick_name == name || contact.alias == name)
}

/// The first contact that goes by a name.
pub open spec fn first_called(book: BookView, name: Seq<char>) -> Option<ContactView>
    decreases book.len(),
{
    if book.len() == 0 {
        None
    } else if goes_by(book[0].1, name) {
        Some(book[0].1)
    } else {
        first_called(book.skip(1), name)
    }
}

/// The user name that `value` means: itself where it is one, else that of the first
/// contact that goes by it, else `value` unchanged.
pub open spec fn identifier_in(book: BookView, value: Seq<char>) -> Seq<char> {
    if crate::textmap::value_of(book, value) is Some {
        value
    } else {
        match first_called(book, value) {
            Some(contact) => contact.username,
            None => value,
        }
    }
}

/// The user name that `value` means.
pub fn resolve_identifier(book: &TextMap<ContactInfo>, value: &str) -> (username: String)
    requires
        book.wf(),
    ensures
        username@ == identifier_in(book@, value@),
{
    if book.get(value).is_some() {
        return value.to_owned();
    }
    let mut i: usize = 0;
    proof {
        assert(book@.skip(0) =~= book@);
    }
    while i < book.len()
        invariant
            i <= book@.len(),
            book.wf(),
            crate::textmap::value_of(book@, value@) is None,
            first_called(book@, value@) == first_called(book@.skip(i as int), value@),
        decreases book@.len() - i,
    {
        proof {
            assert(book@.skip(i as int)[0] == book@[i as int]);
            assert(book@.skip(i as int).skip(1) =~= book@.skip(i + 1));
        }
        let contact = book.value_at(i);
        if !value.is_empty() && (text_eq(contact.display_name.as_str(), value) || text_eq(
            contact.remark.as_str(),
            value,
        ) || text_eq(contact.nick_name.as_str(), value) || text_eq(contact.alias.as_str(), value)) {
            return contact.username.clone();
        }
        i = i + 1;
    }
    value.to_owned()
}

// ---------------------------------------------------------------------------
// Laws of the contact book
// ---------------------------------------------------------------------------

/// Every contact stands under its own user name.
pub open spec fn filed_by_username(book: BookView) -> bool {
    forall|i: int| 0 <= i < book.len() ==> (#[trigger] book[i]).0 == book[i].1.username
}

/// In a book built from rows every contact stands under its own user name, and no user
/// name stands twice.
pub proof fn book_is_filed(contacts: Seq<ContactView>)
    ensures
        filed_by_username(book_of(contacts)),
        crate::textmap::keys_distinct(book_of(contacts)),
    decreases contacts.len(),
{
    if contacts.len() > 0 {
        let rest = contacts.drop_last();
        let last = contacts.last();
        book_is_filed(rest);
        crate::textmap::lemma_position(book_of(rest), last.username);
        crate::textmap::put_then_get(book_of(rest), last.username, last, last.username);
    }
}

/// Adding chat rooms changes no contact that was there, and keeps the book filed.
pub proof fn rooms_only_add(book: BookView, rows: Seq<RoomRow>, username: Seq<char>)
    requires
        filed_by_username(book),
    ensures
        filed_by_username(with_rooms(book, rows)),
        crate::textmap::value_of(book, username) is Some ==> crate::textmap::value_of(
            with_rooms(book, rows),
            username,
        ) == crate::textmap::value_of(book, username),
    decreases rows.len(),
{
    if rows.len() > 0 {
        let before = with_rooms(book, rows.drop_last());
        rooms_only_add(book, rows.drop_last(), username);
        let room = crate::cell::stored_text(rows.last().username@);
        let nick = crate::cell::stored_text(rows.last().nick_name@);
        crate::textmap::lemma_position(before, room);
        crate::textmap::put_then_get(before, room, room_contact(room, nick), username);
    }
}

/// The later of two contacts with one user name is the one in the book.
pub proof fn last_contact_wins(contacts: Seq<ContactView>, contact: ContactView)
    ensures
        crate::textmap::value_of(book_of(contacts.push(contact)), contact.username) == Some(contact),
{
    assert(contacts.push(contact).drop_last() =~= contacts);
    crate::textmap::put_then_get(book_of(contacts), contact.username, contact, contact.username);
}

/// A user name stands for itself, so that resolving an identifier twice changes nothing
/// more.
pub proof fn identifier_is_stable(book: BookView, value: Seq<char>)
    requires
        filed_by_username(book),
    ensures
        identifier_in(book, identifier_in(book, value)) == identifier_in(book, value),
{
    if crate::textmap::value_of(book, value) is None && first_called(book, value) is Some {
        let contact = first_called(book, value)->0;
        lemma_first_called_is_filed(book, value);
        let i = choose|i: int| 0 <= i < book.len() && (#[trigger] book[i]).0 == contact.username;
        crate::textmap::lemma_position(book, contact.username);
        assert(book[i].0 == contact.username);
    }
}

proof fn lemma_first_called_is_filed(book: BookView, value: Seq<char>)
    requires
        filed_by_username(book),
        first_called(book, value) is Some,
    ensures
        exists|i: int|
            0 <= i < book.len() && (#[trigger] book[i]).0 == first_called(book, value)->0.username,
        goes_by(first_called(book, value)->0, value),
    decreases book.len(),
{
    if goes_by(book[0].1, value) {
        assert(book[0].0 == book[0].1.username);
    } else {
        let rest = book.skip(1);
        assert forall|i: int| 0 <= i < rest.len() implies (#[trigger] rest[i]).0
            == rest[i].1.username by {
            assert(rest[i] == book[i + 1]);
        }
        lemma_first_called_is_filed(rest, value);
        let i = choose|i: int|
            0 <= i < rest.len() && (#[trigger] rest[i]).0 == first_called(
                rest,
                value,
            )->0.username;
        assert(book[i + 1] == rest[i]);
    }
}

/// A name that only one contact goes by means that contact, wherever it stands in the book.
pub proof fn unambiguous_names_are_found(book: BookView, name: Seq<char>, at: int)
    requires
        0 <= at < book.len(),
        goes_by(book[at].1, name),
        forall|i: int| 0 <= i < book.len() && goes_by((#[trigger] book[i]).1, name) ==> i == at,
        crate::textmap::value_of(book, name) is None,
    ensures
        identifier_in(book, name) == book[at].1.username,
{
    lemma_first_called(book, name, at);
}

proof fn lemma_first_called(book: BookView, name: Seq<char>, at: int)
    requires
        0 <= at < book.len(),
        goes_by(book[at].1, name),
        forall|i: int| 0 <= i < at ==> !goes_by((#[trigger] book[i]).1, name),
    ensures
        first_called(book, name) == Some(book[at].1),
    decreases at,
{
    if at > 0 {
        let rest = book.skip(1);
        assert(!goes_by(book[0].1, name));
        assert forall|i: int| 0 <= i < at - 1 implies !goes_by((#[trigger] rest[i]).1, name) by {
            assert(rest[i] == book[i + 1]);
        }
        lemma_first_called(rest, name, at - 1);
    }
}

// ---------------------------------------------------------------------------
// Sessions
// ---------------------------------------------------------------------------

/// A session, from the session table.
#[derive(Debug)]
pub struct DbSessionInfo {
    pub username: String,
    pub display_name: String,
    pub unread_count: i32,
    pub summary: String,
    pub last_timestamp: i64,
    pub last_msg_sender: String,
}

/// What a [`DbSessionInfo`] says.
pub struct SessionView {
    pub username: Seq<char>,
    pub display_name: Seq<char>,
    pub unread_count: i32,
    pub summary: Seq<char>,
    pub last_timestamp: i64,
    pub last_msg_sender: Seq<char>,
}

impl View for DbSessionInfo {
    type V = SessionView;

    open spec fn view(&self) -> SessionView {
        SessionView {
            username: self.username@,
            display_name: self.display_name@,
            unread_count: self.unread_count,
            summary: self.summary@,
            last_timestamp: self.last_timestamp,
            last_msg_sender: self.last_msg_sender@,
        }
    }
}

pub open spec fn sessions_view(sessions: Seq<DbSessionInfo>) -> Seq<SessionView> {
    sessions.map_values(|s: DbSessionInfo| s@)
}

/// A row of the session table.
#[derive(Debug)]
pub struct SessionRow {
    pub username: Cell,
    pub unread_count: Cell,
    pub summary: Cell,
    pub last_timestamp: Cell,
    pub last_msg_sender: Cell,
}

/// The session in a row. A row is left out where its user name is null, where a cell has
/// another type than its column, or where the count of unread messages does not fit.
pub open spec fn row_session(book: BookView, row: SessionRow) -> Option<SessionView> {
    let username = crate::cell::plain_text(row.username@);
    let unread = crate::cell::integer_or_zero(row.unread_count@);
    let summary = crate::cell::plain_text(row.summary@);
    let timestamp = crate::cell::integer_or_zero(row.last_timestamp@);
    let sender = crate::cell::plain_text(row.last_msg_sender@);
    if username is Some && row.username@ !is Null && unread is Some && i32::MIN <= unread->0
        <= i32::MAX && summary is Some && timestamp is Some && sender is Some {
        Some(
            SessionView {
                username: username->0,
                display_name: name_in(book, username->0),
                unread_count: unread->0 as i32,
                summary: summary->0,
                last_timestamp: timestamp->0,
                last_msg_sender: sender->0,
            },
        )
    } else {
        None
    }
}

/// The sessions in the rows, in order.
pub open spec fn rows_sessions(book: BookView, rows: Seq<SessionRow>) -> Seq<SessionView>
    decreases rows.len(),
{
    if rows.len() == 0 {
        seq![]
    } else {
        let before = rows_sessions(book, rows.drop_last());
        match row_session(book, rows.last()) {
            Some(session) => before.push(session),
            None => before,
        }
    }
}

/// The session in a row.
pub fn session_of_row(book: &TextMap<ContactInfo>, row: &SessionRow) -> (session: Option<
    DbSessionInfo,
>)
    requires
        book.wf(),
    ensures
        match session {
            Some(s) => row_session(book@, *row) == Some(s@),
            None => row_session(book@, *row) is None,
        },
{
    if let Cell::Null = &row.username {
        return None;
    }
    match (
        read_text(&row.username),
        read_integer(&row.unread_count),
        read_text(&row.summary),
        read_integer(&row.last_timestamp),
        read_text(&row.last_msg_sender),
    ) {
        (
            Some(username),
            Some(unread),
            Some(summary),
            Some(last_timestamp),
            Some(last_msg_sender),
        ) => {
            if unread < i32::MIN as i64 || unread > i32::MAX as i64 {
                return None;
            }
            let display_name = resolve_name(book, username.as_str());
            Some(
                DbSessionInfo {
                    username,
                    display_name,
                    unread_count: unread as i32,
                    summary,
                    last_timestamp,
                    last_msg_sender,
                },
            )
        },
        _ => None,
    }
}

/// The sessions in the rows, in order.
pub fn list_sessions(book: &TextMap<ContactInfo>, rows: &Vec<SessionRow>) -> (sessions: Vec<
    DbSessionInfo,
>)
    requires
        book.wf(),
    ensures
        sessions_view(sessions@) == rows_sessions(book@, rows@),
{
    let mut sessions: Vec<DbSessionInfo> = Vec::new();
    let mut i: usize = 0;
    while i < rows.len()
        invariant
            i <= rows@.len(),
            book.wf(),
            sessions_view(sessions@) =~= rows_sessions(book@, rows@.take(i as int)),
        decreases rows@.len() - i,
    {
        let ghost seen = sessions_view(sessions@);
        proof {
            assert(rows@.take(i + 1).drop_last() =~= rows@.take(i as int));
            assert(rows@.take(i + 1).last() == rows@[i as int]);
        }
        if let Some(session) = session_of_row(book, &rows[i]) {
            let ghost view = session@;
            sessions.push(session);
            proof {
                assert(sessions_view(sessions@) =~= seen.push(view));
            }
        }
        i = i + 1;
    }
    proof {
        assert(rows@.take(rows@.len() as int) =~= rows@);
    }
    sessions
}

// ---------------------------------------------------------------------------
// What the tables say
// ---------------------------------------------------------------------------

/// A contact made of a row carries each column's own text, and is shown by its remark, by
/// its nickname where it has no remark, and by its user name where it has neither. A row
/// without a user name is no contact.
pub proof fn contacts_keep_their_columns(
    row: ContactRow,
    username: Seq<char>,
    nick_name: Seq<char>,
    remark: Seq<char>,
    alias: Seq<char>,
)
    requires
        row.username@ == crate::cell::CellView::Text(vstd::utf8::encode_utf8(username)),
        row.nick_name@ == crate::cell::CellView::Text(vstd::utf8::encode_utf8(nick_name)),
        row.remark@ == crate::cell::CellView::Text(vstd::utf8::encode_utf8(remark)),
        row.alias@ == crate::cell::CellView::Text(vstd::utf8::encode_utf8(alias)),
    ensures
        row_contact(row) is Some <==> username.len() > 0,
        username.len() > 0 ==> {
            let contact = row_contact(row)->0;
            &&& contact.username == username
            &&& contact.nick_name == nick_name
            &&& contact.remark == remark
            &&& contact.alias == alias
            &&& remark.len() > 0 ==> contact.display_name == remark
            &&& remark.len() == 0 && nick_name.len() > 0 ==> contact.display_name == nick_name
            &&& remark.len() == 0 && nick_name.len() == 0 ==> contact.display_name == username
        },
{
    crate::cell::texts_are_stored_as_they_are(username);
    crate::cell::texts_are_stored_as_they_are(nick_name);
    crate::cell::texts_are_stored_as_they_are(remark);
    crate::cell::texts_are_stored_as_they_are(alias);
}

/// No column of a contact speaks for another, compressed or not, and the name that is shown
/// is never empty.
pub proof fn contact_columns_do_not_interfere(row: ContactRow, other: ContactRow)
    requires
        row_contact(row) is Some,
        row_contact(other) is Some,
    ensures
        ({
            let a = row_contact(row)->0;
            let b = row_contact(other)->0;
            &&& row.username@ == other.username@ ==> a.username == b.username
            &&& row.nick_name@ == other.nick_name@ ==> a.nick_name == b.nick_name
            &&& row.remark@ == other.remark@ ==> a.remark == b.remark
            &&& row.alias@ == other.alias@ ==> a.alias == b.alias
            &&& a.display_name.len() > 0
            &&& a.display_name == a.remark || a.display_name == a.nick_name || a.display_name
                == a.username
        }),
{
}

/// Each row gives its contact, in the order of the rows, and none gives more than one.
pub proof fn contact_rows_are_read_one_by_one(rows: Seq<ContactRow>, more: Seq<ContactRow>)
    ensures
        rows_contacts(rows + more) == rows_contacts(rows) + rows_contacts(more),
        rows.len() == 1 && row_contact(rows[0]) is Some ==> rows_contacts(rows) == seq![
            row_contact(rows[0])->0,
        ],
        rows.len() == 1 && row_contact(rows[0]) is None ==> rows_contacts(rows).len() == 0,
    decreases more.len(),
{
    reveal_with_fuel(rows_contacts, 2);
    if more.len() == 0 {
        assert(rows + more =~= rows);
        assert(rows_contacts(rows) + rows_contacts(more) =~= rows_contacts(rows));
    } else {
        contact_rows_are_read_one_by_one(rows, more.drop_last());
        assert((rows + more).drop_last() =~= rows + more.drop_last());
        assert((rows + more).last() == more.last());
        assert(rows_contacts(rows + more) =~= rows_contacts(rows) + rows_contacts(more));
    }
    if rows.len() == 1 {
        assert(rows.drop_last() =~= Seq::<ContactRow>::empty());
        assert(rows_contacts(rows.drop_last()) =~= Seq::<ContactView>::empty());
        if row_contact(rows[0]) is Some {
            assert(rows_contacts(rows) =~= seq![row_contact(rows[0])->0]);
        }
    }
}

/// One more contact changes what is known under its own user name and under no other.
pub proof fn contacts_are_filed_one_by_one(
    contacts: Seq<ContactView>,
    contact: ContactView,
    other: Seq<char>,
)
    requires
        other != contact.username,
    ensures
        crate::textmap::value_of(book_of(contacts.push(contact)), contact.username) == Some(
            contact,
        ),
        crate::textmap::value_of(book_of(contacts.push(contact)), other)
            == crate::textmap::value_of(book_of(contacts), other),
        crate::textmap::value_of(book_of(seq![]), other) is None,
{
    assert(contacts.push(contact).drop_last() =~= contacts);
    crate::textmap::put_then_get(book_of(contacts), contact.username, contact, contact.username);
    crate::textmap::put_then_get(book_of(contacts), contact.username, contact, other);
}

/// A chat room that the contacts do not know is known by its nickname afterwards; one that
/// they know, or that lacks a name, changes nothing, and no other contact is affected.
pub proof fn rooms_are_known_by_their_nicknames(
    book: BookView,
    row: RoomRow,
    username: Seq<char>,
    nick_name: Seq<char>,
    other: Seq<char>,
)
    requires
        row.username@ == crate::cell::CellView::Text(vstd::utf8::encode_utf8(username)),
        row.nick_name@ == crate::cell::CellView::Text(vstd::utf8::encode_utf8(nick_name)),
        other != username,
    ensures
        ({
            let after = with_room(book, row);
            let known = crate::textmap::value_of(book, username) is Some;
            &&& known || username.len() == 0 || nick_name.len() == 0 ==> after == book
            &&& !known && username.len() > 0 && nick_name.len() > 0 ==> {
                &&& name_in(after, username) == nick_name
                &&& crate::textmap::value_of(after, username) is Some
                &&& crate::textmap::value_of(after, username)->0.username == username
                &&& crate::textmap::value_of(after, username)->0.nick_name == nick_name
                &&& crate::textmap::value_of(after, username)->0.remark.len() == 0
                &&& crate::textmap::value_of(after, username)->0.alias.len() == 0
            }
            &&& name_in(after, other) == name_in(book, other)
        }),
{
    crate::cell::texts_are_stored_as_they_are(username);
    crate::cell::texts_are_stored_as_they_are(nick_name);
    let contact = room_contact(username, nick_name);
    crate::textmap::put_then_get(book, username, contact, username);
    crate::textmap::put_then_get(book, username, contact, other);
}

/// The name that is shown for a user name is that of its contact, and the user name itself
/// where there is none.
pub proof fn names_are_shown_from_the_book(book: BookView, i: int, unknown: Seq<char>)
    requires
        0 <= i < book.len(),
        crate::textmap::keys_distinct(book),
        forall|k: int| 0 <= k < book.len() ==> (#[trigger] book[k]).0 != unknown,
    ensures
        name_in(book, book[i].0) == book[i].1.display_name,
        name_in(book, unknown) == unknown,
{
    assert forall|k: int| 0 <= k < i implies (#[trigger] book[k]).0 != book[i].0 by {}
    crate::textmap::lemma_position_is(book, book[i].0, i);
    crate::textmap::lemma_position_is(book, unknown, book.len() as int);
}

/// Whether a contact has a name as the one that is shown, as its remark, its nickname or its
/// alias.
pub open spec fn is_called(contact: ContactView, name: Seq<char>) -> bool {
    ||| contact.display_name == name
    ||| contact.remark == name
    ||| contact.nick_name == name
    ||| contact.alias == name
}

/// What a client calls somebody: a user name means itself; any other name means the first
/// contact that has it as the name that is shown, as its remark, its nickname or its alias;
/// a name that nobody has stays as it is, and so does no name.
pub proof fn names_mean_the_first_who_has_them(book: BookView, name: Seq<char>, i: int)
    requires
        0 <= i < book.len(),
    ensures
        ({
            &&& name == book[i].0 ==> identifier_in(book, name) == name
            &&& name.len() == 0 ==> identifier_in(book, name) == name
            &&& (forall|k: int| 0 <= k < book.len() ==> (#[trigger] book[k]).0 != name) && (
            forall|k: int| 0 <= k < i ==> !is_called((#[trigger] book[k]).1, name))
            && is_called(book[i].1, name) && name.len() > 0
                ==> identifier_in(book, name) == book[i].1.username
            &&& (forall|k: int| 0 <= k < book.len() ==> (#[trigger] book[k]).0 != name) && (
            forall|k: int| 0 <= k < book.len() ==> !is_called((#[trigger] book[k]).1, name))
            ==> identifier_in(book, name)
                == name
        }),
{
    crate::textmap::lemma_position(book, name);
    if name.len() == 0 {
        lemma_nobody_called(book, name);
    }
    if forall|k: int| 0 <= k < book.len() ==> (#[trigger] book[k]).0 != name {
        if (forall|k: int| 0 <= k < i ==> !is_called((#[trigger] book[k]).1, name))
            && is_called(book[i].1, name) && name.len() > 0 {
            assert forall|k: int| 0 <= k < i implies !goes_by((#[trigger] book[k]).1, name) by {
                assert(!is_called(book[k].1, name));
            }
            lemma_first_called(book, name, i);
        }
        if forall|k: int| 0 <= k < book.len() ==> !is_called((#[trigger] book[k]).1, name) {
            assert forall|k: int| 0 <= k < book.len() implies !goes_by(
                (#[trigger] book[k]).1,
                name,
            ) by {
                assert(!is_called(book[k].1, name));
            }
            lemma_nobody_called(book, name);
        }
    }
}

proof fn lemma_nobody_called(book: BookView, name: Seq<char>)
    requires
        forall|k: int| 0 <= k < book.len() ==> !goes_by((#[trigger] book[k]).1, name),
    ensures
        first_called(book, name) is None,
    decreases book.len(),
{
    if book.len() > 0 {
        let rest = book.skip(1);
        assert(!goes_by(book[0].1, name));
        assert forall|k: int| 0 <= k < rest.len() implies !goes_by(
            (#[trigger] rest[k]).1,
            name,
        ) by {
            assert(rest[k] == book[k + 1]);
        }
        lemma_nobody_called(rest, name);
    }
}

/// A session made of a row carries each column's own value, and is shown by the name of its
/// contact. It is left out where the count of unread messages does not fit.
pub proof fn sessions_keep_their_columns(
    book: BookView,
    row: SessionRow,
    username: Seq<char>,
    unread: i64,
    summary: Seq<char>,
    last_timestamp: i64,
    sender: Seq<char>,
)
    requires
        row.username@ == crate::cell::CellView::Text(vstd::utf8::encode_utf8(username)),
        row.unread_count@ == crate::cell::CellView::Integer(unread),
        row.summary@ == crate::cell::CellView::Text(vstd::utf8::encode_utf8(summary)),
        row.last_timestamp@ == crate::cell::CellView::Integer(last_timestamp),
        row.last_msg_sender@ == crate::cell::CellView::Text(vstd::utf8::encode_utf8(sender)),
    ensures
        row_session(book, row) is Some <==> -0x8000_0000 <= unread <= 0x7fff_ffff,
        row_session(book, row) is Some ==> {
            let session = row_session(book, row)->0;
            &&& session.username == username
            &&& session.display_name == name_in(book, username)
            &&& session.unread_count == unread
            &&& session.summary == summary
            &&& session.last_timestamp == last_timestamp
            &&& session.last_msg_sender == sender
        },
{
    crate::cell::texts_are_stored_as_they_are(username);
    crate::cell::texts_are_stored_as_they_are(summary);
    crate::cell::texts_are_stored_as_they_are(sender);
}

/// A session without a user name is left out; a summary, a sender, a count or a time that
/// is missing is empty or zero.
pub proof fn sessions_without_a_name_are_left_out(book: BookView, row: SessionRow)
    ensures
        row.username@ is Null || row.username@ is Integer || row.username@ is Blob ==> row_session(
            book,
            row,
        ) is None,
        row_session(book, row) is Some ==> {
            let session = row_session(book, row)->0;
            &&& row.summary@ is Null ==> session.summary.len() == 0
            &&& row.last_msg_sender@ is Null ==> session.last_msg_sender.len() == 0
            &&& row.unread_count@ is Null ==> session.unread_count == 0
            &&& row.last_timestamp@ is Null ==> session.last_timestamp == 0
        },
{
}

/// Each row gives its session, in the order of the rows, and none gives more than one.
pub proof fn session_rows_are_read_one_by_one(
    book: BookView,
    rows: Seq<SessionRow>,
    more: Seq<SessionRow>,
)
    ensures
        rows_sessions(book, rows + more) == rows_sessions(book, rows) + rows_sessions(book, more),
        rows.len() == 1 && row_session(book, rows[0]) is Some ==> rows_sessions(book, rows)
            == seq![row_session(book, rows[0])->0],
        rows.len() == 1 && row_session(book, rows[0]) is None ==> rows_sessions(book, rows).len()
            == 0,
    decreases more.len(),
{
    reveal_with_fuel(rows_sessions, 2);
    if more.len() == 0 {
        assert(rows + more =~= rows);
        assert(rows_sessions(book, rows) + rows_sessions(book, more) =~= rows_sessions(book, rows));
    } else {
        session_rows_are_read_one_by_one(book, rows, more.drop_last());
        assert((rows + more).drop_last() =~= rows + more.drop_last());
        assert((rows + more).last() == more.last());
        assert(rows_sessions(book, rows + more) =~= rows_sessions(book, rows) + rows_sessions(
            book,
            more,
        ));
    }
    if rows.len() == 1 {
        assert(rows.drop_last() =~= Seq::<SessionRow>::empty());
        assert(rows_sessions(book, rows.drop_last()) =~= Seq::<SessionView>::empty());
        if row_session(book, rows[0]) is Some {
            assert(rows_sessions(book, rows) =~= seq![row_session(book, rows[0])->0]);
        }
    }
}

} // verus!
