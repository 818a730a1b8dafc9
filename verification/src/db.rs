//! The state of the bridge's database side: the account, its contacts, how far each table
//! has been read, and the table structures that are known.

use vstd::prelude::*;
use vstd::string::*;

use crate::attachment::{
    check_locator, decode_attachment_id, resolve_from_candidates, AttachmentError,
    AttachmentLocator, Candidate, ResolvedAttachment,
};
use crate::contacts::{
    add_rooms, list_sessions, load_contacts, resolve_identifier, resolve_name, ContactInfo,
    ContactRow, DbSessionInfo, RoomRow, SessionRow,
};
use crate::history::history_page;
use crate::keys::{hex_to_bytes, self_wxid, KeyError};
use crate::message::{
    echoes, hydrate_raw_messages, messages_of_rows, DbMessage, MessageRow, RawMsg,
};
use crate::outside::{parse_marks, write_marks};
use crate::tables::{is_message_db, relative_path, table_key, watermark_key, TableMeta};
use crate::text::{list_contains, text_eq};
use crate::textmap::TextMap;

verus! {

/// Why the database side cannot start.
#[derive(Debug)]
pub enum DbError {
    /// The key is not written properly.
    KeyFormat(KeyError),
    /// The key has another length than a raw or a derived key.
    KeyLength(usize),
}

impl DbError {
    /// The words of the error.
    pub fn message(&self) -> (text: String)
        ensures
            text@ == match self {
                DbError::KeyFormat(_) => "密钥 hex 格式错误"@,
                DbError::KeyLength(n) => "密钥长度必须为 32 或 48 字节, 实际: "@
                    + crate::number::digits(*n as nat),
            },
    {
        match self {
            DbError::KeyFormat(_) => "密钥 hex 格式错误".to_owned(),
            DbError::KeyLength(n) => {
                let mut text = "密钥长度必须为 32 或 48 字节, 实际: ".to_owned();
                crate::number::push_u64(&mut text, *n as u64);
                text
            },
        }
    }
}

/// How far each table has been read: the greatest row number, by the table's key.
pub type Watermarks = Seq<(Seq<char>, i64)>;

/// The state of the database side.
pub struct DbManager {
    key_hex: String,
    key_bytes: Vec<u8>,
    self_wxid: String,
    self_display_name: String,
    contacts: TextMap<ContactInfo>,
    watermarks: TextMap<i64>,
    tables: TextMap<TableMeta>,
}

/// What a [`DbManager`] holds.
pub struct DbView {
    pub key_hex: Seq<char>,
    pub key_bytes: Seq<u8>,
    pub self_wxid: Seq<char>,
    pub self_display_name: Seq<char>,
    pub contacts: crate::contacts::BookView,
    pub watermarks: Watermarks,
    pub tables: Seq<(Seq<char>, crate::tables::MetaView)>,
}

impl View for DbManager {
    type V = DbView;

    closed spec fn view(&self) -> DbView {
        DbView {
            key_hex: self.key_hex@,
            key_bytes: self.key_bytes@,
            self_wxid: self.self_wxid@,
            self_display_name: self.self_display_name@,
            contacts: self.contacts@,
            watermarks: self.watermarks@,
            tables: self.tables@,
        }
    }
}

/// How far a table has been read.
pub open spec fn mark_of(marks: Watermarks, key: Seq<char>) -> i64 {
    match crate::textmap::value_of(marks, key) {
        Some(id) => id,
        None => 0i64,
    }
}

/// The marks as they are listed; of two for one table the later counts.
pub open spec fn marks_listed(list: Seq<(String, i64)>) -> Watermarks
    decreases list.len(),
{
    if list.len() == 0 {
        seq![]
    } else {
        crate::textmap::with_value(marks_listed(list.drop_last()), list.last().0@, list.last().1)
    }
}

/// The marks that the content of the saved file stands for; none where there is no file or
/// it cannot be read.
pub open spec fn loaded_marks(content: Option<Seq<char>>) -> Map<Seq<char>, i64> {
    match content {
        Some(text) => match crate::outside::marks_in(text) {
            Some(map) => map,
            None => Map::empty(),
        },
        None => Map::empty(),
    }
}

/// The marks in the content of the saved file.
pub fn load_watermarks(content: Option<&str>) -> (marks: Vec<(String, i64)>)
    ensures
        crate::outside::listed_map(marks@) == loaded_marks(crate::store::slice_view(content)),
{
    if let Some(text) = content {
        if let Some(marks) = parse_marks(text) {
            return marks;
        }
    }
    Vec::new()
}

/// The content of the file in which marks are saved. What is written is read back.
pub fn watermarks_text(marks: &Vec<(String, i64)>) -> (text: String)
    ensures
        crate::outside::marks_in(text@) == Some(crate::outside::listed_map(marks@)),
{
    match write_marks(marks) {
        Some(text) => text.concat("\n"),
        None => String::new(),
    }
}

proof fn lemma_marks_are_listed(list: Seq<(String, i64)>, key: Seq<char>)
    ensures
        crate::textmap::value_of(marks_listed(list), key) == if crate::outside::listed_map(
            list,
        ).contains_key(key) {
            Some(crate::outside::listed_map(list)[key])
        } else {
            None
        },
    decreases list.len(),
{
    if list.len() > 0 {
        let rest = list.drop_last();
        lemma_marks_are_listed(rest, key);
        crate::textmap::put_then_get(marks_listed(rest), list.last().0@, list.last().1, key);
    }
}

/// Marks that were saved are loaded again: whatever list comes out of the file that was
/// written for `saved`, every table has the mark that it had.
pub proof fn saved_marks_are_loaded(
    saved: Seq<(String, i64)>,
    text: Seq<char>,
    loaded: Seq<(String, i64)>,
    key: Seq<char>,
)
    requires
        crate::outside::marks_in(text) == Some(crate::outside::listed_map(saved)),
        crate::outside::listed_map(loaded) == loaded_marks(Some(text)),
    ensures
        crate::textmap::value_of(marks_listed(loaded), key) == crate::textmap::value_of(
            marks_listed(saved),
            key,
        ),
        mark_of(marks_listed(loaded), key) == mark_of(marks_listed(saved), key),
{
    lemma_marks_are_listed(saved, key);
    lemma_marks_are_listed(loaded, key);
}

fn marks_from(list: &Vec<(String, i64)>) -> (marks: TextMap<i64>)
    ensures
        marks.wf(),
        marks@ == marks_listed(list@),
{
    let mut marks: TextMap<i64> = TextMap::new();
    let mut i: usize = 0;
    while i < list.len()
        invariant
            i <= list@.len(),
            marks.wf(),
            marks@ == marks_listed(list@.take(i as int)),
        decreases list@.len() - i,
    {
        proof {
            assert(list@.take(i + 1).drop_last() =~= list@.take(i as int));
            assert(list@.take(i + 1).last() == list@[i as int]);
        }
        marks.insert(list[i].0.clone(), list[i].1);
        i = i + 1;
    }
    proof {
        assert(list@.take(list@.len() as int) =~= list@);
    }
    marks
}

fn copy_marks(marks: &TextMap<i64>) -> (copy: TextMap<i64>)
    requires
        marks.wf(),
    ensures
        copy.wf(),
        copy@ == marks@,
{
    let mut copy: TextMap<i64> = TextMap::new();
    let mut i: usize = 0;
    while i < marks.len()
        invariant
            i <= marks@.len(),
            marks.wf(),
            copy.wf(),
            copy@ =~= marks@.take(i as int),
        decreases marks@.len() - i,
    {
        proof {
            marks.lemma_distinct();
            let part = marks@.take(i as int);
            let key = marks@[i as int].0;
            assert forall|k: int| 0 <= k < part.len() implies (#[trigger] part[k]).0 != key by {
                assert(marks@[k].0 != marks@[i as int].0);
            }
            crate::textmap::lemma_position_is(part, key, part.len() as int);
            assert(marks@.take(i + 1) =~= part.push(marks@[i as int]));
        }
        copy.insert(marks.key_at(i).clone(), *marks.value_at(i));
        i = i + 1;
    }
    proof {
        assert(marks@.take(marks@.len() as int) =~= marks@);
    }
    copy
}

// ---------------------------------------------------------------------------
// Reading new messages
// ---------------------------------------------------------------------------

/// The greatest number among the messages, and `last` at least.
pub open spec fn greatest_id(last: i64, messages: Seq<crate::message::RawView>) -> i64
    decreases messages.len(),
{
    if messages.len() == 0 {
        last
    } else {
        let before = greatest_id(last, messages.drop_last());
        if messages.last().local_id > before {
            messages.last().local_id
        } else {
            before
        }
    }
}

/// One pass over the message tables: what was found, and how far each table is read then.
pub struct MessageScan {
    watermarks: TextMap<i64>,
    raws: Vec<RawMsg>,
}

/// What a [`MessageScan`] holds.
pub struct ScanView {
    pub watermarks: Watermarks,
    pub raws: Seq<crate::message::RawView>,
}

impl View for MessageScan {
    type V = ScanView;

    closed spec fn view(&self) -> ScanView {
        ScanView {
            watermarks: self.watermarks@,
            raws: crate::message::raws_view(self.raws@),
        }
    }
}

/// The scan after the rows of one more table. A table without new messages changes
/// nothing.
pub open spec fn scanned(
    scan: ScanView,
    key: Seq<char>,
    messages: Seq<crate::message::RawView>,
) -> ScanView {
    if messages.len() == 0 {
        scan
    } else {
        ScanView {
            watermarks: crate::textmap::with_value(
                scan.watermarks,
                key,
                greatest_id(mark_of(scan.watermarks, key), messages),
            ),
            raws: scan.raws + messages,
        }
    }
}

impl MessageScan {
    pub closed spec fn wf(&self) -> bool {
        self.watermarks.wf()
    }

    /// The number behind which the rows of a table are new.
    pub fn last_id(&self, db_name: &str, table: &str) -> (id: i64)
        requires
            self.wf(),
        ensures
            id == mark_of(
                self@.watermarks,
                crate::tables::watermark_key_of(db_name@, table@),
            ),
    {
        match self.watermarks.get(watermark_key(db_name, table).as_str()) {
            Some(id) => *id,
            None => 0,
        }
    }

    /// Takes in the rows of a table that are new.
    pub fn add_table(&mut self, db_name: &str, table: &str, chat: &str, rows: &Vec<MessageRow>)
        requires
            old(self).wf(),
        ensures
            final(self).wf(),
            final(self)@ == scanned(
                old(self)@,
                crate::tables::watermark_key_of(db_name@, table@),
                crate::message::rows_messages(rows@, chat@, false),
            ),
    {
        let ghost start = self@;
        let ghost key = crate::tables::watermark_key_of(db_name@, table@);
        let mut found = messages_of_rows(rows, chat, false);
        let ghost messages = crate::message::raws_view(found@);
        if found.len() == 0 {
            return ;
        }
        let mut greatest: i64 = self.last_id(db_name, table);
        let ghost last = greatest;
        let mut i: usize = 0;
        while i < found.len()
            invariant
                i <= found@.len(),
                messages == crate::message::raws_view(found@),
                greatest == greatest_id(last, messages.take(i as int)),
            decreases found@.len() - i,
        {
            proof {
                assert(messages.take(i + 1).drop_last() =~= messages.take(i as int));
                assert(messages.take(i + 1).last() == found@[i as int]@);
            }
            if found[i].local_id > greatest {
                greatest = found[i].local_id;
            }
            i = i + 1;
        }
        proof {
            assert(messages.take(messages.len() as int) =~= messages);
        }
        self.watermarks.insert(watermark_key(db_name, table), greatest);
        self.raws.append(&mut found);
        proof {
            assert(crate::message::raws_view(self.raws@) =~= start.raws + messages);
        }
    }
}

proof fn lemma_greatest_id(last: i64, messages: Seq<crate::message::RawView>)
    ensures
        greatest_id(last, messages) >= last,
        forall|k: int|
            0 <= k < messages.len() ==> (#[trigger] messages[k]).local_id <= greatest_id(
                last,
                messages,
            ),
    decreases messages.len(),
{
    if messages.len() > 0 {
        let rest = messages.drop_last();
        lemma_greatest_id(last, rest);
        assert forall|k: int| 0 <= k < messages.len() implies (#[trigger] messages[k]).local_id
            <= greatest_id(last, messages) by {
            if k < rest.len() {
                assert(rest[k] == messages[k]);
            }
        }
    }
}

/// Reading a table moves its mark forward only, past every message that was found, and
/// moves no other mark: no message is read twice, and none is passed over.
pub proof fn marks_only_advance(
    scan: ScanView,
    key: Seq<char>,
    messages: Seq<crate::message::RawView>,
    other: Seq<char>,
)
    ensures
        ({
            let after = scanned(scan, key, messages);
            &&& mark_of(after.watermarks, key) >= mark_of(scan.watermarks, key)
            &&& forall|k: int|
                0 <= k < messages.len() ==> (#[trigger] messages[k]).local_id <= mark_of(
                    after.watermarks,
                    key,
                )
            &&& other != key ==> mark_of(after.watermarks, other) == mark_of(
                scan.watermarks,
                other,
            )
            &&& after.raws == scan.raws + messages
        }),
{
    lemma_greatest_id(mark_of(scan.watermarks, key), messages);
    let greatest = greatest_id(mark_of(scan.watermarks, key), messages);
    crate::textmap::put_then_get(scan.watermarks, key, greatest, key);
    crate::textmap::put_then_get(scan.watermarks, key, greatest, other);
    if messages.len() == 0 {
        assert(scan.raws + messages =~= scan.raws);
    }
}

/// A message table: its key among the marks, and its messages in the order of their
/// numbers.
pub struct TableView {
    pub key: Seq<char>,
    pub rows: Seq<crate::message::RawView>,
}

/// The messages behind a mark, in order.
pub open spec fn behind(rows: Seq<crate::message::RawView>, mark: i64) -> Seq<
    crate::message::RawView,
>
    decreases rows.len(),
{
    if rows.len() == 0 {
        seq![]
    } else {
        let before = behind(rows.drop_last(), mark);
        if rows.last().local_id > mark {
            before.push(rows.last())
        } else {
            before
        }
    }
}

/// The messages of all tables behind their marks, one table after the other.
pub open spec fn new_in(tables: Seq<TableView>, marks: Watermarks) -> Seq<crate::message::RawView>
    decreases tables.len(),
{
    if tables.len() == 0 {
        seq![]
    } else {
        new_in(tables.drop_last(), marks) + behind(
            tables.last().rows,
            mark_of(marks, tables.last().key),
        )
    }
}

/// A pass over tables: of each one what lies behind its mark.
pub open spec fn scan_of(scan: ScanView, tables: Seq<TableView>) -> ScanView
    decreases tables.len(),
{
    if tables.len() == 0 {
        scan
    } else {
        let before = scan_of(scan, tables.drop_last());
        let table = tables.last();
        scanned(before, table.key, behind(table.rows, mark_of(before.watermarks, table.key)))
    }
}

/// A pass that begins at marks.
pub open spec fn pass_of(marks: Watermarks, tables: Seq<TableView>) -> ScanView {
    scan_of(ScanView { watermarks: marks, raws: seq![] }, tables)
}

/// Every table is listed once.
pub open spec fn tables_distinct(tables: Seq<TableView>) -> bool {
    forall|i: int, j: int|
        #![trigger tables[i], tables[j]]
        0 <= i < j < tables.len() ==> tables[i].key != tables[j].key
}

/// The messages stand in the order of their numbers, each number once.
pub open spec fn by_number(rows: Seq<crate::message::RawView>) -> bool {
    forall|i: int, j: int|
        #![trigger rows[i], rows[j]]
        0 <= i < j < rows.len() ==> rows[i].local_id < rows[j].local_id
}

proof fn lemma_behind(rows: Seq<crate::message::RawView>, mark: i64)
    ensures
        greatest_id(mark, behind(rows, mark)) == greatest_id(mark, rows),
        forall|m: crate::message::RawView| #[trigger]
            behind(rows, mark).contains(m) <==> rows.contains(m) && m.local_id > mark,
        by_number(rows) ==> by_number(behind(rows, mark)),
    decreases rows.len(),
{
    if rows.len() > 0 {
        let rest = rows.drop_last();
        let last = rows.last();
        let before = behind(rest, mark);
        let result = behind(rows, mark);
        lemma_behind(rest, mark);
        lemma_greatest_id(mark, rest);
        if last.local_id > mark {
            assert(result.drop_last() =~= before);
        }
        assert forall|m: crate::message::RawView| #[trigger] result.contains(m) <==> rows.contains(m)
            && m.local_id > mark by {
            assert(before.contains(m) <==> rest.contains(m) && m.local_id > mark);
            if result.contains(m) {
                let k = choose|k: int| 0 <= k < result.len() && result[k] == m;
                if k < before.len() {
                    assert(before[k] == m);
                    assert(before.contains(m));
                    let n = choose|n: int| 0 <= n < rest.len() && rest[n] == m;
                    assert(rows[n] == m);
                } else {
                    assert(rows[rows.len() - 1] == m);
                }
            }
            if rows.contains(m) && m.local_id > mark {
                let n = choose|n: int| 0 <= n < rows.len() && rows[n] == m;
                if n < rest.len() {
                    assert(rest[n] == m);
                    assert(before.contains(m));
                    let k = choose|k: int| 0 <= k < before.len() && before[k] == m;
                    assert(result[k] == m);
                } else {
                    assert(result[before.len() as int] == m);
                }
            }
        }
        if by_number(rows) {
            assert forall|i: int, j: int|
                #![trigger rest[i], rest[j]]
                0 <= i < j < rest.len() implies rest[i].local_id < rest[j].local_id by {
                assert(rows[i].local_id < rows[j].local_id);
            }
            assert forall|i: int, j: int|
                #![trigger result[i], result[j]]
                0 <= i < j < result.len() implies result[i].local_id < result[j].local_id by {
                if j < before.len() {
                    assert(before[i].local_id < before[j].local_id);
                } else {
                    assert(before.contains(before[i]));
                    let n = choose|n: int| 0 <= n < rest.len() && rest[n] == before[i];
                    assert(rows[n].local_id < rows[rows.len() - 1].local_id);
                }
            }
        }
    }
}

proof fn lemma_scan_of(scan: ScanView, tables: Seq<TableView>)
    requires
        tables_distinct(tables),
    ensures
        scan_of(scan, tables).raws == scan.raws + new_in(tables, scan.watermarks),
        forall|t: int|
            0 <= t < tables.len() ==> mark_of(
                scan_of(scan, tables).watermarks,
                (#[trigger] tables[t]).key,
            ) == greatest_id(mark_of(scan.watermarks, tables[t].key), tables[t].rows),
        forall|key: Seq<char>|
            (forall|t: int| 0 <= t < tables.len() ==> (#[trigger] tables[t]).key != key)
                ==> #[trigger] mark_of(scan_of(scan, tables).watermarks, key) == mark_of(
                scan.watermarks,
                key,
            ),
        new_in(tables, scan.watermarks).len() == 0 ==> scan_of(scan, tables).watermarks
            == scan.watermarks,
    decreases tables.len(),
{
    let after = scan_of(scan, tables);
    if tables.len() == 0 {
        assert(after.raws =~= scan.raws + new_in(tables, scan.watermarks));
    } else {
        let rest = tables.drop_last();
        let table = tables[tables.len() - 1];
        assert forall|i: int, j: int|
            #![trigger rest[i], rest[j]]
            0 <= i < j < rest.len() implies rest[i].key != rest[j].key by {
            assert(tables[i].key != tables[j].key);
        }
        lemma_scan_of(scan, rest);
        let before = scan_of(scan, rest);
        assert forall|t: int| 0 <= t < rest.len() implies (#[trigger] rest[t]).key != table.key by {
            assert(tables[t].key != tables[tables.len() - 1].key);
        }
        let mark = mark_of(scan.watermarks, table.key);
        assert(mark_of(before.watermarks, table.key) == mark);
        let found = behind(table.rows, mark);
        lemma_behind(table.rows, mark);
        lemma_greatest_id(mark, found);
        let greatest = greatest_id(mark, found);
        crate::textmap::put_then_get(before.watermarks, table.key, greatest, table.key);
        assert(after.raws =~= scan.raws + new_in(tables, scan.watermarks));
        assert forall|t: int| 0 <= t < tables.len() implies mark_of(
            after.watermarks,
            (#[trigger] tables[t]).key,
        ) == greatest_id(mark_of(scan.watermarks, tables[t].key), tables[t].rows) by {
            if t < rest.len() {
                assert(rest[t] == tables[t]);
                crate::textmap::put_then_get(
                    before.watermarks,
                    table.key,
                    greatest,
                    tables[t].key,
                );
            }
        }
        assert forall|key: Seq<char>|
            (forall|t: int| 0 <= t < tables.len() ==> (#[trigger] tables[t]).key
                != key) implies #[trigger] mark_of(after.watermarks, key) == mark_of(
            scan.watermarks,
            key,
        ) by {
            assert forall|t: int| 0 <= t < rest.len() implies (#[trigger] rest[t]).key != key by {
                assert(tables[t].key != key);
            }
            assert(tables[tables.len() - 1].key != key);
            crate::textmap::put_then_get(before.watermarks, table.key, greatest, key);
            assert(mark_of(before.watermarks, key) == mark_of(scan.watermarks, key));
        }
    }
}

proof fn lemma_nothing_new(tables: Seq<TableView>, marks: Watermarks)
    requires
        forall|t: int, k: int|
            #![trigger tables[t].rows[k]]
            0 <= t < tables.len() && 0 <= k < tables[t].rows.len() ==> tables[t].rows[k].local_id
                <= mark_of(marks, tables[t].key),
    ensures
        new_in(tables, marks) == Seq::<crate::message::RawView>::empty(),
    decreases tables.len(),
{
    if tables.len() > 0 {
        let rest = tables.drop_last();
        let table = tables[tables.len() - 1];
        assert forall|t: int, k: int|
            #![trigger rest[t].rows[k]]
            0 <= t < rest.len() && 0 <= k < rest[t].rows.len() implies rest[t].rows[k].local_id
            <= mark_of(marks, rest[t].key) by {
            assert(tables[t].rows[k].local_id <= mark_of(marks, tables[t].key));
        }
        lemma_nothing_new(rest, marks);
        let mark = mark_of(marks, table.key);
        let found = behind(table.rows, mark);
        lemma_behind(table.rows, mark);
        if found.len() > 0 {
            assert(found.contains(found[0]));
            let k = choose|k: int| 0 <= k < table.rows.len() && table.rows[k] == found[0];
            assert(tables[tables.len() - 1].rows[k].local_id <= mark);
        }
        assert(new_in(tables, marks) =~= Seq::<crate::message::RawView>::empty());
    }
}

/// One pass over all tables gives, table by table, every message behind the table's mark
/// once and in the order of the numbers. Afterwards the mark of each table is the greatest
/// number in it, or what it was where that is greater, so that no mark falls; the marks of
/// tables that could not be read stay; and without a new message all marks stay. A second
/// pass over the same tables gives nothing and moves no mark.
pub proof fn passes_give_every_message_once(marks: Watermarks, tables: Seq<TableView>)
    requires
        tables_distinct(tables),
        forall|t: int| 0 <= t < tables.len() ==> by_number((#[trigger] tables[t]).rows),
    ensures
        ({
            let pass = pass_of(marks, tables);
            let again = pass_of(pass.watermarks, tables);
            &&& pass.raws == new_in(tables, marks)
            &&& forall|t: int|
                #![trigger tables[t]]
                0 <= t < tables.len() ==> {
                    let mark = mark_of(marks, tables[t].key);
                    let found = behind(tables[t].rows, mark);
                    &&& by_number(found)
                    &&& forall|m: crate::message::RawView| #[trigger]
                        found.contains(m) <==> tables[t].rows.contains(m) && m.local_id > mark
                    &&& mark_of(pass.watermarks, tables[t].key) == greatest_id(mark, found)
                    &&& mark_of(pass.watermarks, tables[t].key) >= mark
                }
            &&& forall|key: Seq<char>|
                (forall|t: int| 0 <= t < tables.len() ==> (#[trigger] tables[t]).key != key)
                    ==> #[trigger] mark_of(pass.watermarks, key) == mark_of(marks, key)
            &&& pass.raws.len() == 0 ==> pass.watermarks == marks
            &&& again.raws == Seq::<crate::message::RawView>::empty()
            &&& again.watermarks == pass.watermarks
        }),
{
    let start = ScanView { watermarks: marks, raws: seq![] };
    let pass = pass_of(marks, tables);
    lemma_scan_of(start, tables);
    assert(pass.raws =~= new_in(tables, marks));
    assert forall|t: int| #![trigger tables[t]] 0 <= t < tables.len() implies ({
        let mark = mark_of(marks, tables[t].key);
        let found = behind(tables[t].rows, mark);
        &&& by_number(found)
        &&& forall|m: crate::message::RawView| #[trigger]
            found.contains(m) <==> tables[t].rows.contains(m) && m.local_id > mark
        &&& mark_of(pass.watermarks, tables[t].key) == greatest_id(mark, found)
        &&& mark_of(pass.watermarks, tables[t].key) >= mark
    }) by {
        let mark = mark_of(marks, tables[t].key);
        lemma_behind(tables[t].rows, mark);
        lemma_greatest_id(mark, behind(tables[t].rows, mark));
    }
    assert forall|t: int, k: int|
        #![trigger tables[t].rows[k]]
        0 <= t < tables.len() && 0 <= k < tables[t].rows.len() implies tables[t].rows[k].local_id
        <= mark_of(pass.watermarks, tables[t].key) by {
        lemma_greatest_id(mark_of(marks, tables[t].key), tables[t].rows);
    }
    lemma_nothing_new(tables, pass.watermarks);
    let second = ScanView { watermarks: pass.watermarks, raws: seq![] };
    lemma_scan_of(second, tables);
    assert(pass_of(pass.watermarks, tables).raws =~= Seq::<crate::message::RawView>::empty());
}

/// Two passes have no message in common, whatever was written to the tables between them:
/// what the second gives of a table has a greater number than all that the first found in it.
pub proof fn passes_do_not_overlap(
    marks: Watermarks,
    tables: Seq<TableView>,
    later: Seq<TableView>,
    t: int,
    first: crate::message::RawView,
    second: crate::message::RawView,
)
    requires
        tables_distinct(tables),
        0 <= t < tables.len(),
        t < later.len(),
        later[t].key == tables[t].key,
        tables[t].rows.contains(first),
        behind(
            later[t].rows,
            mark_of(pass_of(marks, tables).watermarks, later[t].key),
        ).contains(second),
    ensures
        second.local_id > first.local_id,
{
    let start = ScanView { watermarks: marks, raws: seq![] };
    lemma_scan_of(start, tables);
    lemma_greatest_id(mark_of(marks, tables[t].key), tables[t].rows);
    lemma_behind(later[t].rows, mark_of(pass_of(marks, tables).watermarks, later[t].key));
    let k = choose|k: int| 0 <= k < tables[t].rows.len() && tables[t].rows[k] == first;
    assert(tables[t].rows[k].local_id == first.local_id);
}

/// The greatest row number of a table, where it has rows.
#[derive(Debug)]
pub struct TableMaximum {
    pub db_name: String,
    pub table: String,
    pub max_id: Option<i64>,
}

/// The marks when every table is read to its end.
pub open spec fn marks_at_end(maxima: Seq<TableMaximum>) -> Watermarks
    decreases maxima.len(),
{
    if maxima.len() == 0 {
        seq![]
    } else {
        let before = marks_at_end(maxima.drop_last());
        let last = maxima.last();
        match last.max_id {
            Some(id) => crate::textmap::with_value(
                before,
                crate::tables::watermark_key_of(last.db_name@, last.table@),
                id,
            ),
            None => before,
        }
    }
}

/// What came of the wait for a message to go out.
#[derive(Debug)]
pub enum SentEvent {
    /// A message went out.
    Content(String),
    /// Some messages were missed.
    Lagged,
    /// No more will be heard of.
    Closed,
    /// The wait was too long.
    TimedOut,
}

// ---------------------------------------------------------------------------
// Databases
// ---------------------------------------------------------------------------

/// The paths of the message databases among the files that are not open yet, in order.
pub open spec fn unopened(names: Seq<Seq<char>>, open: Seq<Seq<char>>) -> Seq<Seq<char>>
    decreases names.len(),
{
    if names.len() == 0 {
        seq![]
    } else {
        let before = unopened(names.drop_last(), open);
        let path = "message/"@ + names.last();
        if crate::tables::message_db_name(names.last()) && !open.contains(path) {
            before.push(path)
        } else {
            before
        }
    }
}

/// The paths of the message databases among the files of the message directory that are
/// not open yet.
pub fn databases_to_open(names: &Vec<String>, open: &Vec<String>) -> (paths: Vec<String>)
    ensures
        crate::text::texts_of(paths@) == unopened(
            crate::text::texts_of(names@),
            crate::text::texts_of(open@),
        ),
{
    let mut paths: Vec<String> = Vec::new();
    let ghost all = crate::text::texts_of(names@);
    let ghost known = crate::text::texts_of(open@);
    let mut i: usize = 0;
    while i < names.len()
        invariant
            i <= names@.len(),
            all == crate::text::texts_of(names@),
            known == crate::text::texts_of(open@),
            crate::text::texts_of(paths@) =~= unopened(all.take(i as int), known),
        decreases names@.len() - i,
    {
        let ghost before = crate::text::texts_of(paths@);
        proof {
            assert(all.take(i + 1).drop_last() =~= all.take(i as int));
            assert(all.take(i + 1).last() == names@[i as int]@);
        }
        if is_message_db(names[i].as_str()) {
            let path = relative_path(names[i].as_str());
            if !list_contains(open, path.as_str()) {
                let ghost view = path@;
                paths.push(path);
                proof {
                    assert(crate::text::texts_of(paths@) =~= before.push(view));
                }
            }
        }
        i = i + 1;
    }
    proof {
        assert(all.take(all.len() as int) =~= all);
    }
    paths
}

/// Whether the key file has changed since it was last looked at.
pub open spec fn key_file_changed(known: Option<i128>, current: Option<i128>) -> bool {
    current is Some && known != current
}

/// Whether a history query looks at the table of a conversation.
pub open spec fn is_wanted(wanted: Option<Seq<char>>, chat: Seq<char>) -> bool {
    chat.len() > 0 && match wanted {
        Some(name) => name == chat,
        None => true,
    }
}

/// Who reads the messages.
pub open spec fn reader_of(db: DbView) -> crate::message::ReaderView {
    crate::message::ReaderView {
        self_wxid: db.self_wxid,
        self_name: db.self_display_name,
        book: db.contacts,
    }
}

/// What taking the new messages of a pass gives, and what is known afterwards.
pub open spec fn takes_pass(
    before: DbView,
    scan: ScanView,
    messages: Seq<crate::message::MessageView>,
    after: DbView,
) -> bool {
    &&& messages == crate::message::all_hydrated(scan.raws, reader_of(before))
    &&& after == (DbView {
        watermarks: if scan.raws.len() > 0 {
            scan.watermarks
        } else {
            before.watermarks
        },
        ..before
    })
}

/// What is known after the contacts were read.
pub open spec fn refreshed(
    before: DbView,
    rows: Seq<ContactRow>,
    rooms: Seq<RoomRow>,
    after: DbView,
) -> bool {
    let book = crate::contacts::with_rooms(
        crate::contacts::book_of(crate::contacts::rows_contacts(rows)),
        rooms,
    );
    let account = before.self_wxid;
    after == (DbView {
        contacts: book,
        self_display_name: if account.len() > 0 && crate::textmap::value_of(book, account)
            is Some {
            crate::textmap::value_of(book, account)->0.display_name
        } else {
            before.self_display_name
        },
        ..before
    })
}

/// What an event means for the wait for a text to go out.
pub open spec fn sent_verdict(text: Seq<char>, event: SentEvent) -> Option<bool> {
    match event {
        SentEvent::Content(sent) => if crate::message::is_echo(sent@, text) {
            Some(true)
        } else {
            None
        },
        SentEvent::Lagged => None,
        SentEvent::Closed => Some(false),
        SentEvent::TimedOut => Some(false),
    }
}

/// What is known once it is known how a table is queried.
pub open spec fn learned(db: DbView, key: Seq<char>, meta: crate::tables::MetaView) -> DbView {
    DbView {
        tables: if crate::textmap::value_of(db.tables, key) is None {
            crate::textmap::with_value(db.tables, key, meta)
        } else {
            db.tables
        },
        ..db
    }
}

/// Whether the key file has changed since it was last looked at, so that all databases
/// have to be opened anew. A key file that is gone changes nothing.
pub fn keys_changed(known: Option<i128>, current: Option<i128>) -> (changed: bool)
    ensures
        changed == key_file_changed(known, current),
{
    match current {
        Some(now) => match known {
            Some(before) => before != now,
            None => true,
        },
        None => false,
    }
}

/// Whether a history query looks at a table: it has a conversation, and the wanted one
/// where one is wanted.
pub fn wants_table(wanted: Option<&str>, chat: &str) -> (wants: bool)
    ensures
        wants == is_wanted(crate::store::slice_view(wanted), chat@),
{
    if chat.is_empty() {
        return false;
    }
    match wanted {
        Some(name) => text_eq(name, chat),
        None => true,
    }
}

impl DbManager {
    /// The maps are well formed, and contacts stand under their user names.
    pub closed spec fn wf(&self) -> bool {
        &&& self.contacts.wf()
        &&& self.watermarks.wf()
        &&& self.tables.wf()
        &&& crate::contacts::filed_by_username(self.contacts@)
    }

    /// Who reads the messages.
    pub open spec fn reader(&self) -> crate::message::ReaderView {
        reader_of(self@)
    }

    /// The state for a key, the components of the path of the databases, and the marks that
    /// were saved.
    pub fn new(
        key_hex: String,
        components: &Vec<Option<String>>,
        saved: &Vec<(String, i64)>,
    ) -> (result: Result<DbManager, DbError>)
        requires
            crate::keys::cuts_into_pairs(vstd::utf8::encode_utf8(key_hex@)),
        ensures
            ({
                let key = crate::keys::hex_bytes(vstd::utf8::encode_utf8(key_hex@));
                match result {
                    Ok(db) => {
                        &&& db.wf()
                        &&& key is Some
                        &&& key->0.len() == 32 || key->0.len() == 48
                        &&& db@.key_hex == key_hex@
                        &&& db@.key_bytes == key->0
                        &&& db@.self_wxid == crate::keys::account_of_path(components@)
                        &&& db@.self_display_name == "我"@
                        &&& db@.contacts.len() == 0
                        &&& db@.watermarks == marks_listed(saved@)
                        &&& db@.tables.len() == 0
                    },
                    Err(DbError::KeyFormat(error)) => key is None && crate::keys::is_fault_of(
                        error,
                        vstd::utf8::encode_utf8(key_hex@),
                    ),
                    Err(DbError::KeyLength(n)) => key is Some && n == key->0.len() && n != 32 && n
                        != 48,
                }
            }),
    {
        let key_bytes = match hex_to_bytes(key_hex.as_str()) {
            Ok(bytes) => bytes,
            Err(error) => {
                return Err(DbError::KeyFormat(error));
            },
        };
        if key_bytes.len() != 32 && key_bytes.len() != 48 {
            return Err(DbError::KeyLength(key_bytes.len()));
        }
        Ok(
            DbManager {
                key_hex,
                key_bytes,
                self_wxid: self_wxid(components),
                self_display_name: "我".to_owned(),
                contacts: TextMap::new(),
                watermarks: marks_from(saved),
                tables: TextMap::new(),
            },
        )
    }

    /// The account's key, in hexadecimal.
    pub fn key_hex(&self) -> (key: &str)
        ensures
            key@ == self@.key_hex,
    {
        self.key_hex.as_str()
    }

    /// The account's key.
    pub fn key_bytes(&self) -> (key: &Vec<u8>)
        ensures
            key@ == self@.key_bytes,
    {
        &self.key_bytes
    }

    /// The account, or an empty text where it is not known.
    pub fn self_wxid(&self) -> (account: &str)
        ensures
            account@ == self@.self_wxid,
    {
        self.self_wxid.as_str()
    }

    // -----------------------------------------------------------------------
    // Contacts
    // -----------------------------------------------------------------------

    /// Replaces the contacts by those in the rows, adds the chat rooms that are not among
    /// them, and takes the account's own name from them. Returns the number of contacts.
    pub fn refresh_contacts(&mut self, rows: &Vec<ContactRow>, rooms: &Vec<RoomRow>) -> (count: usize)
        requires
            old(self).wf(),
        ensures
            final(self).wf(),
            count == crate::contacts::rows_contacts(rows@).len(),
            refreshed(old(self)@, rows@, rooms@, final(self)@),
    {
        let (loaded, count) = load_contacts(rows);
        let mut book = loaded;
        proof {
            crate::contacts::book_is_filed(crate::contacts::rows_contacts(rows@));
            crate::contacts::rooms_only_add(book@, rooms@, seq![]);
        }
        add_rooms(&mut book, rooms);
        if !self.self_wxid.as_str().is_empty() {
            if let Some(contact) = book.get(self.self_wxid.as_str()) {
                self.self_display_name = contact.display_name.clone();
            }
        }
        self.contacts = book;
        count
    }

    /// All contacts.
    pub fn get_contacts(&self) -> (contacts: Vec<ContactInfo>)
        ensures
            contacts@.len() == self@.contacts.len(),
            forall|i: int|
                0 <= i < contacts@.len() ==> (#[trigger] contacts@[i])@ == self@.contacts[i].1,
    {
        let mut contacts: Vec<ContactInfo> = Vec::new();
        let mut i: usize = 0;
        while i < self.contacts.len()
            invariant
                i <= self.contacts@.len(),
                contacts@.len() == i,
                forall|k: int|
                    0 <= k < i ==> (#[trigger] contacts@[k])@ == self.contacts@[k].1,
            decreases self.contacts@.len() - i,
        {
            contacts.push(self.contacts.value_at(i).clone());
            i = i + 1;
        }
        contacts
    }

    /// The sessions in the rows, with the names that their contacts are shown by.
    pub fn get_sessions(&self, rows: &Vec<SessionRow>) -> (sessions: Vec<DbSessionInfo>)
        requires
            self.wf(),
        ensures
            crate::contacts::sessions_view(sessions@) == crate::contacts::rows_sessions(
                self@.contacts,
                rows@,
            ),
    {
        list_sessions(&self.contacts, rows)
    }

    /// The user name that a display name, a remark, a nickname, an alias or a user name
    /// means; what means nothing stays as it is.
    pub fn resolve_chat_identifier(&self, value: &str) -> (username: String)
        requires
            self.wf(),
        ensures
            username@ == crate::contacts::identifier_in(self@.contacts, value@),
    {
        resolve_identifier(&self.contacts, value)
    }

    /// The name by which the client's search finds a conversation.
    pub fn conversation_display_name(&self, value: &str) -> (name: String)
        requires
            self.wf(),
        ensures
            name@ == crate::contacts::name_in(self@.contacts, value@),
    {
        resolve_name(&self.contacts, value)
    }

    // -----------------------------------------------------------------------
    // Table structures
    // -----------------------------------------------------------------------

    /// How a table is queried, where that is known.
    pub fn known_table(&self, db_name: &str, table: &str) -> (meta: Option<&TableMeta>)
        requires
            self.wf(),
        ensures
            match meta {
                Some(m) => crate::textmap::value_of(
                    self@.tables,
                    db_name@ + "::"@ + table@,
                ) == Some(m@),
                None => crate::textmap::value_of(self@.tables, db_name@ + "::"@ + table@) is None,
            },
    {
        self.tables.get(table_key(db_name, table).as_str())
    }

    /// Remembers how a table is queried, unless that is known.
    pub fn learn_table(&mut self, db_name: &str, table: &str, meta: TableMeta)
        requires
            old(self).wf(),
        ensures
            final(self).wf(),
            final(self)@ == learned(old(self)@, db_name@ + "::"@ + table@, meta@),
    {
        let key = table_key(db_name, table);
        if self.tables.get(key.as_str()).is_none() {
            self.tables.insert(key, meta);
        }
    }

    /// Forgets all table structures: the databases are opened anew.
    pub fn forget_tables(&mut self)
        requires
            old(self).wf(),
        ensures
            final(self).wf(),
            final(self)@ == (DbView { tables: seq![], ..old(self)@ }),
    {
        self.tables = TextMap::new();
    }

    // -----------------------------------------------------------------------
    // Messages
    // -----------------------------------------------------------------------

    /// Whether it is known how far the tables were read before.
    pub fn has_persisted_watermarks(&self) -> (known: bool)
        ensures
            known == (self@.watermarks.len() > 0),
    {
        self.watermarks.len() > 0
    }

    /// The marks, to be saved.
    pub fn saved_watermarks(&self) -> (list: Vec<(String, i64)>)
        requires
            self.wf(),
        ensures
            list@.len() == self@.watermarks.len(),
            forall|i: int|
                0 <= i < list@.len() ==> ((#[trigger] list@[i]).0@, list@[i].1)
                    == self@.watermarks[i],
            crate::textmap::keys_distinct(self@.watermarks),
            marks_listed(list@) == self@.watermarks,
    {
        let mut list: Vec<(String, i64)> = Vec::new();
        let mut i: usize = 0;
        while i < self.watermarks.len()
            invariant
                i <= self.watermarks@.len(),
                list@.len() == i,
                forall|k: int|
                    0 <= k < i ==> ((#[trigger] list@[k]).0@, list@[k].1) == self.watermarks@[k],
            decreases self.watermarks@.len() - i,
        {
            list.push((self.watermarks.key_at(i).clone(), *self.watermarks.value_at(i)));
            i = i + 1;
        }
        proof {
            self.watermarks.lemma_distinct();
            marks_survive_a_restart(list@, self@.watermarks);
        }
        list
    }

    /// Begins a pass over the message tables.
    pub fn begin_scan(&self) -> (scan: MessageScan)
        requires
            self.wf(),
        ensures
            scan.wf(),
            scan@.watermarks == self@.watermarks,
            scan@.raws.len() == 0,
    {
        MessageScan { watermarks: copy_marks(&self.watermarks), raws: Vec::new() }
    }

    /// The new messages that a pass over the tables found. The marks move with them; where
    /// there are none the marks stay.
    pub fn get_new_messages(&mut self, scan: MessageScan) -> (messages: Vec<DbMessage>)
        requires
            old(self).wf(),
            scan.wf(),
        ensures
            final(self).wf(),
            takes_pass(
                old(self)@,
                scan@,
                crate::message::messages_view(messages@),
                final(self)@,
            ),
    {
        let messages = hydrate_raw_messages(
            &scan.raws,
            self.self_wxid.as_str(),
            self.self_display_name.as_str(),
            &self.contacts,
        );
        proof {
            assert(messages@.len() == crate::message::messages_view(messages@).len());
        }
        if messages.len() > 0 {
            self.watermarks = scan.watermarks;
        }
        messages
    }

    /// Moves the marks to the ends of the tables, so that no message that is there counts as
    /// new.
    pub fn mark_all_read(&mut self, maxima: &Vec<TableMaximum>)
        requires
            old(self).wf(),
        ensures
            final(self).wf(),
            final(self)@ == (DbView { watermarks: marks_at_end(maxima@), ..old(self)@ }),
    {
        let mut marks: TextMap<i64> = TextMap::new();
        let mut i: usize = 0;
        while i < maxima.len()
            invariant
                i <= maxima@.len(),
                marks.wf(),
                marks@ == marks_at_end(maxima@.take(i as int)),
            decreases maxima@.len() - i,
        {
            proof {
                assert(maxima@.take(i + 1).drop_last() =~= maxima@.take(i as int));
                assert(maxima@.take(i + 1).last() == maxima@[i as int]);
            }
            if let Some(id) = maxima[i].max_id {
                marks.insert(watermark_key(maxima[i].db_name.as_str(), maxima[i].table.as_str()), id);
            }
            i = i + 1;
        }
        proof {
            assert(maxima@.take(maxima@.len() as int) =~= maxima@);
        }
        self.watermarks = marks;
    }

    /// A page of the history, and whether there are messages after it. `raws` holds what was
    /// read of each table, one table after the other, as far as
    /// [`crate::history::TableReading`] goes for the page. Nothing changes by asking.
    pub fn get_message_history(&self, raws: &Vec<RawMsg>, offset: usize, limit: usize) -> (page: (
        Vec<DbMessage>,
        bool,
    ))
        requires
            self.wf(),
        ensures
            crate::history::is_page(
                crate::message::all_hydrated(crate::message::raws_view(raws@), self.reader()),
                offset,
                limit,
                crate::message::messages_view(page.0@),
                page.1,
            ),
    {
        let messages = hydrate_raw_messages(
            raws,
            self.self_wxid.as_str(),
            self.self_display_name.as_str(),
            &self.contacts,
        );
        history_page(messages, offset, limit)
    }

    /// The file that an identifier stands for. `locator` is what the bytes of the identifier
    /// say, where they say anything, `candidates` holds the regular files under the
    /// directories of the account, and `roots` those directories.
    pub fn resolve_attachment(
        &self,
        id: &str,
        locator: Option<&AttachmentLocator>,
        candidates: &Vec<Candidate>,
        roots: &Vec<Option<Vec<u8>>>,
    ) -> (resolved: Result<ResolvedAttachment, AttachmentError>)
        ensures
            crate::attachment::answers_request(
                id@,
                match locator {
                    Some(l) => Some(l@),
                    None => None,
                },
                candidates@,
                roots@,
                resolved,
            ),
    {
        if let Err(e) = decode_attachment_id(id) {
            return Err(e);
        }
        match locator {
            None => Err(AttachmentError::IdContent),
            Some(wanted) => match check_locator(wanted) {
                Err(e) => Err(e),
                Ok(_) => resolve_from_candidates(wanted, candidates, roots),
            },
        }
    }

    /// What an event means for the wait for a text to go out: `Some(true)` where it went
    /// out, `Some(false)` where the wait is over, `None` where it goes on.
    pub fn verify_sent(&self, text: &str, event: &SentEvent) -> (outcome: Option<bool>)
        ensures
            outcome == sent_verdict(text@, *event),
    {
        match event {
            SentEvent::Content(sent) => if echoes(sent.as_str(), text) {
                Some(true)
            } else {
                None
            },
            SentEvent::Lagged => None,
            SentEvent::Closed => Some(false),
            SentEvent::TimedOut => Some(false),
        }
    }
}

/// Saved marks are the marks again when they are loaded.
pub proof fn marks_survive_a_restart(list: Seq<(String, i64)>, marks: Watermarks)
    requires
        crate::textmap::keys_distinct(marks),
        list.len() == marks.len(),
        forall|i: int| 0 <= i < list.len() ==> ((#[trigger] list[i]).0@, list[i].1) == marks[i],
    ensures
        marks_listed(list) == marks,
    decreases list.len(),
{
    if list.len() == 0 {
        assert(marks_listed(list) =~= marks);
    } else {
        let rest = list.drop_last();
        let part = marks.drop_last();
        assert forall|i: int, j: int|
            #![trigger part[i], part[j]]
            0 <= i < j < part.len() implies part[i].0 != part[j].0 by {
            assert(marks[i].0 != marks[j].0);
        }
        assert forall|i: int| 0 <= i < rest.len() implies ((#[trigger] rest[i]).0@, rest[i].1)
            == part[i] by {
            assert(rest[i] == list[i]);
        }
        marks_survive_a_restart(rest, part);
        let last = list.len() - 1;
        assert((list[last].0@, list[last].1) == marks[last]);
        assert forall|i: int| 0 <= i < part.len() implies (#[trigger] part[i]).0 != marks[last].0 by {
            assert(marks[i].0 != marks[last].0);
        }
        crate::textmap::lemma_position_is(part, marks[last].0, part.len() as int);
        assert(part.push(marks[last]) =~= marks);
    }
}

// ---------------------------------------------------------------------------
// Changes on disk
// ---------------------------------------------------------------------------

/// A file that was changed, and the process that changed it.
#[derive(Debug)]
pub struct FileChange {
    pub pid: i32,
    pub path: String,
}

/// Whether one of the changes is another process's, in the message directory.
pub open spec fn changed_by_others(
    changes: Seq<FileChange>,
    self_pid: i32,
    msg_dir: Seq<char>,
) -> bool {
    exists|i: int|
        0 <= i < changes.len() && (#[trigger] changes[i]).pid != self_pid
            && crate::text::has_prefix(changes[i].path@, msg_dir)
}

/// Whether one of the changes is another process's, in the message directory. What the
/// bridge itself writes does not count: reading a database writes beside it.
pub fn has_external_change(changes: &Vec<FileChange>, self_pid: i32, msg_dir: &str) -> (found: bool)
    ensures
        found == changed_by_others(changes@, self_pid, msg_dir@),
{
    let mut i: usize = 0;
    while i < changes.len()
        invariant
            i <= changes@.len(),
            forall|k: int|
                0 <= k < i ==> !((#[trigger] changes@[k]).pid != self_pid
                    && crate::text::has_prefix(changes@[k].path@, msg_dir@)),
        decreases changes@.len() - i,
    {
        if changes[i].pid != self_pid && crate::text::starts_with(
            changes[i].path.as_str(),
            msg_dir,
        ) {
            return true;
        }
        i = i + 1;
    }
    false
}

// ---------------------------------------------------------------------------
// Laws of the state
// ---------------------------------------------------------------------------

/// Taking the new messages of a pass gives each message that the pass found once, in their
/// order, and moves the marks to where the pass came; nothing else changes. A pass that
/// found nothing leaves the marks where they are.
pub proof fn passes_are_taken_whole(
    before: DbView,
    scan: ScanView,
    messages: Seq<crate::message::MessageView>,
    after: DbView,
)
    requires
        takes_pass(before, scan, messages, after),
    ensures
        messages.len() == scan.raws.len(),
        forall|k: int|
            0 <= k < messages.len() ==> {
                let m = #[trigger] messages[k];
                let raw = scan.raws[k];
                &&& m.local_id == raw.local_id
                &&& m.server_id == raw.server_id
                &&& m.create_time == raw.create_time
                &&& m.chat == raw.chat
                &&& m.msg_type == raw.msg_type
                &&& m.attachment is None
            },
        scan.raws.len() > 0 ==> after.watermarks == scan.watermarks,
        scan.raws.len() == 0 ==> after == before,
        after.contacts == before.contacts,
        after.self_wxid == before.self_wxid,
        after.self_display_name == before.self_display_name,
        after.tables == before.tables,
        after.key_bytes == before.key_bytes,
        after.key_hex == before.key_hex,
{
}

/// A table that is not known has no mark, which counts as zero: all its rows are new.
pub proof fn unknown_tables_are_new(
    marks: Watermarks,
    key: Seq<char>,
    rows: Seq<crate::message::RawView>,
    m: crate::message::RawView,
)
    requires
        forall|k: int| 0 <= k < marks.len() ==> (#[trigger] marks[k]).0 != key,
    ensures
        mark_of(marks, key) == 0,
        rows.contains(m) && m.local_id > 0 ==> behind(rows, mark_of(marks, key)).contains(m),
{
    crate::textmap::lemma_position_is(marks, key, marks.len() as int);
    lemma_behind(rows, 0);
}

/// After everything was marked as read, the mark of each table that has rows is its
/// greatest number, so that none of its messages counts as new; a table without rows has
/// no mark.
pub proof fn everything_marked_is_read(
    maxima: Seq<TableMaximum>,
    i: int,
    rows: Seq<crate::message::RawView>,
)
    requires
        0 <= i < maxima.len(),
        forall|j: int|
            0 <= j < maxima.len() && j != i ==> crate::tables::watermark_key_of(
                (#[trigger] maxima[j]).db_name@,
                maxima[j].table@,
            ) != crate::tables::watermark_key_of(maxima[i].db_name@, maxima[i].table@),
    ensures
        ({
            let key = crate::tables::watermark_key_of(maxima[i].db_name@, maxima[i].table@);
            let marks = marks_at_end(maxima);
            &&& maxima[i].max_id is Some ==> mark_of(marks, key) == maxima[i].max_id->0
            &&& maxima[i].max_id is None ==> mark_of(marks, key) == 0
            &&& maxima[i].max_id is Some && (forall|k: int|
                0 <= k < rows.len() ==> (#[trigger] rows[k]).local_id <= maxima[i].max_id->0)
                ==> behind(rows, mark_of(marks, key)).len() == 0
        }),
    decreases maxima.len(),
{
    let key = crate::tables::watermark_key_of(maxima[i].db_name@, maxima[i].table@);
    let rest = maxima.drop_last();
    let last = maxima.last();
    let last_key = crate::tables::watermark_key_of(last.db_name@, last.table@);
    if i < rest.len() {
        assert(rest[i] == maxima[i]);
        assert forall|j: int| 0 <= j < rest.len() && j != i implies
            crate::tables::watermark_key_of((#[trigger] rest[j]).db_name@, rest[j].table@)
            != key by {
            assert(rest[j] == maxima[j]);
        }
        everything_marked_is_read(rest, i, rows);
        assert(maxima[maxima.len() - 1] == last);
        if last.max_id is Some {
            crate::textmap::put_then_get(marks_at_end(rest), last_key, last.max_id->0, key);
        }
    } else {
        lemma_unlisted(rest, key);
        if last.max_id is Some {
            crate::textmap::put_then_get(marks_at_end(rest), last_key, last.max_id->0, key);
        }
    }
    if maxima[i].max_id is Some && (forall|k: int|
        0 <= k < rows.len() ==> (#[trigger] rows[k]).local_id <= maxima[i].max_id->0) {
        let mark = mark_of(marks_at_end(maxima), key);
        lemma_behind(rows, mark);
        let found = behind(rows, mark);
        if found.len() > 0 {
            assert(found.contains(found[0]));
            let k = choose|k: int| 0 <= k < rows.len() && rows[k] == found[0];
            assert(rows[k].local_id <= maxima[i].max_id->0);
        }
    }
}

proof fn lemma_unlisted(maxima: Seq<TableMaximum>, key: Seq<char>)
    requires
        forall|j: int|
            0 <= j < maxima.len() ==> crate::tables::watermark_key_of(
                (#[trigger] maxima[j]).db_name@,
                maxima[j].table@,
            ) != key,
    ensures
        mark_of(marks_at_end(maxima), key) == 0,
    decreases maxima.len(),
{
    if maxima.len() > 0 {
        let rest = maxima.drop_last();
        let last = maxima.last();
        assert(maxima[maxima.len() - 1] == last);
        assert forall|j: int| 0 <= j < rest.len() implies crate::tables::watermark_key_of(
            (#[trigger] rest[j]).db_name@,
            rest[j].table@,
        ) != key by {
            assert(rest[j] == maxima[j]);
        }
        lemma_unlisted(rest, key);
        if last.max_id is Some {
            crate::textmap::put_then_get(
                marks_at_end(rest),
                crate::tables::watermark_key_of(last.db_name@, last.table@),
                last.max_id->0,
                key,
            );
        }
    } else {
        crate::textmap::lemma_position_is(marks_at_end(maxima), key, 0);
    }
}

/// Exactly the message databases that are not open yet are opened.
pub proof fn unopened_databases_are_opened(
    names: Seq<Seq<char>>,
    open: Seq<Seq<char>>,
    path: Seq<char>,
)
    ensures
        unopened(names, open).contains(path) <==> !open.contains(path) && exists|k: int|
            0 <= k < names.len() && path == "message/"@ + #[trigger] names[k]
                && crate::tables::message_db_name(names[k]),
    decreases names.len(),
{
    if names.len() > 0 {
        let rest = names.drop_last();
        unopened_databases_are_opened(rest, open, path);
        let before = unopened(rest, open);
        let all = unopened(names, open);
        if all.contains(path) {
            let k = choose|k: int| 0 <= k < all.len() && all[k] == path;
            if k < before.len() {
                assert(before[k] == path);
                let n = choose|n: int|
                    0 <= n < rest.len() && path == "message/"@ + #[trigger] rest[n]
                        && crate::tables::message_db_name(rest[n]);
                assert(names[n] == rest[n]);
            } else {
                assert(names[names.len() - 1] == names.last());
            }
        }
        if !open.contains(path) && exists|k: int|
            0 <= k < names.len() && path == "message/"@ + #[trigger] names[k]
                && crate::tables::message_db_name(names[k]) {
            let k = choose|k: int|
                0 <= k < names.len() && path == "message/"@ + #[trigger] names[k]
                    && crate::tables::message_db_name(names[k]);
            if k < rest.len() {
                assert(rest[k] == names[k]);
                let n = choose|n: int| 0 <= n < before.len() && before[n] == path;
                assert(all[n] == path);
            } else {
                assert(all[before.len() as int] == path);
            }
        }
    }
}

/// A history that is asked for with a chat is looked for in the table of that chat alone,
/// any other in the tables of all chats; a table whose chat is not known is never looked at.
pub proof fn only_wanted_tables_are_read(wanted: Option<Seq<char>>, chat: Seq<char>)
    ensures
        wanted is Some && is_wanted(wanted, chat) ==> wanted->0 == chat,
        is_wanted(None, chat) <==> chat.len() > 0,
        chat.len() > 0 ==> is_wanted(Some(chat), chat),
        !is_wanted(wanted, seq![]),
{
}

/// The databases are opened anew where the key file was written since, or shows up for the
/// first time, and not where it is as it was, or gone.
pub proof fn written_keys_count(known: i128, current: i128)
    ensures
        key_file_changed(None, Some(current)),
        key_file_changed(Some(known), Some(current)) <==> known != current,
        !key_file_changed(Some(known), None),
        !key_file_changed(None, None),
{
}

/// A text counts as gone out only where a message that echoes it went out; the wait is over
/// without it where no more will be heard of, or it took too long, and goes on otherwise.
pub proof fn waits_end_with_the_echo(text: Seq<char>, event: SentEvent)
    ensures
        sent_verdict(text, event) == Some(true) <==> event is Content && crate::message::is_echo(
            event->Content_0@,
            text,
        ),
        sent_verdict(text, event) == Some(false) <==> event is Closed || event is TimedOut,
{
}

/// Reading the contacts replaces them all and changes nothing else but the account's own
/// name, which is what the contacts say where they know the account.
pub proof fn contacts_are_replaced(
    before: DbView,
    rows: Seq<ContactRow>,
    rooms: Seq<RoomRow>,
    after: DbView,
)
    requires
        refreshed(before, rows, rooms, after),
    ensures
        after.watermarks == before.watermarks,
        after.tables == before.tables,
        after.self_wxid == before.self_wxid,
        after.key_bytes == before.key_bytes,
        after.key_hex == before.key_hex,
        crate::textmap::value_of(after.contacts, before.self_wxid) is None
            ==> after.self_display_name == before.self_display_name,
        before.self_wxid.len() > 0 && crate::textmap::value_of(after.contacts, before.self_wxid)
            is Some ==> after.self_display_name == crate::textmap::value_of(
            after.contacts,
            before.self_wxid,
        )->0.display_name,
        before.self_wxid.len() == 0 ==> after.self_display_name == before.self_display_name,
{
}

/// How a table is queried is remembered under its own key, the first time it is learned;
/// what is known of other tables stays.
pub proof fn tables_are_learned_once(
    db: DbView,
    key: Seq<char>,
    meta: crate::tables::MetaView,
    other: Seq<char>,
)
    ensures
        ({
            let after = learned(db, key, meta);
            let known = crate::textmap::value_of(db.tables, key);
            &&& known is None ==> crate::textmap::value_of(after.tables, key) == Some(meta)
            &&& known is Some ==> crate::textmap::value_of(after.tables, key) == known
            &&& other != key ==> crate::textmap::value_of(after.tables, other)
                == crate::textmap::value_of(db.tables, other)
            &&& after.watermarks == db.watermarks
            &&& after.contacts == db.contacts
        }),
{
    crate::textmap::put_then_get(db.tables, key, meta, key);
    crate::textmap::put_then_get(db.tables, key, meta, other);
}

/// What the bridge itself writes is no change, nor is what happens outside the message
/// directory; a single change of another process inside it is one.
pub proof fn changes_of_others_count(
    changes: Seq<FileChange>,
    self_pid: i32,
    msg_dir: Seq<char>,
    i: int,
)
    ensures
        (forall|k: int| 0 <= k < changes.len() ==> (#[trigger] changes[k]).pid == self_pid)
            ==> !changed_by_others(changes, self_pid, msg_dir),
        (forall|k: int|
            0 <= k < changes.len() ==> !crate::text::has_prefix(
                (#[trigger] changes[k]).path@,
                msg_dir,
            )) ==> !changed_by_others(changes, self_pid, msg_dir),
        0 <= i < changes.len() && changes[i].pid != self_pid && crate::text::has_prefix(
            changes[i].path@,
            msg_dir,
        ) ==> changed_by_others(changes, self_pid, msg_dir),
{
}

} // verus!
