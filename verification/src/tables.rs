//! The message tables: which databases hold them, what their columns are called, how they
//! are queried, and whose messages they hold.

use vstd::prelude::*;
use vstd::string::*;

use crate::number::parse_i64;
use crate::outside::md5_text;
use crate::text::{all_digits, eq_ignore_ascii_case, strip_prefix, strip_suffix};
use crate::textmap::TextMap;

verus! {

// ---------------------------------------------------------------------------
// Databases
// ---------------------------------------------------------------------------

/// The name of a message database: `message_`, a number, `.db`. Other databases, such as
/// `message_fts.db`, hold no messages.
pub open spec fn message_db_name(name: Seq<char>) -> bool {
    match crate::text::after_prefix(name, "message_"@) {
        Some(rest) => match crate::text::before_suffix(rest, ".db"@) {
            Some(number) => number.len() > 0 && crate::number::only_digits(number),
            None => false,
        },
        None => false,
    }
}

/// Whether a file is a message database, by its name.
pub fn is_message_db(name: &str) -> (found: bool)
    ensures
        found == message_db_name(name@),
{
    match strip_prefix(name, "message_") {
        Some(rest) => match strip_suffix(rest, ".db") {
            Some(number) => !number.is_empty() && all_digits(number),
            None => false,
        },
        None => false,
    }
}

/// `text` without the repetitions of `prefix` that it begins with.
pub open spec fn without_front(text: Seq<char>, prefix: Seq<char>) -> Seq<char>
    decreases text.len(),
{
    if prefix.len() > 0 && crate::text::has_prefix(text, prefix) {
        without_front(text.skip(prefix.len() as int), prefix)
    } else {
        text
    }
}

/// `text` without the repetitions of `suffix` that it ends with.
pub open spec fn without_back(text: Seq<char>, suffix: Seq<char>) -> Seq<char>
    decreases text.len(),
{
    if suffix.len() > 0 && crate::text::has_suffix(text, suffix) {
        without_back(text.take(text.len() - suffix.len()), suffix)
    } else {
        text
    }
}

/// How a database is named in watermarks: without its directory and its extension.
pub open spec fn short_db_name(db_name: Seq<char>) -> Seq<char> {
    without_back(without_front(db_name, "message/"@), ".db"@)
}

fn trim_front<'a>(text: &'a str, prefix: &str) -> (rest: &'a str)
    requires
        prefix@.len() > 0,
    ensures
        rest@ == without_front(text@, prefix@),
    decreases text@.len(),
{
    match strip_prefix(text, prefix) {
        Some(rest) => trim_front(rest, prefix),
        None => text,
    }
}

fn trim_back<'a>(text: &'a str, suffix: &str) -> (rest: &'a str)
    requires
        suffix@.len() > 0,
    ensures
        rest@ == without_back(text@, suffix@),
    decreases text@.len(),
{
    match strip_suffix(text, suffix) {
        Some(rest) => trim_back(rest, suffix),
        None => text,
    }
}

/// The key of a table in the watermarks.
pub open spec fn watermark_key_of(db_name: Seq<char>, table: Seq<char>) -> Seq<char> {
    short_db_name(db_name) + "::"@ + table
}

/// The key of a table in the watermarks.
pub fn watermark_key(db_name: &str, table: &str) -> (key: String)
    ensures
        key@ == watermark_key_of(db_name@, table@),
{
    proof {
        reveal_strlit("message/");
        reveal_strlit(".db");
    }
    trim_back(trim_front(db_name, "message/"), ".db").to_owned().concat("::").concat(table)
}

/// The key of a table among the known table structures.
pub fn table_key(db_name: &str, table: &str) -> (key: String)
    ensures
        key@ == db_name@ + "::"@ + table@,
{
    db_name.to_owned().concat("::").concat(table)
}

/// The path of a message database below the database directory.
pub fn relative_path(name: &str) -> (path: String)
    ensures
        path@ == "message/"@ + name@,
{
    "message/".to_owned().concat(name)
}

/// The key in the watermarks of a table in a message database.
pub proof fn message_db_watermark_key(number: Seq<char>, table: Seq<char>)
    requires
        number.len() > 0,
        crate::number::only_digits(number),
    ensures
        message_db_name("message_"@ + number + ".db"@),
        watermark_key_of("message/"@ + ("message_"@ + number + ".db"@), table) == "message_"@ + number
            + "::"@ + table,
{
    reveal_strlit("message_");
    reveal_strlit("message/");
    reveal_strlit(".db");
    reveal_with_fuel(without_front, 2);
    reveal_with_fuel(without_back, 2);
    let name = "message_"@ + number + ".db"@;
    let path = "message/"@ + name;
    assert(name.subrange(0, 8) =~= "message_"@);
    assert(name.skip(8) =~= number + ".db"@);
    assert((number + ".db"@).subrange(number.len() as int, number.len() as int + 3) =~= ".db"@);
    assert((number + ".db"@).take(number.len() as int) =~= number);
    assert(path.subrange(0, 8) =~= "message/"@);
    assert(path.skip(8) =~= name);
    assert(name[7] == '_');
    assert(name.subrange(0, 8)[7] == '_');
    assert("message/"@[7] == '/');
    assert(name.subrange(name.len() - 3, name.len() as int) =~= ".db"@);
    let stem = "message_"@ + number;
    assert(name.take(name.len() - 3) =~= stem);
    assert(crate::text::ascii_digit(number.last()));
    assert(stem.last() == number.last());
    assert(stem.subrange(stem.len() - 3, stem.len() as int)[2] == number.last());
    assert(".db"@[2] == 'b');
}

/// Tables of message databases that are not the same have different keys in the watermarks.
pub proof fn watermark_keys_identify(
    number: Seq<char>,
    table: Seq<char>,
    other_number: Seq<char>,
    other_table: Seq<char>,
)
    requires
        number.len() > 0,
        crate::number::only_digits(number),
        other_number.len() > 0,
        crate::number::only_digits(other_number),
        watermark_key_of("message/"@ + ("message_"@ + number + ".db"@), table)
            == watermark_key_of("message/"@ + ("message_"@ + other_number + ".db"@), other_table),
    ensures
        number == other_number,
        table == other_table,
{
    message_db_watermark_key(number, table);
    message_db_watermark_key(other_number, other_table);
    reveal_strlit("message_");
    reveal_strlit("::");
    let key = "message_"@ + number + "::"@ + table;
    let n = 8 + number.len() as int;
    let m = 8 + other_number.len() as int;
    assert(key =~= "message_"@ + other_number + "::"@ + other_table);
    assert(key[n] == ':');
    assert(key[m] == ':');
    if n < m {
        assert(key[n] == other_number[n - 8]);
        assert(crate::text::ascii_digit(other_number[n - 8]));
    }
    if m < n {
        assert(key[m] == number[m - 8]);
        assert(crate::text::ascii_digit(number[m - 8]));
    }
    assert(number =~= key.subrange(8, n));
    assert(other_number =~= key.subrange(8, n));
    assert(table =~= key.skip(n + 2));
    assert(other_table =~= key.skip(n + 2));
}

// ---------------------------------------------------------------------------
// Columns
// ---------------------------------------------------------------------------

/// How a message table is queried.
#[derive(Debug)]
pub struct TableMeta {
    pub table: String,
    /// The rows after a given number, in order.
    pub select_sql: String,
    /// The rows from a given time on, oldest first.
    pub history_sql: String,
    /// The column with the number of a row.
    pub id_col: String,
}

/// What a [`TableMeta`] says.
pub struct MetaView {
    pub table: Seq<char>,
    pub select_sql: Seq<char>,
    pub history_sql: Seq<char>,
    pub id_col: Seq<char>,
}

impl View for TableMeta {
    type V = MetaView;

    open spec fn view(&self) -> MetaView {
        MetaView {
            table: self.table@,
            select_sql: self.select_sql@,
            history_sql: self.history_sql@,
            id_col: self.id_col@,
        }
    }
}

impl Clone for TableMeta {
    fn clone(&self) -> (copy: Self)
        ensures
            copy@ == self@,
    {
        TableMeta {
            table: self.table.clone(),
            select_sql: self.select_sql.clone(),
            history_sql: self.history_sql.clone(),
            id_col: self.id_col.clone(),
        }
    }
}

/// The names of a column, under which different versions of the client know it.
pub open spec fn has_name(column: Seq<char>, names: Seq<Seq<char>>) -> bool {
    exists|k: int|
        0 <= k < names.len() && crate::text::ascii_lowered(column) == crate::text::ascii_lowered(
            #[trigger] names[k],
        )
}

/// The first column that has one of the names, whatever its letters' case.
pub open spec fn column_named(columns: Seq<Seq<char>>, names: Seq<Seq<char>>) -> Option<Seq<char>>
    decreases columns.len(),
{
    if columns.len() == 0 {
        None
    } else if has_name(columns[0], names) {
        Some(columns[0])
    } else {
        column_named(columns.skip(1), names)
    }
}

pub open spec fn or_else_text(column: Option<Seq<char>>, other: Seq<char>) -> Seq<char> {
    match column {
        Some(c) => c,
        None => other,
    }
}

/// What is selected for each field of a message. A table without a content column holds
/// no messages; any other column that is missing has a constant in its place.
pub struct ColumnsView {
    pub id: Seq<char>,
    pub server: Seq<char>,
    pub time: Seq<char>,
    pub content: Seq<char>,
    pub kind: Seq<char>,
    pub talker: Seq<char>,
    pub status: Seq<char>,
    pub source: Seq<char>,
}

pub open spec fn id_names() -> Seq<Seq<char>> {
    seq!["local_id"@, "localId"@, "rowid"@]
}

pub open spec fn time_names() -> Seq<Seq<char>> {
    seq!["create_time"@, "createTime"@]
}

pub open spec fn content_names() -> Seq<Seq<char>> {
    seq!["message_content"@, "content"@, "msgContent"@, "compress_content"@]
}

pub open spec fn kind_names() -> Seq<Seq<char>> {
    seq!["local_type"@, "type"@, "msgType"@]
}

pub open spec fn talker_names() -> Seq<Seq<char>> {
    seq!["real_sender_id"@, "talker"@, "talkerId"@]
}

pub open spec fn server_names() -> Seq<Seq<char>> {
    seq!["server_id"@, "svrid"@, "msgSvrId"@]
}

/// What is selected from a table with these columns.
pub open spec fn selected_columns(columns: Seq<Seq<char>>) -> Option<ColumnsView> {
    match column_named(columns, content_names()) {
        Some(content) => Some(
            ColumnsView {
                id: or_else_text(column_named(columns, id_names()), "rowid"@),
                server: or_else_text(column_named(columns, server_names()), "0"@),
                time: or_else_text(column_named(columns, time_names()), "0"@),
                content,
                kind: or_else_text(column_named(columns, kind_names()), "0"@),
                talker: or_else_text(column_named(columns, talker_names()), "''"@),
                status: or_else_text(column_named(columns, seq!["status"@]), "0"@),
                source: or_else_text(column_named(columns, seq!["source"@]), "''"@),
            },
        ),
        None => None,
    }
}

/// The selection of all fields from a table, in their fixed order.
pub open spec fn select_clause(c: ColumnsView, table: Seq<char>) -> Seq<char> {
    "SELECT "@ + c.id + ", "@ + c.server + ", "@ + c.time + ", "@ + c.content + ", "@ + c.kind + ", "@
        + c.talker + ", "@ + c.status + ", "@ + c.source + " FROM ["@ + table + "] WHERE "@
}

/// How a table with these columns is queried.
pub open spec fn table_meta(table: Seq<char>, columns: Seq<Seq<char>>) -> Option<MetaView> {
    match selected_columns(columns) {
        Some(c) => Some(
            MetaView {
                table,
                select_sql: select_clause(c, table) + c.id + " > ?1 ORDER BY "@ + c.id + " ASC"@,
                history_sql: select_clause(c, table) + c.time + " >= ?1 ORDER BY "@ + c.time
                    + " ASC, "@ + c.id + " ASC"@,
                id_col: c.id,
            },
        ),
        None => None,
    }
}

pub open spec fn slices_view(names: Seq<&str>) -> Seq<Seq<char>> {
    names.map_values(|n: &str| n@)
}

fn name_matches(column: &str, names: &Vec<&str>) -> (found: bool)
    ensures
        found == has_name(column@, slices_view(names@)),
{
    let ghost all = slices_view(names@);
    let mut i: usize = 0;
    while i < names.len()
        invariant
            i <= names@.len(),
            all == slices_view(names@),
            forall|k: int|
                0 <= k < i ==> crate::text::ascii_lowered(column@) != crate::text::ascii_lowered(
                    #[trigger] all[k],
                ),
        decreases names@.len() - i,
    {
        let name: &str = names[i];
        proof {
            assert(all[i as int] == name@);
        }
        if eq_ignore_ascii_case(column, name) {
            return true;
        }
        i = i + 1;
    }
    false
}

fn find_column(columns: &Vec<String>, names: &Vec<&str>) -> (column: Option<String>)
    ensures
        crate::text::text_of(column) == column_named(
            crate::text::texts_of(columns@),
            slices_view(names@),
        ),
{
    let ghost all = crate::text::texts_of(columns@);
    let ghost wanted = slices_view(names@);
    let mut i: usize = 0;
    proof {
        assert(all.skip(0) =~= all);
    }
    while i < columns.len()
        invariant
            i <= columns@.len(),
            all == crate::text::texts_of(columns@),
            wanted == slices_view(names@),
            column_named(all, wanted) == column_named(all.skip(i as int), wanted),
        decreases columns@.len() - i,
    {
        proof {
            assert(all.skip(i as int)[0] == columns@[i as int]@);
            assert(all.skip(i as int).skip(1) =~= all.skip(i + 1));
        }
        if name_matches(columns[i].as_str(), names) {
            return Some(columns[i].clone());
        }
        i = i + 1;
    }
    None
}

fn column_or(column: Option<String>, other: &str) -> (text: String)
    ensures
        text@ == or_else_text(crate::text::text_of(column), other@),
{
    match column {
        Some(c) => c,
        None => other.to_owned(),
    }
}

fn find_id(columns: &Vec<String>) -> (column: String)
    ensures
        column@ == or_else_text(
            column_named(crate::text::texts_of(columns@), id_names()),
            "rowid"@,
        ),
{
    let names: Vec<&str> = vec!["local_id", "localId", "rowid"];
    proof {
        assert(slices_view(names@) =~= id_names());
    }
    column_or(find_column(columns, &names), "rowid")
}

fn find_time(columns: &Vec<String>) -> (column: String)
    ensures
        column@ == or_else_text(column_named(crate::text::texts_of(columns@), time_names()), "0"@),
{
    let names: Vec<&str> = vec!["create_time", "createTime"];
    proof {
        assert(slices_view(names@) =~= time_names());
    }
    column_or(find_column(columns, &names), "0")
}

fn find_content(columns: &Vec<String>) -> (column: Option<String>)
    ensures
        crate::text::text_of(column) == column_named(
            crate::text::texts_of(columns@),
            content_names(),
        ),
{
    let names: Vec<&str> = vec!["message_content", "content", "msgContent", "compress_content"];
    proof {
        assert(slices_view(names@) =~= content_names());
    }
    find_column(columns, &names)
}

fn find_kind(columns: &Vec<String>) -> (column: String)
    ensures
        column@ == or_else_text(column_named(crate::text::texts_of(columns@), kind_names()), "0"@),
{
    let names: Vec<&str> = vec!["local_type", "type", "msgType"];
    proof {
        assert(slices_view(names@) =~= kind_names());
    }
    column_or(find_column(columns, &names), "0")
}

fn find_talker(columns: &Vec<String>) -> (column: String)
    ensures
        column@ == or_else_text(
            column_named(crate::text::texts_of(columns@), talker_names()),
            "''"@,
        ),
{
    let names: Vec<&str> = vec!["real_sender_id", "talker", "talkerId"];
    proof {
        assert(slices_view(names@) =~= talker_names());
    }
    column_or(find_column(columns, &names), "''")
}

fn find_server(columns: &Vec<String>) -> (column: String)
    ensures
        column@ == or_else_text(column_named(crate::text::texts_of(columns@), server_names()), "0"@),
{
    let names: Vec<&str> = vec!["server_id", "svrid", "msgSvrId"];
    proof {
        assert(slices_view(names@) =~= server_names());
    }
    column_or(find_column(columns, &names), "0")
}

fn find_one(columns: &Vec<String>, name: &'static str, other: &str) -> (column: String)
    ensures
        column@ == or_else_text(
            column_named(crate::text::texts_of(columns@), seq![name@]),
            other@,
        ),
{
    let mut names: Vec<&str> = Vec::new();
    names.push(name);
    proof {
        assert(slices_view(names@) =~= seq![name@]);
    }
    column_or(find_column(columns, &names), other)
}

/// How a table with these columns is queried; `None` where it holds no messages.
pub fn build_single_table_meta(table: &str, columns: &Vec<String>) -> (meta: Option<TableMeta>)
    ensures
        match meta {
            Some(m) => table_meta(table@, crate::text::texts_of(columns@)) == Some(m@),
            None => table_meta(table@, crate::text::texts_of(columns@)) is None,
        },
{
    let id = find_id(columns);
    let time = find_time(columns);
    let content = match find_content(columns) {
        Some(c) => c,
        None => {
            return None;
        },
    };
    let kind = find_kind(columns);
    let talker = find_talker(columns);
    let server = find_server(columns);
    let status = find_one(columns, "status", "0");
    let source = find_one(columns, "source", "''");

    let select = "SELECT ".to_owned().concat(id.as_str()).concat(", ").concat(
        server.as_str(),
    ).concat(", ").concat(time.as_str()).concat(", ").concat(content.as_str()).concat(", ").concat(
        kind.as_str(),
    ).concat(", ").concat(talker.as_str()).concat(", ").concat(status.as_str()).concat(", ").concat(
        source.as_str(),
    ).concat(" FROM [").concat(table).concat("] WHERE ");
    let history_sql = select.clone().concat(time.as_str()).concat(" >= ?1 ORDER BY ").concat(
        time.as_str(),
    ).concat(" ASC, ").concat(id.as_str()).concat(" ASC");
    let select_sql = select.concat(id.as_str()).concat(" > ?1 ORDER BY ").concat(
        id.as_str(),
    ).concat(" ASC");
    Some(TableMeta { table: table.to_owned(), select_sql, history_sql, id_col: id })
}

/// The query for the greatest row number of a table.
pub fn max_id_sql(meta: &TableMeta) -> (sql: String)
    ensures
        sql@ == "SELECT MAX("@ + meta.id_col@ + ") FROM ["@ + meta.table@ + "]"@,
{
    "SELECT MAX(".to_owned().concat(meta.id_col.as_str()).concat(") FROM [").concat(
        meta.table.as_str(),
    ).concat("]")
}

// ---------------------------------------------------------------------------
// Whose messages a table holds
// ---------------------------------------------------------------------------

/// The row in the table of names that the name of a message table refers to.
pub open spec fn row_number(table: Seq<char>) -> Option<i64> {
    match crate::text::after_prefix(table, "ChatMsg_"@) {
        Some(suffix) => match crate::number::parsed_signed(
            suffix,
            i64::MIN as int,
            i64::MAX as int,
        ) {
            Some(n) => Some(n as i64),
            None => None,
        },
        None => None,
    }
}

/// The digest in the name of a message table.
pub open spec fn name_digest(table: Seq<char>) -> Option<Seq<char>> {
    if crate::text::has_prefix(table, "Msg_"@) {
        crate::text::after_prefix(table, "Msg_"@)
    } else if crate::text::has_prefix(table, "MSG_"@) {
        crate::text::after_prefix(table, "MSG_"@)
    } else {
        crate::text::after_prefix(table, "Chat_"@)
    }
}

/// The digest that the message tables of a name end with.
pub open spec fn digest_of(name: Seq<char>) -> Seq<char> {
    crate::outside::md5_hex(vstd::utf8::encode_utf8(name))
}

/// The known names and more names, each by the digest that its message tables end with.
pub open spec fn names_with(
    known: Seq<(Seq<char>, Seq<char>)>,
    names: Seq<Seq<char>>,
) -> Seq<(Seq<char>, Seq<char>)>
    decreases names.len(),
{
    if names.len() == 0 {
        known
    } else {
        crate::textmap::with_value(
            names_with(known, names.drop_last()),
            digest_of(names.last()),
            names.last(),
        )
    }
}

/// Whether each name stands under its digest.
pub open spec fn names_are_filed(known: Seq<(Seq<char>, Seq<char>)>) -> bool {
    forall|digest: Seq<char>| #[trigger]
        crate::textmap::value_of(known, digest) is Some ==> digest_of(
            crate::textmap::value_of(known, digest)->0,
        ) == digest
}

/// The conversation of a message table: the name in the row that the table's name refers
/// to, else the name whose digest it ends with, else the name of the table.
pub open spec fn conversation_of(
    table: Seq<char>,
    row_name: Option<Seq<char>>,
    names: Seq<(Seq<char>, Seq<char>)>,
) -> Seq<char> {
    if row_number(table) is Some && row_name is Some {
        row_name->0
    } else {
        match name_digest(table) {
            Some(digest) => match crate::textmap::value_of(names, digest) {
                Some(name) => name,
                None => table,
            },
            None => table,
        }
    }
}

/// The row in the table of names that has to be read for a message table.
pub fn chat_row_number(table: &str) -> (number: Option<i64>)
    ensures
        number == row_number(table@),
{
    match strip_prefix(table, "ChatMsg_") {
        Some(suffix) => parse_i64(suffix),
        None => None,
    }
}

fn table_digest<'a>(table: &'a str) -> (digest: Option<&'a str>)
    ensures
        match digest {
            Some(d) => name_digest(table@) == Some(d@),
            None => name_digest(table@) is None,
        },
{
    match strip_prefix(table, "Msg_") {
        Some(digest) => Some(digest),
        None => match strip_prefix(table, "MSG_") {
            Some(digest) => Some(digest),
            None => strip_prefix(table, "Chat_"),
        },
    }
}

/// Whether the names of a database have to be read before a table can be resolved.
pub open spec fn names_are_needed(
    table: Seq<char>,
    row_name: Option<Seq<char>>,
    names: Seq<(Seq<char>, Seq<char>)>,
) -> bool {
    !(row_number(table) is Some && row_name is Some) && name_digest(table) is Some
        && crate::textmap::value_of(names, name_digest(table)->0) is None
}

/// Whether the names of a database have to be read before a table can be resolved: it is
/// named after the digest of a name that is not known yet.
pub fn needs_names(table: &str, row_name: Option<&str>, names: &TextMap<String>) -> (needed: bool)
    requires
        names.wf(),
    ensures
        needed == names_are_needed(
            table@,
            match row_name {
                Some(name) => Some(name@),
                None => None,
            },
            names@,
        ),
{
    if chat_row_number(table).is_some() && row_name.is_some() {
        return false;
    }
    match table_digest(table) {
        Some(digest) => names.get(digest).is_none(),
        None => false,
    }
}

/// The names by the digest that message tables are named after.
pub fn digest_names(names: &Vec<String>) -> (map: TextMap<String>)
    ensures
        map.wf(),
        map@ == names_with(seq![], crate::text::texts_of(names@)),
{
    let mut map: TextMap<String> = TextMap::new();
    add_names(&mut map, names);
    map
}

/// Adds the names of a database to the known ones.
pub fn add_names(map: &mut TextMap<String>, names: &Vec<String>)
    requires
        old(map).wf(),
    ensures
        final(map).wf(),
        final(map)@ == names_with(old(map)@, crate::text::texts_of(names@)),
{
    let ghost known = map@;
    let ghost all = crate::text::texts_of(names@);
    let mut i: usize = 0;
    proof {
        assert(all.take(0) =~= seq![]);
    }
    while i < names.len()
        invariant
            i <= names@.len(),
            all == crate::text::texts_of(names@),
            map.wf(),
            map@ == names_with(known, all.take(i as int)),
        decreases names@.len() - i,
    {
        proof {
            assert(all.take(i + 1).drop_last() =~= all.take(i as int));
            assert(all.take(i + 1).last() == names@[i as int]@);
        }
        let digest = md5_text(names[i].as_str().as_bytes());
        map.insert(digest, names[i].clone());
        i = i + 1;
    }
    proof {
        assert(all.take(all.len() as int) =~= all);
    }
}

proof fn lemma_names_with(
    known: Seq<(Seq<char>, Seq<char>)>,
    names: Seq<Seq<char>>,
    digest: Seq<char>,
)
    ensures
        match crate::textmap::value_of(names_with(known, names), digest) {
            Some(name) => (digest_of(name) == digest && names.contains(name))
                || crate::textmap::value_of(known, digest) == Some(name),
            None => crate::textmap::value_of(known, digest) is None,
        },
        forall|k: int|
            0 <= k < names.len() && digest_of(#[trigger] names[k]) == digest ==> {
                let found = crate::textmap::value_of(names_with(known, names), digest);
                found is Some && digest_of(found->0) == digest && names.contains(found->0)
            },
    decreases names.len(),
{
    if names.len() > 0 {
        let rest = names.drop_last();
        lemma_names_with(known, rest, digest);
        crate::textmap::put_then_get(
            names_with(known, rest),
            digest_of(names.last()),
            names.last(),
            digest,
        );
        assert(names[names.len() - 1] == names.last());
        assert forall|name: Seq<char>| rest.contains(name) implies names.contains(name) by {
            let k = choose|k: int| 0 <= k < rest.len() && rest[k] == name;
            assert(names[k] == name);
        }
        assert forall|k: int|
            0 <= k < names.len() && digest_of(#[trigger] names[k]) == digest implies ({
            let found = crate::textmap::value_of(names_with(known, names), digest);
            found is Some && digest_of(found->0) == digest && names.contains(found->0)
        }) by {
            if k < rest.len() {
                assert(digest_of(rest[k]) == digest);
            }
        }
    }
}

/// A table that is named after the digest of a name in its database is the conversation of
/// that name, whatever names of other databases were known before: after the database's
/// names were added, if they had to be, the conversation has that digest, and it is the
/// name itself where no other has the same.
pub proof fn tables_are_found_by_digest(
    table: Seq<char>,
    known: Seq<(Seq<char>, Seq<char>)>,
    names: Seq<Seq<char>>,
    name: Seq<char>,
)
    requires
        name_digest(table) == Some(digest_of(name)),
        names_are_filed(known),
        names.contains(name),
    ensures
        ({
            let digest = digest_of(name);
            let asked = crate::textmap::value_of(known, digest) is None;
            let now = if asked {
                names_with(known, names)
            } else {
                known
            };
            let chat = conversation_of(table, None, now);
            &&& names_are_filed(now)
            &&& digest_of(chat) == digest
            &&& (forall|other: Seq<char>| #[trigger] digest_of(other) == digest ==> other == name)
                ==> chat == name
        }),
{
    let digest = digest_of(name);
    lemma_names_with(known, names, digest);
    let k = choose|k: int| 0 <= k < names.len() && names[k] == name;
    assert(digest_of(names[k]) == digest);
    let now = if crate::textmap::value_of(known, digest) is None {
        names_with(known, names)
    } else {
        known
    };
    assert forall|d: Seq<char>| #[trigger]
        crate::textmap::value_of(now, d) is Some implies digest_of(
        crate::textmap::value_of(now, d)->0,
    ) == d by {
        lemma_names_with(known, names, d);
    }
}

/// The conversation of a message table. `row_name` is what the table of names holds in
/// the row that [`chat_row_number`] gives.
pub fn resolve_chat_from_table(
    table: &str,
    row_name: Option<&str>,
    names: &TextMap<String>,
) -> (chat: String)
    requires
        names.wf(),
    ensures
        chat@ == conversation_of(
            table@,
            match row_name {
                Some(name) => Some(name@),
                None => None,
            },
            names@,
        ),
{
    if chat_row_number(table).is_some() {
        if let Some(name) = row_name {
            return name.to_owned();
        }
    }
    if let Some(digest) = table_digest(table) {
        if let Some(name) = names.get(digest) {
            return name.clone();
        }
    }
    table.to_owned()
}

// ---------------------------------------------------------------------------
// Laws of tables
// ---------------------------------------------------------------------------

/// A message database is named `message_`, a number and `.db`, and nothing else is one.
pub proof fn message_databases_are_numbered(name: Seq<char>)
    ensures
        message_db_name(name) <==> exists|number: Seq<char>|
            name == #[trigger] ("message_"@ + number + ".db"@) && number.len() > 0 && forall|k: int|
                0 <= k < number.len() ==> '0' <= #[trigger] number[k] <= '9',
{
    reveal_strlit("message_");
    reveal_strlit(".db");
    if message_db_name(name) {
        let rest = name.skip(8);
        let number = rest.take(rest.len() - 3);
        assert(name =~= "message_"@ + number + ".db"@) by {
            assert(name =~= name.subrange(0, 8) + rest);
            assert(rest =~= number + rest.subrange(rest.len() - 3, rest.len() as int));
        }
        assert forall|k: int| 0 <= k < number.len() implies '0' <= #[trigger] number[k] <= '9' by {
            assert(crate::text::ascii_digit(number[k]));
        }
    }
    if exists|number: Seq<char>|
        name == #[trigger] ("message_"@ + number + ".db"@) && number.len() > 0 && forall|k: int|
            0 <= k < number.len() ==> '0' <= #[trigger] number[k] <= '9' {
        let number = choose|number: Seq<char>|
            name == #[trigger] ("message_"@ + number + ".db"@) && number.len() > 0 && forall|k: int|
                0 <= k < number.len() ==> '0' <= #[trigger] number[k] <= '9';
        assert forall|k: int| 0 <= k < number.len() implies crate::text::ascii_digit(
            #[trigger] number[k],
        ) by {
            assert('0' <= number[k] <= '9');
        }
        message_db_watermark_key(number, seq![]);
    }
}

proof fn lemma_column_named(columns: Seq<Seq<char>>, names: Seq<Seq<char>>, i: int)
    requires
        0 <= i <= columns.len(),
        i < columns.len() ==> has_name(columns[i], names),
        forall|k: int| 0 <= k < i ==> !has_name(#[trigger] columns[k], names),
    ensures
        column_named(columns, names) == if i < columns.len() {
            Some(columns[i])
        } else {
            None
        },
    decreases i,
{
    if i > 0 {
        let rest = columns.skip(1);
        assert(!has_name(columns[0], names));
        assert forall|k: int| 0 <= k < i - 1 implies !has_name(#[trigger] rest[k], names) by {
            assert(rest[k] == columns[k + 1]);
        }
        lemma_column_named(rest, names, i - 1);
    }
}

/// Whether a column has that name, whatever the case of its letters.
pub open spec fn is_column(column: Seq<char>, name: Seq<char>) -> bool {
    crate::text::ascii_lowered(column) == crate::text::ascii_lowered(name)
}

/// Whether the column at `i` is the first that has one of two or three names.
pub open spec fn is_first_of(
    columns: Seq<Seq<char>>,
    i: int,
    name: Seq<char>,
    names: Seq<Seq<char>>,
) -> bool {
    &&& 0 <= i < columns.len()
    &&& is_column(columns[i], name)
    &&& forall|k: int, n: int|
        #![trigger columns[k], names[n]]
        0 <= k < i && 0 <= n < names.len() ==> !is_column(columns[k], names[n])
}

proof fn lemma_first_of(
    columns: Seq<Seq<char>>,
    i: int,
    name: Seq<char>,
    names: Seq<Seq<char>>,
    n: int,
)
    requires
        is_first_of(columns, i, name, names),
        0 <= n < names.len(),
        names[n] == name,
    ensures
        column_named(columns, names) == Some(columns[i]),
{
    assert(has_name(columns[i], names));
    assert forall|k: int| 0 <= k < i implies !has_name(#[trigger] columns[k], names) by {
        if has_name(columns[k], names) {
            let m = choose|m: int|
                0 <= m < names.len() && crate::text::ascii_lowered(columns[k])
                    == crate::text::ascii_lowered(#[trigger] names[m]);
            assert(!is_column(columns[k], names[m]));
        }
    }
    lemma_column_named(columns, names, i);
}

/// What is selected for a field is the first column that has one of the field's names, in
/// whichever case: the row's number from `local_id`, the server's from `server_id`, the
/// time from `create_time`, the text from `message_content`, the type from `local_type`,
/// the sender from `real_sender_id`, the status and the metadata from the columns of these
/// names.
pub proof fn fields_are_selected_by_name(columns: Seq<Seq<char>>, i: int)
    requires
        selected_columns(columns) is Some,
    ensures
        ({
            let c = selected_columns(columns)->0;
            let ids = seq!["local_id"@, "localId"@, "rowid"@];
            let servers = seq!["server_id"@, "svrid"@, "msgSvrId"@];
            let times = seq!["create_time"@, "createTime"@];
            let contents = seq![
                "message_content"@,
                "content"@,
                "msgContent"@,
                "compress_content"@,
            ];
            let kinds = seq!["local_type"@, "type"@, "msgType"@];
            let talkers = seq!["real_sender_id"@, "talker"@, "talkerId"@];
            &&& is_first_of(columns, i, "local_id"@, ids) ==> c.id == columns[i]
            &&& is_first_of(columns, i, "localId"@, ids) ==> c.id == columns[i]
            &&& is_first_of(columns, i, "server_id"@, servers) ==> c.server == columns[i]
            &&& is_first_of(columns, i, "msgSvrId"@, servers) ==> c.server == columns[i]
            &&& is_first_of(columns, i, "create_time"@, times) ==> c.time == columns[i]
            &&& is_first_of(columns, i, "createTime"@, times) ==> c.time == columns[i]
            &&& is_first_of(columns, i, "message_content"@, contents) ==> c.content == columns[i]
            &&& is_first_of(columns, i, "content"@, contents) ==> c.content == columns[i]
            &&& is_first_of(columns, i, "compress_content"@, contents) ==> c.content == columns[i]
            &&& is_first_of(columns, i, "local_type"@, kinds) ==> c.kind == columns[i]
            &&& is_first_of(columns, i, "type"@, kinds) ==> c.kind == columns[i]
            &&& is_first_of(columns, i, "real_sender_id"@, talkers) ==> c.talker == columns[i]
            &&& is_first_of(columns, i, "talker"@, talkers) ==> c.talker == columns[i]
            &&& is_first_of(columns, i, "status"@, seq!["status"@]) ==> c.status == columns[i]
            &&& is_first_of(columns, i, "source"@, seq!["source"@]) ==> c.source == columns[i]
        }),
{
    let ids = id_names();
    let servers = server_names();
    let times = time_names();
    let contents = content_names();
    let kinds = kind_names();
    let talkers = talker_names();
    if is_first_of(columns, i, "local_id"@, ids) {
        lemma_first_of(columns, i, "local_id"@, ids, 0);
    }
    if is_first_of(columns, i, "localId"@, ids) {
        lemma_first_of(columns, i, "localId"@, ids, 1);
    }
    if is_first_of(columns, i, "server_id"@, servers) {
        lemma_first_of(columns, i, "server_id"@, servers, 0);
    }
    if is_first_of(columns, i, "msgSvrId"@, servers) {
        lemma_first_of(columns, i, "msgSvrId"@, servers, 2);
    }
    if is_first_of(columns, i, "create_time"@, times) {
        lemma_first_of(columns, i, "create_time"@, times, 0);
    }
    if is_first_of(columns, i, "createTime"@, times) {
        lemma_first_of(columns, i, "createTime"@, times, 1);
    }
    if is_first_of(columns, i, "message_content"@, contents) {
        lemma_first_of(columns, i, "message_content"@, contents, 0);
    }
    if is_first_of(columns, i, "content"@, contents) {
        lemma_first_of(columns, i, "content"@, contents, 1);
    }
    if is_first_of(columns, i, "compress_content"@, contents) {
        lemma_first_of(columns, i, "compress_content"@, contents, 3);
    }
    if is_first_of(columns, i, "local_type"@, kinds) {
        lemma_first_of(columns, i, "local_type"@, kinds, 0);
    }
    if is_first_of(columns, i, "type"@, kinds) {
        lemma_first_of(columns, i, "type"@, kinds, 1);
    }
    if is_first_of(columns, i, "real_sender_id"@, talkers) {
        lemma_first_of(columns, i, "real_sender_id"@, talkers, 0);
    }
    if is_first_of(columns, i, "talker"@, talkers) {
        lemma_first_of(columns, i, "talker"@, talkers, 1);
    }
    if is_first_of(columns, i, "status"@, seq!["status"@]) {
        lemma_first_of(columns, i, "status"@, seq!["status"@], 0);
    }
    if is_first_of(columns, i, "source"@, seq!["source"@]) {
        lemma_first_of(columns, i, "source"@, seq!["source"@], 0);
    }
}

/// A table holds messages only where it has a column for their text; what else is missing
/// is selected as nothing.
pub proof fn missing_fields_are_selected_as_nothing(table: Seq<char>, columns: Seq<Seq<char>>)
    ensures
        (forall|k: int| 0 <= k < columns.len() ==> !has_name(#[trigger] columns[k], content_names()))
            <==> table_meta(table, columns) is None,
        selected_columns(columns) is Some ==> {
            let c = selected_columns(columns)->0;
            &&& column_named(columns, id_names()) is None ==> c.id == "rowid"@
            &&& column_named(columns, server_names()) is None ==> c.server == "0"@
            &&& column_named(columns, time_names()) is None ==> c.time == "0"@
            &&& column_named(columns, kind_names()) is None ==> c.kind == "0"@
            &&& column_named(columns, talker_names()) is None ==> c.talker == "''"@
        },
{
    if forall|k: int| 0 <= k < columns.len() ==> !has_name(#[trigger] columns[k], content_names()) {
        lemma_column_named(columns, content_names(), columns.len() as int);
    }
    if table_meta(table, columns) is None {
        lemma_none_named(columns, content_names());
    }
}

proof fn lemma_none_named(columns: Seq<Seq<char>>, names: Seq<Seq<char>>)
    requires
        column_named(columns, names) is None,
    ensures
        forall|k: int| 0 <= k < columns.len() ==> !has_name(#[trigger] columns[k], names),
    decreases columns.len(),
{
    if columns.len() > 0 {
        let rest = columns.skip(1);
        lemma_none_named(rest, names);
        assert forall|k: int| 0 <= k < columns.len() implies !has_name(
            #[trigger] columns[k],
            names,
        ) by {
            if k > 0 {
                assert(rest[k - 1] == columns[k]);
            }
        }
    }
}

/// The queries of a table ask for the fields in one order, for the rows behind a number by
/// their number, and for the rows from a time on by their time and number.
pub proof fn tables_are_queried_in_one_order(table: Seq<char>, columns: Seq<Seq<char>>)
    requires
        table_meta(table, columns) is Some,
    ensures
        ({
            let c = selected_columns(columns)->0;
            let meta = table_meta(table, columns)->0;
            let fields = "SELECT "@ + c.id + ", "@ + c.server + ", "@ + c.time + ", "@ + c.content
                + ", "@ + c.kind + ", "@ + c.talker + ", "@ + c.status + ", "@ + c.source
                + " FROM ["@ + table + "] WHERE "@;
            &&& meta.table == table
            &&& meta.id_col == c.id
            &&& meta.select_sql == fields + c.id + " > ?1 ORDER BY "@ + c.id + " ASC"@
            &&& meta.history_sql == fields + c.time + " >= ?1 ORDER BY "@ + c.time + " ASC, "@
                + c.id + " ASC"@
        }),
{
}

/// A table that is named after a row of the table of names is the conversation of that row,
/// one that is named after a digest that of the name with the digest; and a table of which
/// neither is known stands for itself.
pub proof fn tables_are_named_after_their_conversation(
    n: i64,
    digest: Seq<char>,
    row_name: Seq<char>,
    names: Seq<(Seq<char>, Seq<char>)>,
)
    ensures
        row_number("ChatMsg_"@ + crate::number::decimal(n as int)) == Some(n),
        conversation_of(
            "ChatMsg_"@ + crate::number::decimal(n as int),
            Some(row_name),
            names,
        ) == row_name,
        name_digest("Msg_"@ + digest) == Some(digest),
        name_digest("MSG_"@ + digest) == Some(digest),
        name_digest("Chat_"@ + digest) == Some(digest),
        crate::textmap::value_of(names, digest) is Some ==> conversation_of(
            "Msg_"@ + digest,
            None,
            names,
        ) == crate::textmap::value_of(names, digest)->0,
        crate::textmap::value_of(names, digest) is None ==> conversation_of(
            "Msg_"@ + digest,
            None,
            names,
        ) == "Msg_"@ + digest,
        crate::textmap::value_of(names, digest) is None <==> names_are_needed(
            "Msg_"@ + digest,
            None,
            names,
        ),
        !names_are_needed(
            "ChatMsg_"@ + crate::number::decimal(n as int),
            Some(row_name),
            names,
        ),
{
    reveal_strlit("ChatMsg_");
    reveal_strlit("Msg_");
    reveal_strlit("MSG_");
    reveal_strlit("Chat_");
    crate::number::decimal_reads_back(n as int);
    let text = crate::number::decimal(n as int);
    let a = "ChatMsg_"@ + text;
    assert(a.subrange(0, 8) =~= "ChatMsg_"@);
    assert(a.skip(8) =~= text);
    let b = "Msg_"@ + digest;
    assert(b.subrange(0, 4) =~= "Msg_"@);
    assert(b.skip(4) =~= digest);
    let c = "MSG_"@ + digest;
    assert(c.subrange(0, 4) =~= "MSG_"@);
    assert(c.skip(4) =~= digest);
    assert(c.subrange(0, 4)[1] == 'S');
    assert("Msg_"@[1] == 's');
    let d = "Chat_"@ + digest;
    assert(d.subrange(0, 5) =~= "Chat_"@);
    assert(d.skip(5) =~= digest);
    assert(d[0] == 'C');
    assert(d.len() >= 4 ==> d.subrange(0, 4)[0] == 'C');
    assert("Msg_"@[0] == 'M');
    assert("MSG_"@[0] == 'M');
}

} // verus!
