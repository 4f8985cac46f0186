//! Typed commands of the interactive client (`CREATE TABLE`, `INSERT INTO`,
//! `SELECT`, `UPDATE`, `RENAME TABLE`, `DROP TABLE`, `EXIT`), read into the
//! requests that the engine consumes.
use vstd::prelude::*;

use crate::request_types::{
    Condition, CreateTableRequests, DropTableRequest, InsertColumnRequest, RenameTableRequest,
    SelectRequest, UpdateColumnRequest, UpdateRequest,
};
use crate::text::{
    find_char, find_text, int_text_value, join_words, joined, parse_int, pieces, position_of_char,
    position_of_text, same_text, slice, split_at_char, split_words, string_of, texts, trim, trim_all,
    trimmed, upper_of, uppercase, words, Trim,
};
use crate::value::Value;

verus! {

/// Why a typed command could not be read.
#[derive(Debug, Clone, Copy, PartialEq, Eq)]
pub enum CommandError {
    InvalidCommand,
    UnknownCommand,
    CreateTableSyntax,
    ColumnDefinitionSyntax,
    UnsupportedColumnType,
    InsertSyntax,
    MissingOpeningParenthesis,
    MissingClosingParenthesis,
    MissingValuesOpeningParenthesis,
    MissingValuesClosingParenthesis,
    ColumnCountMismatch,
    MissingColumns,
    MissingFromKeyword,
    MissingTableName,
    IncompleteWhereClause,
    UpdateSyntax,
    UpdateClauseSyntax,
    RenameSyntax,
    DropSyntax,
}

/// The words that commands are made of.
#[derive(Clone, Copy)]
pub enum Keyword {
    Create,
    Insert,
    Select,
    Update,
    Rename,
    Drop,
    Exit,
    Table,
    Into,
    Values,
    From,
    Where,
    SetClause,
    Int,
    Float,
    Text,
    Bool,
}

pub open spec fn kw(k: Keyword) -> Seq<char> {
    match k {
        Keyword::Create => seq!['C', 'R', 'E', 'A', 'T', 'E'],
        Keyword::Insert => seq!['I', 'N', 'S', 'E', 'R', 'T'],
        Keyword::Select => seq!['S', 'E', 'L', 'E', 'C', 'T'],
        Keyword::Update => seq!['U', 'P', 'D', 'A', 'T', 'E'],
        Keyword::Rename => seq!['R', 'E', 'N', 'A', 'M', 'E'],
        Keyword::Drop => seq!['D', 'R', 'O', 'P'],
        Keyword::Exit => seq!['E', 'X', 'I', 'T'],
        Keyword::Table => seq!['T', 'A', 'B', 'L', 'E'],
        Keyword::Into => seq!['I', 'N', 'T', 'O'],
        Keyword::Values => seq!['V', 'A', 'L', 'U', 'E', 'S'],
        Keyword::From => seq!['F', 'R', 'O', 'M'],
        Keyword::Where => seq!['W', 'H', 'E', 'R', 'E'],
        Keyword::SetClause => seq!['S', 'E', 'T'],
        Keyword::Int => seq!['I', 'N', 'T'],
        Keyword::Float => seq!['F', 'L', 'O', 'A', 'T'],
        Keyword::Text => seq!['S', 'T', 'R', 'I', 'N', 'G'],
        Keyword::Bool => seq!['B', 'O', 'O', 'L'],
    }
}

fn keyword(k: Keyword) -> (r: Vec<char>)
    ensures
        r@ == kw(k),
{
    let r = match k {
        Keyword::Create => vec!['C', 'R', 'E', 'A', 'T', 'E'],
        Keyword::Insert => vec!['I', 'N', 'S', 'E', 'R', 'T'],
        Keyword::Select => vec!['S', 'E', 'L', 'E', 'C', 'T'],
        Keyword::Update => vec!['U', 'P', 'D', 'A', 'T', 'E'],
        Keyword::Rename => vec!['R', 'E', 'N', 'A', 'M', 'E'],
        Keyword::Drop => vec!['D', 'R', 'O', 'P'],
        Keyword::Exit => vec!['E', 'X', 'I', 'T'],
        Keyword::Table => vec!['T', 'A', 'B', 'L', 'E'],
        Keyword::Into => vec!['I', 'N', 'T', 'O'],
        Keyword::Values => vec!['V', 'A', 'L', 'U', 'E', 'S'],
        Keyword::From => vec!['F', 'R', 'O', 'M'],
        Keyword::Where => vec!['W', 'H', 'E', 'R', 'E'],
        Keyword::SetClause => vec!['S', 'E', 'T'],
        Keyword::Int => vec!['I', 'N', 'T'],
        Keyword::Float => vec!['F', 'L', 'O', 'A', 'T'],
        Keyword::Text => vec!['S', 'T', 'R', 'I', 'N', 'G'],
        Keyword::Bool => vec!['B', 'O', 'O', 'L'],
    };
    assert(r@ =~= kw(k));
    r
}

/// Whether a word is exactly the keyword.
fn is_keyword(w: &Vec<char>, k: Keyword) -> (r: bool)
    ensures
        r == (w@ == kw(k)),
{
    same_text(w, &keyword(k))
}

/// Whether a word, in upper case, is the keyword.
fn upper_is(w: &Vec<char>, k: Keyword) -> (r: bool)
    ensures
        r == (upper_of(w@) == kw(k)),
{
    same_text(&uppercase(w), &keyword(k))
}

/// The position of the first word that is the keyword in upper case.
pub open spec fn find_upper(ws: Seq<Seq<char>>, k: Keyword) -> Option<int>
    decreases ws.len(),
{
    if ws.len() == 0 {
        None
    } else if upper_of(ws[0]) == kw(k) {
        Some(0)
    } else {
        match find_upper(ws.drop_first(), k) {
            Some(i) => Some(i + 1),
            None => None,
        }
    }
}

pub proof fn lemma_find_upper(ws: Seq<Seq<char>>, k: Keyword)
    ensures
        find_upper(ws, k) matches Some(i) ==> 0 <= i < ws.len() && upper_of(ws[i]) == kw(k) && forall|
            j: int,
        |
            0 <= j < i ==> upper_of(#[trigger] ws[j]) != kw(k),
        find_upper(ws, k) is None ==> forall|j: int| 0 <= j < ws.len() ==> upper_of(#[trigger] ws[j]) != kw(k),
    decreases ws.len(),
{
    if ws.len() > 0 {
        lemma_find_upper(ws.drop_first(), k);
        assert forall|j: int| 0 < j < ws.len() implies #[trigger] ws[j] == ws.drop_first()[j - 1] by {}
    }
}

/// Finds, from position `from` on, the first word that is the keyword in
/// upper case; the result counts from `from`.
fn position_upper(ws: &Vec<Vec<char>>, from: usize, k: Keyword) -> (r: Option<usize>)
    requires
        from <= ws@.len(),
    ensures
        r matches Some(i) ==> find_upper(texts(ws@).skip(from as int), k) == Some(i as int),
        r is None ==> find_upper(texts(ws@).skip(from as int), k) is None,
{
    let ghost rest = texts(ws@).skip(from as int);
    let mut i: usize = from;
    while i < ws.len()
        invariant
            from <= i <= ws@.len(),
            rest == texts(ws@).skip(from as int),
            forall|j: int| 0 <= j < i - from ==> upper_of(#[trigger] rest[j]) != kw(k),
        decreases ws@.len() - i,
    {
        if upper_is(&ws[i], k) {
            proof {
                assert(rest[i - from] == ws@[i as int]@);
                lemma_find_upper(rest, k);
            }
            return Some(i - from);
        }
        assert(rest[i - from] == ws@[i as int]@);
        i = i + 1;
    }
    proof {
        lemma_find_upper(rest, k);
    }
    None
}

/// The texts of a list of strings.
pub open spec fn strings_view(v: Seq<String>) -> Seq<Seq<char>> {
    v.map_values(|s: String| s@)
}

pub open spec fn condition_view(c: Option<Condition>) -> Option<(Seq<char>, Seq<char>)> {
    match c {
        Some(c) => Some((c.column@, c.value@)),
        None => None,
    }
}

/// What a command asks for, as texts.
pub enum CommandView {
    CreateTable { name: Seq<char>, keys: Seq<Seq<char>> },
    InsertRow { table_name: Seq<char>, values: Seq<Seq<char>> },
    Select {
        table_name: Seq<char>,
        columns: Option<Seq<Seq<char>>>,
        condition: Option<(Seq<char>, Seq<char>)>,
    },
    Update {
        table_name: Seq<char>,
        updates: Seq<(Seq<char>, Seq<char>)>,
        condition: Option<(Seq<char>, Seq<char>)>,
    },
    Rename { current_name: Seq<char>, new_name: Seq<char> },
    Drop { name: Seq<char> },
    Exit,
}

/// A command read from text. An inserted row is given as the texts of its
/// values, to be read with `literal`.
#[derive(Debug)]
pub enum Command {
    CreateTable(CreateTableRequests),
    InsertRow { table_name: String, values: Vec<String> },
    Select(SelectRequest),
    Update(UpdateRequest),
    Rename(RenameTableRequest),
    Drop(DropTableRequest),
    Exit,
}

impl View for Command {
    type V = CommandView;

    open spec fn view(&self) -> CommandView {
        match self {
            Command::CreateTable(r) => CommandView::CreateTable {
                name: r.name@,
                keys: r.insert_column_requests@.map_values(|q: InsertColumnRequest| q.key@),
            },
            Command::InsertRow { table_name, values } => CommandView::InsertRow {
                table_name: table_name@,
                values: strings_view(values@),
            },
            Command::Select(r) => CommandView::Select {
                table_name: r.table_name@,
                columns: match r.columns {
                    Some(v) => Some(strings_view(v@)),
                    None => None,
                },
                condition: condition_view(r.condition),
            },
            Command::Update(r) => CommandView::Update {
                table_name: r.table_name@,
                updates: r.updates@.map_values(|u: UpdateColumnRequest| (u.column@, u.value@)),
                condition: condition_view(r.condition),
            },
            Command::Rename(r) => CommandView::Rename { current_name: r.current_name@, new_name: r.new_name@ },
            Command::Drop(r) => CommandView::Drop { name: r.name@ },
            Command::Exit => CommandView::Exit,
        }
    }
}

/// A column request as a `CREATE TABLE` command makes it: for the named
/// table, with no constraint and no foreign key.
pub open spec fn plain_request(q: InsertColumnRequest, table: Seq<char>) -> bool {
    q.table_name@ == table && !q.primary_key && !q.non_null && !q.unique && q.foreign_key is None
}

impl Command {
    /// Every column request of a `CREATE TABLE` command is plain.
    pub open spec fn plain(&self) -> bool {
        match self {
            Command::CreateTable(r) => forall|k: int|
                0 <= k < r.insert_column_requests@.len() ==> plain_request(
                    #[trigger] r.insert_column_requests@[k],
                    r.name@,
                ),
            _ => true,
        }
    }
}

/// The text of `CREATE TABLE`'s column list: after the first `(`, up to the
/// next `(` or `)`.
pub open spec fn column_part(s: Seq<char>, p: int) -> Seq<char> {
    let after = s.skip(p + 1);
    let seg = match find_char(after, '(') {
        Some(q) => after.take(q),
        None => after,
    };
    match find_char(seg, ')') {
        Some(q) => seg.take(q),
        None => seg,
    }
}

pub open spec fn is_column_type(u: Seq<char>) -> bool {
    u == kw(Keyword::Int) || u == kw(Keyword::Float) || u == kw(Keyword::Text) || u == kw(Keyword::Bool)
}

/// The keys of column definitions (`name TYPE`), in order, or the first
/// definition's fault.
pub open spec fn column_definitions(cols: Seq<Seq<char>>) -> Result<Seq<Seq<char>>, CommandError>
    decreases cols.len(),
{
    if cols.len() == 0 {
        Ok(Seq::empty())
    } else {
        match column_definitions(cols.drop_last()) {
            Err(e) => Err(e),
            Ok(keys) => {
                let ws = words(cols.last());
                if ws.len() < 2 {
                    Err(CommandError::ColumnDefinitionSyntax)
                } else if !is_column_type(upper_of(ws[1])) {
                    Err(CommandError::UnsupportedColumnType)
                } else {
                    Ok(keys.push(ws[0]))
                }
            },
        }
    }
}

/// The comma-separated, trimmed items of `s[lo..hi]` (itself trimmed first).
pub open spec fn list_items(s: Seq<char>, lo: int, hi: int) -> Seq<Seq<char>> {
    pieces(trimmed(s.subrange(lo, hi), Trim::Space), ',').map_values(|w: Seq<char>| trimmed(w, Trim::Space))
}

/// `CREATE TABLE name (column TYPE, ...)`
pub open spec fn create_spec(s: Seq<char>, parts: Seq<Seq<char>>) -> Result<CommandView, CommandError> {
    if parts.len() <= 2 || parts[1] != kw(Keyword::Table) {
        Err(CommandError::CreateTableSyntax)
    } else {
        match find_char(s, '(') {
            None => Err(CommandError::CreateTableSyntax),
            Some(p) => match column_definitions(
                pieces(column_part(s, p), ',').map_values(|w: Seq<char>| trimmed(w, Trim::Space)),
            ) {
                Err(e) => Err(e),
                Ok(keys) => Ok(CommandView::CreateTable { name: parts[2], keys }),
            },
        }
    }
}

/// The text after the first `VALUES`, up to the next one.
pub open spec fn values_part(s: Seq<char>) -> Option<Seq<char>> {
    match find_text(s, kw(Keyword::Values)) {
        None => None,
        Some(v) => {
            let rest = s.skip(v + 6);
            Some(
                match find_text(rest, kw(Keyword::Values)) {
                    Some(w) => rest.take(w),
                    None => rest,
                },
            )
        },
    }
}

/// `INSERT INTO name (columns) VALUES (values)`
pub open spec fn insert_spec(s: Seq<char>, parts: Seq<Seq<char>>) -> Result<CommandView, CommandError> {
    if parts.len() <= 2 || parts[1] != kw(Keyword::Into) {
        Err(CommandError::InsertSyntax)
    } else {
        match values_part(s) {
            None => Err(CommandError::InsertSyntax),
            Some(vp) => match find_char(s, '(') {
                None => Err(CommandError::MissingOpeningParenthesis),
                Some(cs) => match find_char(s, ')') {
                    None => Err(CommandError::MissingClosingParenthesis),
                    Some(ce) => if ce < cs {
                        Err(CommandError::InsertSyntax)
                    } else {
                        match find_char(vp, '(') {
                            None => Err(CommandError::MissingValuesOpeningParenthesis),
                            Some(vs) => match find_char(vp, ')') {
                                None => Err(CommandError::MissingValuesClosingParenthesis),
                                Some(ve) => if ve < vs {
                                    Err(CommandError::InsertSyntax)
                                } else {
                                    let columns = list_items(s, cs + 1, ce);
                                    let values = list_items(vp, vs + 1, ve);
                                    if columns.len() != values.len() {
                                        Err(CommandError::ColumnCountMismatch)
                                    } else {
                                        Ok(CommandView::InsertRow { table_name: parts[2], values })
                                    }
                                },
                            },
                        }
                    },
                },
            },
        }
    }
}

/// The condition after `WHERE`: its first word is the column, the words
/// after the second make the value, without the characters `t` trims.
pub open spec fn where_clause(parts: Seq<Seq<char>>, t: Trim) -> Result<
    Option<(Seq<char>, Seq<char>)>,
    CommandError,
> {
    match find_upper(parts, Keyword::Where) {
        None => Ok(None),
        Some(w) => {
            let wp = parts.skip(w + 1);
            if wp.len() < 3 {
                Err(CommandError::IncompleteWhereClause)
            } else {
                Ok(Some((wp[0], trimmed(joined(wp.skip(2)), t))))
            }
        },
    }
}

/// `SELECT columns FROM name [WHERE column op value]`
pub open spec fn select_spec(parts: Seq<Seq<char>>) -> Result<CommandView, CommandError> {
    let tail = parts.skip(1);
    let listed = match find_upper(tail, Keyword::From) {
        Some(f) => tail.take(f),
        None => tail,
    };
    let columns_text = joined(listed);
    if columns_text.len() == 0 {
        Err(CommandError::MissingColumns)
    } else {
        match find_upper(parts, Keyword::From) {
            None => Err(CommandError::MissingFromKeyword),
            Some(f) => if f + 1 >= parts.len() {
                Err(CommandError::MissingTableName)
            } else {
                match where_clause(parts, Trim::Quotes) {
                    Err(e) => Err(e),
                    Ok(condition) => Ok(
                        CommandView::Select {
                            table_name: parts[f + 1],
                            columns: Some(
                                pieces(columns_text, ',').map_values(|w: Seq<char>| trimmed(w, Trim::Space)),
                            ),
                            condition,
                        },
                    ),
                }
            },
        }
    }
}

/// The `column = value` assignments of an update, or the first one's fault.
pub open spec fn assignments(items: Seq<Seq<char>>) -> Result<Seq<(Seq<char>, Seq<char>)>, CommandError>
    decreases items.len(),
{
    if items.len() == 0 {
        Ok(Seq::empty())
    } else {
        match assignments(items.drop_last()) {
            Err(e) => Err(e),
            Ok(done) => {
                let kv = pieces(items.last(), '=').map_values(|w: Seq<char>| trimmed(w, Trim::Space));
                if kv.len() != 2 {
                    Err(CommandError::UpdateClauseSyntax)
                } else {
                    Ok(done.push((kv[0], trimmed(kv[1], Trim::Quotes))))
                }
            },
        }
    }
}

/// `UPDATE name SET column = value, ... [WHERE column op value]`
pub open spec fn update_spec(parts: Seq<Seq<char>>) -> Result<CommandView, CommandError> {
    if parts.len() <= 1 {
        Err(CommandError::UpdateSyntax)
    } else {
        match find_upper(parts, Keyword::SetClause) {
            None => Err(CommandError::UpdateSyntax),
            Some(si) => {
                let wi = match find_upper(parts, Keyword::Where) {
                    Some(w) => w,
                    None => parts.len() as int,
                };
                if si + 1 > wi {
                    Err(CommandError::UpdateClauseSyntax)
                } else {
                    let items = pieces(joined(parts.subrange(si + 1, wi)), ',').map_values(
                        |w: Seq<char>| trimmed(w, Trim::Space),
                    );
                    match where_clause(parts, Trim::DoubleQuote) {
                        Err(e) => Err(e),
                        Ok(condition) => match assignments(items) {
                            Err(e) => Err(e),
                            Ok(updates) => Ok(CommandView::Update { table_name: parts[1], updates, condition }),
                        },
                    }
                }
            },
        }
    }
}

/// `RENAME TABLE old TO new`
pub open spec fn rename_spec(parts: Seq<Seq<char>>) -> Result<CommandView, CommandError> {
    if parts.len() > 4 {
        Ok(CommandView::Rename { current_name: parts[2], new_name: parts[4] })
    } else {
        Err(CommandError::RenameSyntax)
    }
}

/// `DROP TABLE name`
pub open spec fn drop_spec(parts: Seq<Seq<char>>) -> Result<CommandView, CommandError> {
    if parts.len() > 2 && parts[1] == kw(Keyword::Table) {
        Ok(CommandView::Drop { name: parts[2] })
    } else {
        Err(CommandError::DropSyntax)
    }
}

/// What a typed command asks for: its first word, in upper case, names the
/// command.
pub open spec fn command_spec(s: Seq<char>) -> Result<CommandView, CommandError> {
    let parts = words(s);
    if parts.len() == 0 {
        Err(CommandError::InvalidCommand)
    } else {
        let head = upper_of(parts[0]);
        if head == kw(Keyword::Create) {
            create_spec(s, parts)
        } else if head == kw(Keyword::Insert) {
            insert_spec(s, parts)
        } else if head == kw(Keyword::Select) {
            select_spec(parts)
        } else if head == kw(Keyword::Update) {
            update_spec(parts)
        } else if head == kw(Keyword::Rename) {
            rename_spec(parts)
        } else if head == kw(Keyword::Drop) {
            drop_spec(parts)
        } else if head == kw(Keyword::Exit) {
            Ok(CommandView::Exit)
        } else {
            Err(CommandError::UnknownCommand)
        }
    }
}

/// Strings holding the given texts.
fn strings_of(v: &Vec<Vec<char>>) -> (r: Vec<String>)
    ensures
        strings_view(r@) == texts(v@),
{
    let mut out: Vec<String> = Vec::new();
    let mut i: usize = 0;
    while i < v.len()
        invariant
            i <= v@.len(),
            strings_view(out@) == texts(v@).take(i as int),
        decreases v@.len() - i,
    {
        let ghost before = out@;
        out.push(string_of(&v[i]));
        assert(strings_view(out@) =~= strings_view(before).push(v@[i as int]@));
        i = i + 1;
        assert(strings_view(out@) =~= texts(v@).take(i as int));
    }
    assert(texts(v@).take(i as int) =~= texts(v@));
    out
}

fn column_part_of(s: &Vec<char>, p: usize) -> (r: Vec<char>)
    requires
        p < s@.len(),
    ensures
        r@ == column_part(s@, p as int),
{
    let n = s.len();
    let after = slice(s, p + 1, n);
    assert(after@ =~= s@.skip(p + 1));
    let seg = match position_of_char(&after, '(') {
        Some(q) => {
            proof {
                crate::text::lemma_find_char(after@, '(');
            }
            slice(&after, 0, q)
        },
        None => after,
    };
    proof {
        assert(seg@ =~= match find_char(s@.skip(p + 1), '(') {
            Some(q) => s@.skip(p + 1).take(q),
            None => s@.skip(p + 1),
        });
    }
    match position_of_char(&seg, ')') {
        Some(q) => {
            proof {
                crate::text::lemma_find_char(seg@, ')');
            }
            let r = slice(&seg, 0, q);
            assert(r@ =~= seg@.take(q as int));
            r
        },
        None => seg,
    }
}

/// Builds the plain column requests of `CREATE TABLE` from its definitions.
fn column_definitions_of(table: &Vec<char>, cols: &Vec<Vec<char>>) -> (r: Result<Vec<InsertColumnRequest>, CommandError>)
    ensures
        match column_definitions(texts(cols@)) {
            Ok(keys) => r matches Ok(v) && v@.map_values(|q: InsertColumnRequest| q.key@) == keys
                && forall|k: int| 0 <= k < v@.len() ==> plain_request(#[trigger] v@[k], table@),
            Err(e) => r == Err::<Vec<InsertColumnRequest>, CommandError>(e),
        },
{
    let ghost all = texts(cols@);
    let mut out: Vec<InsertColumnRequest> = Vec::new();
    let mut i: usize = 0;
    assert(all.take(0) =~= Seq::<Seq<char>>::empty());
    assert(out@.map_values(|q: InsertColumnRequest| q.key@) =~= Seq::<Seq<char>>::empty());
    while i < cols.len()
        invariant
            i <= cols@.len(),
            all == texts(cols@),
            column_definitions(all.take(i as int)) == Ok::<Seq<Seq<char>>, CommandError>(
                out@.map_values(|q: InsertColumnRequest| q.key@),
            ),
            forall|k: int| 0 <= k < out@.len() ==> plain_request(#[trigger] out@[k], table@),
        decreases cols@.len() - i,
    {
        let ghost prefix = all.take(i as int + 1);
        proof {
            assert(prefix.drop_last() =~= all.take(i as int));
            assert(prefix.last() == cols@[i as int]@);
        }
        let ws = split_words(&cols[i]);
        if ws.len() < 2 {
            proof {
                lemma_column_definitions_prefix(all, i as int + 1);
            }
            return Err(CommandError::ColumnDefinitionSyntax);
        }
        let u = uppercase(&ws[1]);
        if !(is_keyword(&u, Keyword::Int) || is_keyword(&u, Keyword::Float) || is_keyword(&u, Keyword::Text)
            || is_keyword(&u, Keyword::Bool)) {
            proof {
                lemma_column_definitions_prefix(all, i as int + 1);
            }
            return Err(CommandError::UnsupportedColumnType);
        }
        let ghost before = out@;
        let request = InsertColumnRequest {
            table_name: string_of(table),
            key: string_of(&ws[0]),
            primary_key: false,
            non_null: false,
            unique: false,
            foreign_key: None,
        };
        out.push(request);
        proof {
            assert(out@.map_values(|q: InsertColumnRequest| q.key@) =~= before.map_values(
                |q: InsertColumnRequest| q.key@,
            ).push(ws@[0]@));
        }
        i = i + 1;
    }
    assert(all.take(i as int) =~= all);
    Ok(out)
}

pub proof fn lemma_column_definitions_prefix(cols: Seq<Seq<char>>, j: int)
    requires
        0 <= j <= cols.len(),
        column_definitions(cols.take(j)) is Err,
    ensures
        column_definitions(cols) == column_definitions(cols.take(j)),
    decreases cols.len(),
{
    if j == cols.len() {
        assert(cols.take(j) =~= cols);
    } else {
        assert(cols.drop_last().take(j) =~= cols.take(j));
        lemma_column_definitions_prefix(cols.drop_last(), j);
    }
}

fn list_items_of(s: &Vec<char>, lo: usize, hi: usize) -> (r: Vec<Vec<char>>)
    requires
        lo <= hi <= s@.len(),
    ensures
        texts(r@) == list_items(s@, lo as int, hi as int),
{
    let inner = trim(&slice(s, lo, hi), Trim::Space);
    trim_all(split_at_char(&inner, ','), Trim::Space)
}

fn values_part_of(s: &Vec<char>) -> (r: Option<Vec<char>>)
    ensures
        match values_part(s@) {
            Some(vp) => r matches Some(v) && v@ == vp,
            None => r is None,
        },
{
    let values = keyword(Keyword::Values);
    match position_of_text(s, &values) {
        None => None,
        Some(v) => {
            proof {
                crate::text::lemma_find_text(s@, values@);
            }
            let n = s.len();
            let rest = slice(s, v + 6, n);
            assert(rest@ =~= s@.skip(v + 6));
            match position_of_text(&rest, &values) {
                Some(w) => {
                    proof {
                        crate::text::lemma_find_text(rest@, values@);
                    }
                    let r = slice(&rest, 0, w);
                    assert(r@ =~= rest@.take(w as int));
                    Some(r)
                },
                None => Some(rest),
            }
        },
    }
}

fn where_clause_of(parts: &Vec<Vec<char>>, t: Trim) -> (r: Result<Option<Condition>, CommandError>)
    ensures
        match where_clause(texts(parts@), t) {
            Ok(c) => r matches Ok(x) && condition_view(x) == c,
            Err(e) => r == Err::<Option<Condition>, CommandError>(e),
        },
{
    let ghost all = texts(parts@);
    assert(all.skip(0) =~= all);
    match position_upper(parts, 0, Keyword::Where) {
        None => Ok(None),
        Some(w) => {
            proof {
                lemma_find_upper(all, Keyword::Where);
            }
            let n = parts.len();
            if n - (w + 1) < 3 {
                return Err(CommandError::IncompleteWhereClause);
            }
            let ghost wp = all.skip(w + 1);
            let column = string_of(&parts[w + 1]);
            let value_words = join_words(parts, w + 3, n);
            proof {
                assert(wp[0] == parts@[w + 1]@);
                assert(all.subrange(w + 3, n as int) =~= wp.skip(2));
            }
            let value = string_of(&trim(&value_words, t));
            Ok(Some(Condition { column, value }))
        },
    }
}

fn assignments_of(items: &Vec<Vec<char>>) -> (r: Result<Vec<UpdateColumnRequest>, CommandError>)
    ensures
        match assignments(texts(items@)) {
            Ok(u) => r matches Ok(v) && v@.map_values(|q: UpdateColumnRequest| (q.column@, q.value@)) == u,
            Err(e) => r == Err::<Vec<UpdateColumnRequest>, CommandError>(e),
        },
{
    let ghost all = texts(items@);
    let mut out: Vec<UpdateColumnRequest> = Vec::new();
    let mut i: usize = 0;
    assert(all.take(0) =~= Seq::<Seq<char>>::empty());
    assert(out@.map_values(|q: UpdateColumnRequest| (q.column@, q.value@)) =~= Seq::<
        (Seq<char>, Seq<char>),
    >::empty());
    while i < items.len()
        invariant
            i <= items@.len(),
            all == texts(items@),
            assignments(all.take(i as int)) == Ok::<Seq<(Seq<char>, Seq<char>)>, CommandError>(
                out@.map_values(|q: UpdateColumnRequest| (q.column@, q.value@)),
            ),
        decreases items@.len() - i,
    {
        let ghost prefix = all.take(i as int + 1);
        proof {
            assert(prefix.drop_last() =~= all.take(i as int));
            assert(prefix.last() == items@[i as int]@);
        }
        let kv = trim_all(split_at_char(&items[i], '='), Trim::Space);
        if kv.len() != 2 {
            proof {
                lemma_assignments_prefix(all, i as int + 1);
            }
            return Err(CommandError::UpdateClauseSyntax);
        }
        let ghost before = out@;
        let column = string_of(&kv[0]);
        let value = string_of(&trim(&kv[1], Trim::Quotes));
        out.push(UpdateColumnRequest { column, value });
        proof {
            assert(out@.map_values(|q: UpdateColumnRequest| (q.column@, q.value@)) =~= before.map_values(
                |q: UpdateColumnRequest| (q.column@, q.value@),
            ).push((kv@[0]@, trimmed(kv@[1]@, Trim::Quotes))));
        }
        i = i + 1;
    }
    assert(all.take(i as int) =~= all);
    Ok(out)
}

pub proof fn lemma_assignments_prefix(items: Seq<Seq<char>>, j: int)
    requires
        0 <= j <= items.len(),
        assignments(items.take(j)) is Err,
    ensures
        assignments(items) == assignments(items.take(j)),
    decreases items.len(),
{
    if j == items.len() {
        assert(items.take(j) =~= items);
    } else {
        assert(items.drop_last().take(j) =~= items.take(j));
        lemma_assignments_prefix(items.drop_last(), j);
    }
}

pub open spec fn reads_as(r: Result<Command, CommandError>, expected: Result<CommandView, CommandError>) -> bool {
    match expected {
        Ok(v) => r matches Ok(c) && c@ == v && c.plain(),
        Err(e) => r == Err::<Command, CommandError>(e),
    }
}

fn create_command(s: &Vec<char>, parts: &Vec<Vec<char>>) -> (r: Result<Command, CommandError>)
    ensures
        reads_as(r, create_spec(s@, texts(parts@))),
{
    if parts.len() <= 2 || !is_keyword(&parts[1], Keyword::Table) {
        return Err(CommandError::CreateTableSyntax);
    }
    let p = match position_of_char(s, '(') {
        Some(p) => p,
        None => return Err(CommandError::CreateTableSyntax),
    };
    proof {
        crate::text::lemma_find_char(s@, '(');
    }
    let name = &parts[2];
    let cols = trim_all(split_at_char(&column_part_of(s, p), ','), Trim::Space);
    match column_definitions_of(name, &cols) {
        Ok(requests) => {
            let request = CreateTableRequests { name: string_of(name), insert_column_requests: requests };
            Ok(Command::CreateTable(request))
        },
        Err(e) => Err(e),
    }
}

fn insert_command(s: &Vec<char>, parts: &Vec<Vec<char>>) -> (r: Result<Command, CommandError>)
    ensures
        reads_as(r, insert_spec(s@, texts(parts@))),
{
    if parts.len() <= 2 || !is_keyword(&parts[1], Keyword::Into) {
        return Err(CommandError::InsertSyntax);
    }
    let vp = match values_part_of(s) {
        Some(vp) => vp,
        None => return Err(CommandError::InsertSyntax),
    };
    proof {
        crate::text::lemma_find_char(s@, '(');
        crate::text::lemma_find_char(s@, ')');
        crate::text::lemma_find_char(vp@, '(');
        crate::text::lemma_find_char(vp@, ')');
    }
    let cs = match position_of_char(s, '(') {
        Some(i) => i,
        None => return Err(CommandError::MissingOpeningParenthesis),
    };
    let ce = match position_of_char(s, ')') {
        Some(i) => i,
        None => return Err(CommandError::MissingClosingParenthesis),
    };
    if ce < cs {
        return Err(CommandError::InsertSyntax);
    }
    let vs = match position_of_char(&vp, '(') {
        Some(i) => i,
        None => return Err(CommandError::MissingValuesOpeningParenthesis),
    };
    let ve = match position_of_char(&vp, ')') {
        Some(i) => i,
        None => return Err(CommandError::MissingValuesClosingParenthesis),
    };
    if ve < vs {
        return Err(CommandError::InsertSyntax);
    }
    let columns = list_items_of(s, cs + 1, ce);
    let values = list_items_of(&vp, vs + 1, ve);
    if columns.len() != values.len() {
        return Err(CommandError::ColumnCountMismatch);
    }
    Ok(Command::InsertRow { table_name: string_of(&parts[2]), values: strings_of(&values) })
}

fn select_command(parts: &Vec<Vec<char>>) -> (r: Result<Command, CommandError>)
    requires
        parts@.len() > 0,
    ensures
        reads_as(r, select_spec(texts(parts@))),
{
    let ghost all = texts(parts@);
    let n = parts.len();
    let listed_end = match position_upper(parts, 1, Keyword::From) {
        Some(f) => {
            proof {
                lemma_find_upper(all.skip(1), Keyword::From);
            }
            f + 1
        },
        None => n,
    };
    let columns_text = join_words(parts, 1, listed_end);
    proof {
        let tail = all.skip(1);
        assert(all.subrange(1, listed_end as int) =~= match find_upper(tail, Keyword::From) {
            Some(f) => tail.take(f),
            None => tail,
        });
    }
    if columns_text.len() == 0 {
        return Err(CommandError::MissingColumns);
    }
    assert(all.skip(0) =~= all);
    let f = match position_upper(parts, 0, Keyword::From) {
        Some(f) => f,
        None => return Err(CommandError::MissingFromKeyword),
    };
    proof {
        lemma_find_upper(all, Keyword::From);
    }
    if f + 1 >= n {
        return Err(CommandError::MissingTableName);
    }
    let condition = match where_clause_of(parts, Trim::Quotes) {
        Ok(c) => c,
        Err(e) => return Err(e),
    };
    let columns = strings_of(&trim_all(split_at_char(&columns_text, ','), Trim::Space));
    let request = SelectRequest { columns: Some(columns), table_name: string_of(&parts[f + 1]), condition };
    Ok(Command::Select(request))
}

fn update_command(parts: &Vec<Vec<char>>) -> (r: Result<Command, CommandError>)
    ensures
        reads_as(r, update_spec(texts(parts@))),
{
    let ghost all = texts(parts@);
    let n = parts.len();
    if n <= 1 {
        return Err(CommandError::UpdateSyntax);
    }
    assert(all.skip(0) =~= all);
    proof {
        lemma_find_upper(all, Keyword::SetClause);
        lemma_find_upper(all, Keyword::Where);
    }
    let si = match position_upper(parts, 0, Keyword::SetClause) {
        Some(i) => i,
        None => return Err(CommandError::UpdateSyntax),
    };
    let wi = match position_upper(parts, 0, Keyword::Where) {
        Some(w) => w,
        None => n,
    };
    if si + 1 > wi {
        return Err(CommandError::UpdateClauseSyntax);
    }
    let items = trim_all(split_at_char(&join_words(parts, si + 1, wi), ','), Trim::Space);
    let condition = match where_clause_of(parts, Trim::DoubleQuote) {
        Ok(c) => c,
        Err(e) => return Err(e),
    };
    let updates = match assignments_of(&items) {
        Ok(u) => u,
        Err(e) => return Err(e),
    };
    let request = UpdateRequest { table_name: string_of(&parts[1]), condition, updates };
    Ok(Command::Update(request))
}

fn rename_command(parts: &Vec<Vec<char>>) -> (r: Result<Command, CommandError>)
    ensures
        reads_as(r, rename_spec(texts(parts@))),
{
    if parts.len() > 4 {
        let request = RenameTableRequest { current_name: string_of(&parts[2]), new_name: string_of(&parts[4]) };
        Ok(Command::Rename(request))
    } else {
        Err(CommandError::RenameSyntax)
    }
}

fn drop_command(parts: &Vec<Vec<char>>) -> (r: Result<Command, CommandError>)
    ensures
        reads_as(r, drop_spec(texts(parts@))),
{
    if parts.len() > 2 && is_keyword(&parts[1], Keyword::Table) {
        Ok(Command::Drop(DropTableRequest { name: string_of(&parts[2]) }))
    } else {
        Err(CommandError::DropSyntax)
    }
}

/// Reads a typed command.
pub fn parse_command(command: &str) -> (r: Result<Command, CommandError>)
    ensures
        reads_as(r, command_spec(command@)),
{
    let s = crate::text::chars_of(command);
    let parts = split_words(&s);
    if parts.len() == 0 {
        return Err(CommandError::InvalidCommand);
    }
    let head = uppercase(&parts[0]);
    if is_keyword(&head, Keyword::Create) {
        create_command(&s, &parts)
    } else if is_keyword(&head, Keyword::Insert) {
        insert_command(&s, &parts)
    } else if is_keyword(&head, Keyword::Select) {
        select_command(&parts)
    } else if is_keyword(&head, Keyword::Update) {
        update_command(&parts)
    } else if is_keyword(&head, Keyword::Rename) {
        rename_command(&parts)
    } else if is_keyword(&head, Keyword::Drop) {
        drop_command(&parts)
    } else if is_keyword(&head, Keyword::Exit) {
        Ok(Command::Exit)
    } else {
        Err(CommandError::UnknownCommand)
    }
}

/// Reads the text of one inserted value: `NULL`; an integer; a float (its
/// displayed form, `float_text`, read by the caller); `true` or `false`;
/// otherwise a string, without surrounding quotes.
pub fn literal(text: &String, float_text: Option<String>) -> (r: Value)
    ensures
        text@ == seq!['N', 'U', 'L', 'L'] ==> r == Value::Null,
        text@ != seq!['N', 'U', 'L', 'L'] ==> match int_text_value(text@) {
            Some(i) => r == Value::Int(i as i64),
            None => match float_text {
                Some(f) => r == Value::Float(f),
                None => if text@ == seq!['t', 'r', 'u', 'e'] {
                    r == Value::Bool(true)
                } else if text@ == seq!['f', 'a', 'l', 's', 'e'] {
                    r == Value::Bool(false)
                } else {
                    r matches Value::Str(s) && s@ == trimmed(text@, Trim::Quotes)
                },
            },
        },
{
    let chars = crate::text::chars_of(text.as_str());
    if same_text(&chars, &vec!['N', 'U', 'L', 'L']) {
        return Value::Null;
    }
    if let Some(i) = parse_int(&chars) {
        return Value::Int(i);
    }
    if let Some(f) = float_text {
        return Value::Float(f);
    }
    if same_text(&chars, &vec!['t', 'r', 'u', 'e']) {
        Value::Bool(true)
    } else if same_text(&chars, &vec!['f', 'a', 'l', 's', 'e']) {
        Value::Bool(false)
    } else {
        Value::Str(string_of(&trim(&chars, Trim::Quotes)))
    }
}

} // verus!
