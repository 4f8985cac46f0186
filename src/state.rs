use vstd::prelude::*;

use crate::column::{constraints_hold, Column};
use crate::error::EngineError;
use crate::query::{names_of, rows_view, select_rows, select_spec, update_count, update_rows, update_spec};
use crate::request_types::{
    CreateTableRequests, InsertColumnRequest, InsertRowRequest, RenameTableRequest, SelectRequest,
    UpdateRequest,
};
use crate::row::{null_padded, Row};
use crate::table::{
    column_keys, distinct_keys, lemma_distinct_by_first_position, lemma_position_of, non_null_from,
    position_of, Table, TableView,
};

verus! {

/// The single owner of every table. Each operation is one critical section
/// over the whole collection: it validates, then mutates, or refuses and
/// leaves the collection as it was.
#[derive(Debug)]
pub struct AppState {
    tables: Vec<Table>,
}

/// The models of a list of tables.
pub open spec fn tables_view(tables: Seq<Table>) -> Seq<TableView> {
    tables.map_values(|t: Table| t@)
}

/// The names of a list of tables, in order.
pub open spec fn table_names(tables: Seq<TableView>) -> Seq<Seq<char>> {
    tables.map_values(|t: TableView| t.name)
}

/// The position of the table named `name`, if any.
pub open spec fn table_index(tables: Seq<TableView>, name: Seq<char>) -> Option<int> {
    position_of(table_names(tables), name)
}

/// Table names are unique and every table is well formed.
pub open spec fn state_wf(tables: Seq<TableView>) -> bool {
    &&& distinct_keys(table_names(tables))
    &&& forall|i: int| 0 <= i < tables.len() ==> (#[trigger] tables[i]).wf()
}

/// Boxed columns that hold exactly the given columns.
pub open spec fn boxes_hold(boxes: Seq<Box<Column>>, columns: Seq<Column>) -> bool {
    &&& boxes.len() == columns.len()
    &&& forall|j: int| 0 <= j < boxes.len() ==> *#[trigger] boxes[j] == columns[j]
}

/// The column that an insert-column request describes.
pub open spec fn column_of_request(c: Column, request: InsertColumnRequest) -> bool {
    &&& c.key == request.key
    &&& c.primary_key == request.primary_key
    &&& c.non_null == request.non_null
    &&& c.unique == request.unique
    &&& match (c.foreign_key, request.foreign_key) {
        (None, None) => true,
        (Some(b), Some(v)) => boxes_hold(b@, v@),
        _ => false,
    }
}

pub open spec fn request_valid(request: InsertColumnRequest) -> bool {
    constraints_hold(request.primary_key, request.non_null, request.unique)
}

/// Boxes each column, keeping their order.
fn boxed(columns: Vec<Column>) -> (r: Vec<Box<Column>>)
    ensures
        boxes_hold(r@, columns@),
{
    let ghost all = columns@;
    let mut rest = columns;
    let mut out: Vec<Box<Column>> = Vec::new();
    while rest.len() > 0
        invariant
            all == out@.map_values(|b: Box<Column>| *b) + rest@,
        decreases rest@.len(),
    {
        let ghost before = out@;
        let c = rest.remove(0);
        out.push(Box::new(c));
        assert(out@.map_values(|b: Box<Column>| *b) =~= before.map_values(|b: Box<Column>| *b).push(c));
    }
    assert(all =~= out@.map_values(|b: Box<Column>| *b));
    out
}

/// Builds the column that a request describes, refusing a primary key that
/// is not both non-null and unique.
pub fn column_from_request(request: InsertColumnRequest) -> (r: Result<Column, EngineError>)
    ensures
        request_valid(request) <==> r is Ok,
        r matches Ok(c) ==> column_of_request(c, request),
        r matches Err(e) ==> e == EngineError::ConstraintViolation,
{
    let foreign_key = match request.foreign_key {
        Some(v) => Some(boxed(v)),
        None => None,
    };
    Column::new(request.key, request.primary_key, request.non_null, request.unique, foreign_key)
}

/// The keys that a list of insert-column requests asks for, in order.
pub open spec fn request_keys(requests: Seq<InsertColumnRequest>) -> Seq<Seq<char>> {
    requests.map_values(|q: InsertColumnRequest| q.key@)
}

/// The first reason, in request order, for which a list of insert-column
/// requests cannot make the columns of one table: a primary key that is not
/// non-null and unique, or a key that an earlier request already took.
pub open spec fn first_column_error(requests: Seq<InsertColumnRequest>) -> Option<EngineError>
    decreases requests.len(),
{
    if requests.len() == 0 {
        None
    } else {
        match first_column_error(requests.drop_last()) {
            Some(e) => Some(e),
            None => if !request_valid(requests.last()) {
                Some(EngineError::ConstraintViolation)
            } else if position_of(request_keys(requests.drop_last()), requests.last().key@) is Some {
                Some(EngineError::DuplicateColumn)
            } else {
                None
            },
        }
    }
}

/// Once a prefix of the requests fails, the whole list fails the same way.
pub proof fn lemma_first_column_error_prefix(requests: Seq<InsertColumnRequest>, j: int)
    requires
        0 <= j <= requests.len(),
        first_column_error(requests.take(j)) is Some,
    ensures
        first_column_error(requests) == first_column_error(requests.take(j)),
    decreases requests.len(),
{
    if j == requests.len() {
        assert(requests.take(j) =~= requests);
    } else {
        assert(requests.drop_last().take(j) =~= requests.take(j));
        lemma_first_column_error_prefix(requests.drop_last(), j);
    }
}

/// The table that a create-table request describes, once its columns are
/// built.
pub open spec fn table_of_request(t: TableView, name: Seq<char>, requests: Seq<InsertColumnRequest>) -> bool {
    &&& t.name == name
    &&& t.rows.len() == 0
    &&& t.columns.len() == requests.len()
    &&& forall|k: int| 0 <= k < requests.len() ==> column_of_request(#[trigger] t.columns[k], requests[k])
}

impl View for AppState {
    type V = Seq<TableView>;

    closed spec fn view(&self) -> Seq<TableView> {
        tables_view(self.tables@)
    }
}

/// Finds the position of the table named `name`.
fn find_table(tables: &Vec<Table>, name: &String) -> (r: Option<usize>)
    ensures
        r matches Some(i) ==> table_index(tables_view(tables@), name@) == Some(i as int)
            && i < tables@.len(),
        r is None ==> table_index(tables_view(tables@), name@) is None,
{
    let ghost names = table_names(tables_view(tables@));
    let mut i: usize = 0;
    while i < tables.len()
        invariant
            i <= tables@.len(),
            names == table_names(tables_view(tables@)),
            forall|j: int| 0 <= j < i ==> names[j] != name@,
        decreases tables@.len() - i,
    {
        if tables[i].name == *name {
            proof {
                assert(names[i as int] == name@);
                lemma_position_of(names, name@);
            }
            return Some(i);
        }
        i = i + 1;
    }
    proof {
        lemma_position_of(names, name@);
    }
    None
}

impl AppState {
    pub open spec fn wf(&self) -> bool {
        state_wf(self@)
    }

    /// An empty collection.
    pub fn new() -> (r: AppState)
        ensures
            r@ == Seq::<TableView>::empty(),
            r.wf(),
    {
        let r = AppState { tables: Vec::new() };
        assert(r@ =~= Seq::<TableView>::empty());
        r
    }

    /// Takes over a collection (as read back from a snapshot), provided its
    /// table names are unique and every table is well formed.
    pub fn from_tables(tables: Vec<Table>) -> (r: Option<AppState>)
        ensures
            r is Some <==> state_wf(tables_view(tables@)),
            r matches Some(s) ==> s@ == tables_view(tables@) && s.wf(),
    {
        let ghost tv = tables_view(tables@);
        let ghost names = table_names(tv);
        let mut i: usize = 0;
        while i < tables.len()
            invariant
                i <= tables@.len(),
                tv == tables_view(tables@),
                names == table_names(tv),
                forall|j: int| 0 <= j < i ==> position_of(names, #[trigger] names[j]) == Some(j),
                forall|j: int| 0 <= j < i ==> (#[trigger] tv[j]).wf(),
            decreases tables@.len() - i,
        {
            proof {
                assert(names[i as int] == tables@[i as int].name@);
                lemma_distinct_by_first_position(names);
            }
            if !tables[i].is_well_formed() {
                assert(!tv[i as int].wf());
                return None;
            }
            match find_table(&tables, &tables[i].name) {
                Some(p) => {
                    if p != i {
                        assert(position_of(names, names[i as int]) != Some(i as int));
                        return None;
                    }
                },
                None => {
                    assert(position_of(names, names[i as int]) != Some(i as int));
                    return None;
                },
            }
            i = i + 1;
        }
        proof {
            lemma_distinct_by_first_position(names);
        }
        Some(AppState { tables })
    }

    /// Every table, in collection order.
    pub fn get_all(&self) -> (r: &Vec<Table>)
        ensures
            tables_view(r@) == self@,
    {
        &self.tables
    }

    /// The table named `table_name`, if there is one.
    pub fn get(&self, table_name: &str) -> (r: Option<&Table>)
        ensures
            match table_index(self@, table_name@) {
                Some(i) => r matches Some(t) && t@ == self@[i],
                None => r is None,
            },
    {
        let name = String::from_str(table_name);
        match find_table(&self.tables, &name) {
            Some(i) => Some(&self.tables[i]),
            None => None,
        }
    }

    /// Adds a table at the end of the collection, refusing a name that is
    /// already taken.
    pub fn create(&mut self, table: Table) -> (r: Result<(), EngineError>)
        requires
            old(self).wf(),
            table@.wf(),
        ensures
            table_index(old(self)@, table@.name) is Some <==> r is Err,
            r is Err ==> r == Err::<(), EngineError>(EngineError::TableAlreadyExists) && final(self)@
                == old(self)@,
            r is Ok ==> final(self)@ == old(self)@.push(table@),
            final(self).wf(),
    {
        if find_table(&self.tables, &table.name).is_some() {
            return Err(EngineError::TableAlreadyExists);
        }
        let ghost tv = table@;
        self.tables.push(table);
        proof {
            assert(self@ =~= old(self)@.push(tv));
            let old_names = table_names(old(self)@);
            lemma_position_of(old_names, tv.name);
            assert(table_names(self@) =~= old_names.push(tv.name));
        }
        Ok(())
    }

    /// Removes the table named `table_name`; returns whether one was removed.
    pub fn drop_table(&mut self, table_name: &str) -> (r: bool)
        requires
            old(self).wf(),
        ensures
            match table_index(old(self)@, table_name@) {
                Some(i) => r && final(self)@ == old(self)@.remove(i),
                None => !r && final(self)@ == old(self)@,
            },
            final(self).wf(),
    {
        let name = String::from_str(table_name);
        match find_table(&self.tables, &name) {
            Some(i) => {
                self.tables.remove(i);
                proof {
                    assert(self@ =~= old(self)@.remove(i as int));
                    assert(table_names(self@) =~= table_names(old(self)@).remove(i as int));
                }
                true
            },
            None => false,
        }
    }

    /// Renames a table in place. Refused when no table has the current name,
    /// or when another table already has the new one.
    pub fn rename_table(&mut self, request: RenameTableRequest) -> (r: Result<(), EngineError>)
        requires
            old(self).wf(),
        ensures
            match table_index(old(self)@, request.current_name@) {
                None => r == Err::<(), EngineError>(EngineError::TableNotFound) && final(self)@ == old(self)@,
                Some(i) => if request.new_name@ != request.current_name@ && table_index(
                    old(self)@,
                    request.new_name@,
                ) is Some {
                    r == Err::<(), EngineError>(EngineError::TableAlreadyExists) && final(self)@ == old(self)@
                } else {
                    r is Ok && final(self)@ == old(self)@.update(
                        i,
                        TableView { name: request.new_name@, ..old(self)@[i] },
                    )
                },
            },
            final(self).wf(),
    {
        let i = match find_table(&self.tables, &request.current_name) {
            Some(i) => i,
            None => return Err(EngineError::TableNotFound),
        };
        if request.new_name != request.current_name && find_table(&self.tables, &request.new_name).is_some() {
            return Err(EngineError::TableAlreadyExists);
        }
        let ghost names = table_names(old(self)@);
        proof {
            lemma_position_of(names, request.current_name@);
            lemma_position_of(names, request.new_name@);
        }
        let mut t = self.tables.remove(i);
        t.name = request.new_name;
        self.tables.insert(i, t);
        proof {
            assert(self@ =~= old(self)@.update(i as int, TableView { name: request.new_name@, ..old(self)@[i as int] }));
            assert(table_names(self@) =~= names.update(i as int, request.new_name@));
        }
        Ok(())
    }

    /// Adds a column to the named table. Refused when the table does not
    /// exist, when the column breaks the primary-key constraint, or when its
    /// key is already taken in that table.
    pub fn insert_column(&mut self, request: InsertColumnRequest) -> (r: Result<(), EngineError>)
        requires
            old(self).wf(),
        ensures
            match table_index(old(self)@, request.table_name@) {
                None => r == Err::<(), EngineError>(EngineError::TableNotFound) && final(self)@ == old(self)@,
                Some(i) => if !request_valid(request) {
                    r == Err::<(), EngineError>(EngineError::ConstraintViolation) && final(self)@ == old(self)@
                } else if old(self)@[i].column_index(request.key@) is Some {
                    r == Err::<(), EngineError>(EngineError::DuplicateColumn) && final(self)@ == old(self)@
                } else {
                    r is Ok && exists|c: Column|
                        column_of_request(c, request) && final(self)@ == old(self)@.update(
                            i,
                            TableView { columns: old(self)@[i].columns.push(c), ..old(self)@[i] },
                        )
                },
            },
            final(self).wf(),
    {
        let ghost req = request;
        let i = match find_table(&self.tables, &request.table_name) {
            Some(i) => i,
            None => return Err(EngineError::TableNotFound),
        };
        let column = match column_from_request(request) {
            Ok(c) => c,
            Err(e) => return Err(e),
        };
        let ghost c = column;
        let mut t = self.tables.remove(i);
        proof {
            assert(t@ == old(self)@[i as int]);
        }
        let added = t.add_column(column);
        self.tables.insert(i, t);
        proof {
            assert(self@ =~= old(self)@.update(i as int, t@));
            assert(table_names(self@) =~= table_names(old(self)@));
        }
        match added {
            Ok(()) => {
                assert(column_of_request(c, req));
                Ok(())
            },
            Err(e) => Err(e),
        }
    }

    /// Creates a table together with its columns, all or nothing: refused
    /// when the name is taken, or at the first column request that cannot
    /// be honoured.
    pub fn create_table(&mut self, request: CreateTableRequests) -> (r: Result<(), EngineError>)
        requires
            old(self).wf(),
        ensures
            table_index(old(self)@, request.name@) is Some ==> r == Err::<(), EngineError>(
                EngineError::TableAlreadyExists,
            ) && final(self)@ == old(self)@,
            table_index(old(self)@, request.name@) is None ==> match first_column_error(
                request.insert_column_requests@,
            ) {
                Some(e) => r == Err::<(), EngineError>(e) && final(self)@ == old(self)@,
                None => r is Ok && exists|t: TableView|
                    table_of_request(t, request.name@, request.insert_column_requests@) && final(self)@
                        == old(self)@.push(t),
            },
            final(self).wf(),
    {
        if find_table(&self.tables, &request.name).is_some() {
            return Err(EngineError::TableAlreadyExists);
        }
        let ghost name = request.name@;
        let ghost reqs = request.insert_column_requests@;
        assert(table_index(old(self)@, name) is None);
        let mut table = Table::new(request.name);
        let mut rest = request.insert_column_requests;
        let total = rest.len();
        let mut k: usize = 0;
        proof {
            assert(reqs.take(0) =~= Seq::<InsertColumnRequest>::empty());
            assert(column_keys(table@.columns) =~= request_keys(reqs.take(0)));
        }
        while rest.len() > 0
            invariant
                *self == *old(self),
                old(self).wf(),
                name == request.name@,
                reqs == request.insert_column_requests@,
                table_index(old(self)@, name) is None,
                total == reqs.len(),
                k + rest@.len() == reqs.len(),
                rest@ == reqs.skip(k as int),
                table@.wf(),
                table@.name == name,
                table@.rows.len() == 0,
                table@.columns.len() == k,
                forall|q: int| 0 <= q < k ==> column_of_request(#[trigger] table@.columns[q], reqs[q]),
                column_keys(table@.columns) == request_keys(reqs.take(k as int)),
                first_column_error(reqs.take(k as int)) is None,
            decreases rest@.len(),
        {
            let req = rest.remove(0);
            let ghost q = req;
            proof {
                assert(q == reqs[k as int]);
                assert(reqs.take(k as int + 1).last() == q);
                assert(reqs.take(k as int + 1).drop_last() =~= reqs.take(k as int));
                assert(rest@ =~= reqs.skip(k as int + 1));
            }
            let column = match column_from_request(req) {
                Ok(c) => c,
                Err(e) => {
                    proof {
                        assert(first_column_error(reqs.take(k as int + 1)) == Some(EngineError::ConstraintViolation));
                        lemma_first_column_error_prefix(reqs, k as int + 1);
                    }
                    return Err(e);
                },
            };
            let ghost c = column;
            let ghost before = table@;
            match table.add_column(column) {
                Ok(()) => {},
                Err(e) => {
                    proof {
                        assert(first_column_error(reqs.take(k as int + 1)) == Some(EngineError::DuplicateColumn));
                        lemma_first_column_error_prefix(reqs, k as int + 1);
                    }
                    return Err(e);
                },
            }
            proof {
                assert(column_keys(table@.columns) =~= column_keys(before.columns).push(c.key@));
                assert(request_keys(reqs.take(k as int + 1)) =~= request_keys(reqs.take(k as int)).push(q.key@));
            }
            k = k + 1;
        }
        proof {
            assert(reqs.take(k as int) =~= reqs);
            assert(table_of_request(table@, name, reqs));
        }
        let created = self.create(table);
        proof {
            assert(created is Ok);
        }
        Ok(())
    }

    /// Adds a row to the named table (see `Table::add_row` for padding), and
    /// returns the string projections of the row as stored.
    pub fn insert_row(&mut self, request: InsertRowRequest) -> (r: Result<Vec<String>, EngineError>)
        requires
            old(self).wf(),
        ensures
            match table_index(old(self)@, request.table_name@) {
                None => r == Err::<Vec<String>, EngineError>(EngineError::TableNotFound) && final(self)@
                    == old(self)@,
                Some(i) => {
                    let t = old(self)@[i];
                    let n = t.columns.len() as int;
                    let m = request.row@.len() as int;
                    if m > n {
                        r == Err::<Vec<String>, EngineError>(EngineError::RowArityExceeded) && final(self)@
                            == old(self)@
                    } else if non_null_from(t.columns, m) {
                        r == Err::<Vec<String>, EngineError>(EngineError::NonNullViolation) && final(self)@
                            == old(self)@
                    } else {
                        let stored = null_padded(request.row@, n);
                        r matches Ok(v) && final(self)@ == old(self)@.update(
                            i,
                            TableView { rows: t.rows.push(stored), ..t },
                        ) && v@.len() == stored.len() && forall|k: int|
                            0 <= k < v@.len() ==> #[trigger] v@[k]@ == stored[k].projection()
                    }
                },
            },
            final(self).wf(),
    {
        let i = match find_table(&self.tables, &request.table_name) {
            Some(i) => i,
            None => return Err(EngineError::TableNotFound),
        };
        let mut t = self.tables.remove(i);
        proof {
            assert(t@ == old(self)@[i as int]);
        }
        let added = t.add_row(request.row);
        let result = match added {
            Ok(()) => {
                assert(t.rows@.len() == t@.rows.len());
                let last = t.rows.len() - 1;
                proof {
                    assert(t@.rows[last as int] == t.rows@[last as int]@);
                }
                Ok(t.rows[last].string_values())
            },
            Err(e) => Err(e),
        };
        self.tables.insert(i, t);
        proof {
            assert(self@ =~= old(self)@.update(i as int, t@));
            assert(table_names(self@) =~= table_names(old(self)@));
        }
        result
    }

    /// Selects rows of the named table (see `select_rows`).
    pub fn select(&self, request: SelectRequest) -> (r: Result<Vec<Row>, EngineError>)
        ensures
            match table_index(self@, request.table_name@) {
                None => r == Err::<Vec<Row>, EngineError>(EngineError::TableNotFound),
                Some(i) => match select_spec(self@[i], names_of(request.columns), request.condition) {
                    Ok(rows) => r matches Ok(v) && rows_view(v@) == rows,
                    Err(name) => r matches Err(EngineError::ColumnNotFound(s)) && s@ == name,
                },
            },
    {
        let i = match find_table(&self.tables, &request.table_name) {
            Some(i) => i,
            None => return Err(EngineError::TableNotFound),
        };
        let condition = match &request.condition {
            Some(c) => Some(c),
            None => None,
        };
        select_rows(&self.tables[i], request.columns, condition)
    }

    /// Updates rows of the named table (see `update_rows`); returns how many
    /// rows were updated.
    pub fn update_table(&mut self, request: UpdateRequest) -> (r: Result<usize, EngineError>)
        requires
            old(self).wf(),
        ensures
            match table_index(old(self)@, request.table_name@) {
                None => r == Err::<usize, EngineError>(EngineError::TableNotFound) && final(self)@
                    == old(self)@,
                Some(i) => match update_spec(old(self)@[i], request.condition, request.updates@) {
                    Ok(rows) => r == Ok::<usize, EngineError>(
                        update_count(old(self)@[i], request.condition) as usize,
                    ) && final(self)@ == old(self)@.update(i, TableView { rows, ..old(self)@[i] }),
                    Err(name) => r matches Err(EngineError::ColumnNotFound(s)) && s@ == name
                        && final(self)@ == old(self)@,
                },
            },
            final(self).wf(),
    {
        let i = match find_table(&self.tables, &request.table_name) {
            Some(i) => i,
            None => return Err(EngineError::TableNotFound),
        };
        let condition = match &request.condition {
            Some(c) => Some(c),
            None => None,
        };
        let mut t = self.tables.remove(i);
        proof {
            assert(t@ == old(self)@[i as int]);
        }
        let result = update_rows(&mut t, condition, &request.updates);
        self.tables.insert(i, t);
        proof {
            assert(self@ =~= old(self)@.update(i as int, t@));
            assert(table_names(self@) =~= table_names(old(self)@));
        }
        result
    }
}

} // verus!
