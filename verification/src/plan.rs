//! What restoring one collection hands to the database: one insert statement
//! and, for each record, the values bound to its parameters.

use crate::error::RestoreError;
use crate::text::{joined, joined_text, texts_of};
use vstd::prelude::*;
use vstd::string::StringExecFns;

verus! {

/// A database connection of the `rusqlite` crate, carried through unopened.
#[verifier::external_type_specification]
#[verifier::external_body]
pub struct ExConnection(rusqlite::Connection);

/// A prepared statement of the `rusqlite` crate, carried through unopened.
#[verifier::external_type_specification]
#[verifier::external_body]
pub struct ExStatement<'conn>(rusqlite::Statement<'conn>);

/// A value bound to a statement parameter, as contracts see it.
pub enum CellModel {
    Integer(int),
    Text(Seq<char>),
}

/// A value bound to a statement parameter.
#[derive(Debug)]
pub enum Cell {
    Integer(i64),
    Text(String),
}

impl View for Cell {
    type V = CellModel;

    open spec fn view(&self) -> CellModel {
        match self {
            Cell::Integer(value) => CellModel::Integer(*value as int),
            Cell::Text(text) => CellModel::Text(text@),
        }
    }
}

/// The cells of a row, as contracts see them.
pub open spec fn cells_of(row: Seq<Cell>) -> Seq<CellModel> {
    Seq::new(row.len(), |i: int| row[i]@)
}

/// The rows of a list, as contracts see them.
pub open spec fn rows_of(rows: Seq<Vec<Cell>>) -> Seq<Seq<CellModel>> {
    Seq::new(rows.len(), |i: int| cells_of(rows[i]@))
}

/// A column that every row of a plan fills with the same literal, written
/// into the statement itself.
pub struct ConstantModel {
    pub column: Seq<char>,
    pub literal: Seq<char>,
}

/// A column that every row of a plan fills with the same literal.
#[derive(Debug)]
pub struct Constant {
    pub column: String,
    pub literal: String,
}

impl View for Constant {
    type V = ConstantModel;

    open spec fn view(&self) -> ConstantModel {
        ConstantModel { column: self.column@, literal: self.literal@ }
    }
}

/// The constants of a list, as contracts see them.
pub open spec fn constants_of(constants: Seq<Constant>) -> Seq<ConstantModel> {
    Seq::new(constants.len(), |i: int| constants[i]@)
}

/// An insert plan, as contracts see it.
pub struct PlanModel {
    /// The target table, written as the statement names it.
    pub table: Seq<char>,
    /// The columns that each record fills, in statement order.
    pub columns: Seq<Seq<char>>,
    /// The columns that the statement fills with a literal.
    pub constants: Seq<ConstantModel>,
    /// One row per record, in input order; a row has one cell per column.
    pub rows: Seq<Seq<CellModel>>,
}

/// The name of the statement parameter that stands for a column.
pub open spec fn parameter_name(column: Seq<char>) -> Seq<char> {
    ":"@ + column
}

impl PlanModel {
    /// Every row has one cell for each column.
    pub open spec fn well_formed(self) -> bool {
        forall|i: int| 0 <= i < self.rows.len() ==> #[trigger] self.rows[i].len() == self.columns.len()
    }

    /// The columns that the statement names: those bound per record, then
    /// those filled with a literal.
    pub open spec fn named_columns(self) -> Seq<Seq<char>> {
        self.columns + Seq::new(self.constants.len(), |i: int| self.constants[i].column)
    }

    /// What the statement gives each named column: a parameter called after
    /// the column, or the column's literal.
    pub open spec fn given_values(self) -> Seq<Seq<char>> {
        Seq::new(self.columns.len(), |i: int| parameter_name(self.columns[i])) + Seq::new(
            self.constants.len(),
            |i: int| self.constants[i].literal,
        )
    }

    /// The text of the statement: an insert into the table that leaves an
    /// existing row untouched where the new one conflicts with it.
    pub open spec fn statement(self) -> Seq<char> {
        "INSERT OR IGNORE INTO "@ + self.table + " ("@ + joined_text(self.named_columns())
            + ") VALUES ("@ + joined_text(self.given_values()) + ");"@
    }
}

/// The integers among the cells of a row, each with the parameter that it is
/// bound to, in column order.
pub open spec fn integer_bindings(columns: Seq<Seq<char>>, row: Seq<CellModel>) -> Seq<
    (Seq<char>, int),
>
    decreases row.len(),
{
    if row.len() == 0 || columns.len() == 0 {
        Seq::empty()
    } else {
        let before = integer_bindings(columns.drop_last(), row.drop_last());
        match row.last() {
            CellModel::Integer(value) => before.push((parameter_name(columns.last()), value)),
            CellModel::Text(_) => before,
        }
    }
}

/// The texts among the cells of a row, each with the parameter that it is
/// bound to, in column order.
pub open spec fn text_bindings(columns: Seq<Seq<char>>, row: Seq<CellModel>) -> Seq<
    (Seq<char>, Seq<char>),
>
    decreases row.len(),
{
    if row.len() == 0 || columns.len() == 0 {
        Seq::empty()
    } else {
        let before = text_bindings(columns.drop_last(), row.drop_last());
        match row.last() {
            CellModel::Integer(_) => before,
            CellModel::Text(text) => before.push((parameter_name(columns.last()), text)),
        }
    }
}

/// Each cell of a row is bound under the parameter that the statement
/// writes for the cell's column, and nothing else is bound.
pub proof fn lemma_bindings_cover_row(columns: Seq<Seq<char>>, row: Seq<CellModel>, index: int)
    requires
        row.len() == columns.len(),
        0 <= index < row.len(),
    ensures
        integer_bindings(columns, row).len() + text_bindings(columns, row).len() == row.len(),
        match row[index] {
            CellModel::Integer(value) => integer_bindings(columns, row).contains(
                (parameter_name(columns[index]), value),
            ),
            CellModel::Text(text) => text_bindings(columns, row).contains(
                (parameter_name(columns[index]), text),
            ),
        },
    decreases row.len(),
{
    let integers = integer_bindings(columns, row);
    let texts = text_bindings(columns, row);
    let fewer_integers = integer_bindings(columns.drop_last(), row.drop_last());
    let fewer_texts = text_bindings(columns.drop_last(), row.drop_last());
    if row.len() > 1 {
        let other = if index == row.len() - 1 {
            0
        } else {
            index
        };
        lemma_bindings_cover_row(columns.drop_last(), row.drop_last(), other);
    } else {
        assert(row.drop_last().len() == 0);
        assert(fewer_integers.len() == 0);
        assert(fewer_texts.len() == 0);
    }
    if index == row.len() - 1 {
        match row.last() {
            CellModel::Integer(value) => {
                assert(integers[integers.len() - 1] == (parameter_name(columns[index]), value));
            },
            CellModel::Text(text) => {
                assert(texts[texts.len() - 1] == (parameter_name(columns[index]), text));
            },
        }
    } else {
        assert(row.drop_last()[index] == row[index]);
        assert(columns.drop_last()[index] == columns[index]);
        match row[index] {
            CellModel::Integer(value) => {
                let bound = (parameter_name(columns[index]), value);
                let k = choose|k: int| 0 <= k < fewer_integers.len() && fewer_integers[k] == bound;
                assert(integers[k] == bound);
            },
            CellModel::Text(text) => {
                let bound = (parameter_name(columns[index]), text);
                let k = choose|k: int| 0 <= k < fewer_texts.len() && fewer_texts[k] == bound;
                assert(texts[k] == bound);
            },
        }
    }
}

/// Named integers, as contracts see them.
pub open spec fn named_integers(bindings: Seq<(String, i64)>) -> Seq<(Seq<char>, int)> {
    Seq::new(bindings.len(), |i: int| (bindings[i].0@, bindings[i].1 as int))
}

/// Named texts, as contracts see them.
pub open spec fn named_texts(bindings: Seq<(String, String)>) -> Seq<(Seq<char>, Seq<char>)> {
    Seq::new(bindings.len(), |i: int| (bindings[i].0@, bindings[i].1@))
}

/// The values to bind for one row, apart by kind.
pub struct Bindings {
    pub integers: Vec<(String, i64)>,
    pub texts: Vec<(String, String)>,
}

/// Names each cell of a row after its column.
fn bindings_for(columns: &Vec<String>, row: &Vec<Cell>) -> (bindings: Bindings)
    requires
        row.len() == columns.len(),
    ensures
        named_integers(bindings.integers@) == integer_bindings(texts_of(columns@), cells_of(row@)),
        named_texts(bindings.texts@) == text_bindings(texts_of(columns@), cells_of(row@)),
{
    let ghost names = texts_of(columns@);
    let ghost cells = cells_of(row@);
    let mut integers: Vec<(String, i64)> = Vec::new();
    let mut texts: Vec<(String, String)> = Vec::new();
    let mut i: usize = 0;
    while i < row.len()
        invariant
            i <= row.len() == columns.len(),
            names == texts_of(columns@),
            cells == cells_of(row@),
            named_integers(integers@) == integer_bindings(names.take(i as int), cells.take(i as int)),
            named_texts(texts@) == text_bindings(names.take(i as int), cells.take(i as int)),
        decreases row.len() - i,
    {
        let ghost integers_before = named_integers(integers@);
        let ghost texts_before = named_texts(texts@);
        let mut name = ":".to_owned();
        name.append(columns[i].as_str());
        proof {
            assert(names.take(i + 1).drop_last() == names.take(i as int));
            assert(cells.take(i + 1).drop_last() == cells.take(i as int));
            assert(names.take(i + 1).last() == columns@[i as int]@);
            assert(cells.take(i + 1).last() == row@[i as int]@);
        }
        match &row[i] {
            Cell::Integer(value) => {
                integers.push((name, *value));
                proof {
                    assert(named_integers(integers@) == integers_before.push(
                        (parameter_name(columns@[i as int]@), *value as int),
                    ));
                }
            },
            Cell::Text(text) => {
                texts.push((name, text.clone()));
                proof {
                    assert(named_texts(texts@) == texts_before.push(
                        (parameter_name(columns@[i as int]@), text@),
                    ));
                }
            },
        }
        i += 1;
    }
    proof {
        assert(names.take(i as int) == names);
        assert(cells.take(i as int) == cells);
    }
    Bindings { integers, texts }
}

/// A record that the database did not take, and why.
#[derive(Debug)]
pub struct RecordFailure {
    /// The record's place in the collection.
    pub index: usize,
    pub error: rusqlite::Error,
}

/// What became of restoring one collection.
#[derive(Debug)]
pub struct RestoreReport {
    /// How many records were handed to the database, taken or not.
    pub attempted: i32,
    /// The records that the database did not take, in input order.
    pub failures: Vec<RecordFailure>,
}

/// The failures name records of a collection of `count` records, each at
/// most once and in input order.
pub open spec fn failures_in_order(failures: Seq<RecordFailure>, count: nat) -> bool {
    &&& forall|i: int| 0 <= i < failures.len() ==> (#[trigger] failures[i]).index < count
    &&& forall|i: int, j: int|
        0 <= i < j < failures.len() ==> (#[trigger] failures[i]).index < (#[trigger] failures[j]).index
}

/// The failures among the outcomes of a restore: one for each record whose
/// run ended in an error, with that error, in input order.
pub open spec fn failures_of(outcomes: Seq<Result<usize, rusqlite::Error>>) -> Seq<RecordFailure>
    decreases outcomes.len(),
{
    if outcomes.len() == 0 {
        Seq::empty()
    } else {
        let before = failures_of(outcomes.drop_last());
        match outcomes.last() {
            Ok(_) => before,
            Err(error) => before.push(
                RecordFailure { index: (outcomes.len() - 1) as usize, error },
            ),
        }
    }
}

/// The failures among some outcomes name places among them, each at most
/// once and in input order.
pub proof fn lemma_failures_are_in_order(outcomes: Seq<Result<usize, rusqlite::Error>>)
    requires
        outcomes.len() <= usize::MAX,
    ensures
        failures_in_order(failures_of(outcomes), outcomes.len()),
        failures_of(outcomes).len() <= outcomes.len(),
    decreases outcomes.len(),
{
    if outcomes.len() > 0 {
        lemma_failures_are_in_order(outcomes.drop_last());
        let before = failures_of(outcomes.drop_last());
        let all = failures_of(outcomes);
        assert forall|i: int| 0 <= i < all.len() implies (#[trigger] all[i]).index
            < outcomes.len() by {
            if i < before.len() {
                assert(all[i] == before[i]);
            }
        }
        assert forall|i: int, j: int| 0 <= i < j < all.len() implies (#[trigger] all[i]).index < (
        #[trigger] all[j]).index by {
            assert(all[i] == before[i]);
            if j < before.len() {
                assert(all[j] == before[j]);
            }
        }
    }
}

/// Picks the failures out of the outcomes of a restore, one outcome per
/// record in input order.
pub fn failures_among(outcomes: Vec<Result<usize, rusqlite::Error>>) -> (failures: Vec<
    RecordFailure,
>)
    ensures
        failures@ == failures_of(outcomes@),
        failures_in_order(failures@, outcomes@.len()),
{
    let ghost all = outcomes@;
    let count = outcomes.len();
    let mut failures: Vec<RecordFailure> = Vec::new();
    let mut index: usize = 0;
    for outcome in it: outcomes
        invariant
            it.seq() == all,
            count == all.len(),
            index == it.index(),
            failures@ == failures_of(all.take(index as int)),
    {
        proof {
            let next = all.take(index + 1);
            assert(next.drop_last() == all.take(index as int));
            assert(next.last() == outcome);
        }
        match outcome {
            Ok(_) => {},
            Err(error) => {
                failures.push(RecordFailure { index, error });
            },
        }
        index += 1;
    }
    proof {
        assert(all.take(index as int) == all);
        lemma_failures_are_in_order(all);
    }
    failures
}

/// Prepares a statement on a connection.
///
/// Wraps `rusqlite::Connection::prepare`. Whether the database accepts the
/// text depends on the database, so nothing is claimed of the outcome.
#[verifier::external_body]
fn prepare<'conn>(connection: &'conn rusqlite::Connection, sql: &str) -> (prepared: Result<
    rusqlite::Statement<'conn>,
    rusqlite::Error,
>) {
    connection.prepare(sql)
}

/// Binds the named values to a prepared statement and runs it once.
///
/// Wraps `rusqlite::Statement::execute` with named parameters. What the
/// statement does depends on the database, so nothing is claimed of the
/// outcome.
#[verifier::external_body]
fn execute_named(
    statement: &mut rusqlite::Statement<'_>,
    integers: &Vec<(String, i64)>,
    texts: &Vec<(String, String)>,
) -> (changed: Result<usize, rusqlite::Error>) {
    let mut params: Vec<(&str, &dyn rusqlite::ToSql)> = Vec::new();
    for (name, value) in integers.iter() {
        params.push((name.as_str(), value));
    }
    for (name, value) in texts.iter() {
        params.push((name.as_str(), value));
    }
    statement.execute(params.as_slice())
}

/// One insert statement and the rows to run it with.
pub struct InsertPlan {
    table: String,
    columns: Vec<String>,
    constants: Vec<Constant>,
    rows: Vec<Vec<Cell>>,
}

impl View for InsertPlan {
    type V = PlanModel;

    closed spec fn view(&self) -> PlanModel {
        PlanModel {
            table: self.table@,
            columns: texts_of(self.columns@),
            constants: constants_of(self.constants@),
            rows: rows_of(self.rows@),
        }
    }
}

impl InsertPlan {
    #[verifier::type_invariant]
    spec fn every_row_fits(self) -> bool {
        forall|i: int| 0 <= i < self.rows@.len() ==> (#[trigger] self.rows@[i]).len() == self.columns@.len()
    }

    /// A plan for `table` that binds `columns` to the cells of each of `rows`
    /// and fills `constants` by the statement itself.
    pub(crate) fn new(
        table: String,
        columns: Vec<String>,
        constants: Vec<Constant>,
        rows: Vec<Vec<Cell>>,
    ) -> (plan: InsertPlan)
        requires
            forall|i: int| 0 <= i < rows@.len() ==> (#[trigger] rows@[i]).len() == columns@.len(),
        ensures
            plan@ == (PlanModel {
                table: table@,
                columns: texts_of(columns@),
                constants: constants_of(constants@),
                rows: rows_of(rows@),
            }),
    {
        InsertPlan { table, columns, constants, rows }
    }

    /// How many records the plan holds. Each of its rows has one cell per
    /// column.
    pub fn row_count(&self) -> (count: usize)
        ensures
            count == self@.rows.len(),
            self@.well_formed(),
    {
        proof {
            use_type_invariant(self);
        }
        self.rows.len()
    }

    /// The text of the insert statement.
    pub fn statement(&self) -> (sql: String)
        ensures
            sql@ == self@.statement(),
    {
        let mut names: Vec<String> = Vec::new();
        let mut values: Vec<String> = Vec::new();
        let mut i: usize = 0;
        while i < self.columns.len()
            invariant
                i <= self.columns.len(),
                texts_of(names@) == texts_of(self.columns@).take(i as int),
                texts_of(values@) == Seq::new(
                    i as nat,
                    |k: int| parameter_name(self.columns@[k]@),
                ),
            decreases self.columns.len() - i,
        {
            let ghost names_before = texts_of(names@);
            let ghost values_before = texts_of(values@);
            let mut parameter = ":".to_owned();
            parameter.append(self.columns[i].as_str());
            names.push(self.columns[i].clone());
            values.push(parameter);
            proof {
                assert(texts_of(names@) == names_before.push(self.columns@[i as int]@));
                assert(texts_of(values@) == values_before.push(
                    parameter_name(self.columns@[i as int]@),
                ));
            }
            i += 1;
        }
        let ghost bound_names = texts_of(names@);
        let ghost bound_values = texts_of(values@);
        let mut j: usize = 0;
        while j < self.constants.len()
            invariant
                j <= self.constants.len(),
                texts_of(names@) == bound_names + Seq::new(
                    j as nat,
                    |k: int| self.constants@[k].column@,
                ),
                texts_of(values@) == bound_values + Seq::new(
                    j as nat,
                    |k: int| self.constants@[k].literal@,
                ),
            decreases self.constants.len() - j,
        {
            let ghost names_before = texts_of(names@);
            let ghost values_before = texts_of(values@);
            names.push(self.constants[j].column.clone());
            values.push(self.constants[j].literal.clone());
            proof {
                assert(texts_of(names@) == names_before.push(self.constants@[j as int].column@));
                assert(texts_of(values@) == values_before.push(self.constants@[j as int].literal@));
            }
            j += 1;
        }
        proof {
            assert(bound_names == texts_of(self.columns@));
            assert(texts_of(names@) == self@.named_columns());
            assert(texts_of(values@) == self@.given_values());
        }
        let mut sql = "INSERT OR IGNORE INTO ".to_owned();
        sql.append(self.table.as_str());
        sql.append(" (");
        sql.append(joined(&names).as_str());
        sql.append(") VALUES (");
        sql.append(joined(&values).as_str());
        sql.append(");");
        sql
    }

    /// What record `index` binds to the statement's parameters; `None` where
    /// the plan has no such record.
    pub fn bindings(&self, index: usize) -> (bindings: Option<Bindings>)
        ensures
            match bindings {
                Some(b) => {
                    &&& index < self@.rows.len()
                    &&& named_integers(b.integers@) == integer_bindings(
                        self@.columns,
                        self@.rows[index as int],
                    )
                    &&& named_texts(b.texts@) == text_bindings(
                        self@.columns,
                        self@.rows[index as int],
                    )
                },
                None => index >= self@.rows.len(),
            },
    {
        proof {
            use_type_invariant(self);
        }
        if index < self.rows.len() {
            Some(bindings_for(&self.columns, &self.rows[index]))
        } else {
            None
        }
    }

    /// Runs the statement once for each record, in input order, and returns
    /// what each run came to. A record that the database does not take does
    /// not keep the next one from being attempted.
    fn insert_rows(&self, statement: &mut rusqlite::Statement<'_>) -> (outcomes: Vec<
        Result<usize, rusqlite::Error>,
    >)
        ensures
            outcomes@.len() == self@.rows.len(),
    {
        proof {
            use_type_invariant(self);
        }
        let mut outcomes: Vec<Result<usize, rusqlite::Error>> = Vec::new();
        let mut i: usize = 0;
        while i < self.rows.len()
            invariant
                i <= self.rows.len(),
                forall|k: int|
                    0 <= k < self.rows@.len() ==> (#[trigger] self.rows@[k]).len()
                        == self.columns@.len(),
                outcomes@.len() == i,
            decreases self.rows.len() - i,
        {
            let bindings = bindings_for(&self.columns, &self.rows[i]);
            outcomes.push(execute_named(statement, &bindings.integers, &bindings.texts));
            i += 1;
        }
        outcomes
    }

    /// Loads the records through a statement that was prepared from
    /// `statement()`, or gives up where preparing it failed. A record that
    /// the database refuses does not end the restore: all are attempted.
    pub fn insert_into(&self, prepared: Result<rusqlite::Statement<'_>, rusqlite::Error>) -> (outcome:
        Result<RestoreReport, RestoreError>)
        ensures
            match prepared {
                Ok(_) => {
                    &&& outcome matches Ok(report)
                    &&& report.attempted == self@.rows.len() as i32
                    &&& failures_in_order(report.failures@, self@.rows.len())
                },
                Err(error) => outcome == Err::<RestoreReport, RestoreError>(
                    RestoreError::Prepare(error),
                ),
            },
    {
        match prepared {
            Ok(mut statement) => {
                let outcomes = self.insert_rows(&mut statement);
                let attempted = #[verifier::truncate]
                (outcomes.len() as i32);
                Ok(RestoreReport { attempted, failures: failures_among(outcomes) })
            },
            Err(error) => Err(RestoreError::Prepare(error)),
        }
    }

    /// Restores the collection over `connection`: prepares the statement,
    /// then attempts every record. Only a statement that cannot be prepared
    /// makes it fail.
    pub fn run(&self, connection: rusqlite::Connection) -> (outcome: Result<
        RestoreReport,
        RestoreError,
    >)
        ensures
            outcome matches Ok(report) ==> {
                &&& report.attempted == self@.rows.len() as i32
                &&& failures_in_order(report.failures@, self@.rows.len())
            },
            outcome matches Err(error) ==> error is Prepare,
    {
        let sql = self.statement();
        let prepared = prepare(&connection, sql.as_str());
        self.insert_into(prepared)
    }
}

} // verus!
