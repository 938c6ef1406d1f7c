//! The record collections of a backup and how each is restored into its
//! table.

use crate::error::RestoreError;
use crate::plan::{
    cells_of, constants_of, rows_of, Cell, CellModel, Constant, ConstantModel, InsertPlan,
    PlanModel,
};
use crate::text::{decimal, decimal_text, texts_of};
use vstd::prelude::*;

verus! {

/// A record that can be written as one row of cells.
pub trait Record {
    /// The cells of the record, one per column of its table, in column order.
    spec fn cells(&self) -> Seq<CellModel>;

    /// Writes the record as a row.
    fn to_cells(&self) -> (row: Vec<Cell>)
        ensures
            cells_of(row@) == self.cells(),
    ;
}

/// The rows that a list of records stands for, in input order.
pub open spec fn rows_from<R: Record>(records: Seq<R>) -> Seq<Seq<CellModel>> {
    Seq::new(records.len(), |i: int| records[i].cells())
}

/// Writes each record of a list as a row.
fn rows_for<R: Record>(records: &Vec<R>) -> (rows: Vec<Vec<Cell>>)
    ensures
        rows_of(rows@) == rows_from(records@),
        rows@.len() == records@.len(),
        forall|i: int|
            0 <= i < rows@.len() ==> (#[trigger] rows@[i]).len() == records@[i].cells().len(),
{
    let mut rows: Vec<Vec<Cell>> = Vec::new();
    let mut i: usize = 0;
    while i < records.len()
        invariant
            i <= records.len(),
            rows@.len() == i,
            rows_of(rows@) == rows_from(records@).take(i as int),
            forall|k: int|
                0 <= k < rows@.len() ==> (#[trigger] rows@[k]).len() == records@[k].cells().len(),
        decreases records.len() - i,
    {
        let ghost before = rows_of(rows@);
        let row = records[i].to_cells();
        proof {
            assert(cells_of(row@).len() == row@.len());
        }
        rows.push(row);
        proof {
            assert(rows_of(rows@) == before.push(records@[i as int].cells()));
        }
        i += 1;
    }
    proof {
        assert(rows_from(records@).take(i as int) == rows_from(records@));
    }
    rows
}

/// The names of a list, each as a string of its own.
fn names(list: &[&str]) -> (owned: Vec<String>)
    ensures
        texts_of(owned@) == column_names(list@),
{
    let mut owned: Vec<String> = Vec::new();
    let mut i: usize = 0;
    while i < list.len()
        invariant
            i <= list.len(),
            texts_of(owned@) == Seq::new(i as nat, |k: int| list@[k]@),
        decreases list.len() - i,
    {
        let ghost before = texts_of(owned@);
        owned.push(list[i].to_owned());
        proof {
            assert(texts_of(owned@) == before.push(list@[i as int]@));
        }
        i += 1;
    }
    owned
}

/// The column names of a list, as contracts see them.
pub open spec fn column_names(list: Seq<&str>) -> Seq<Seq<char>> {
    Seq::new(list.len(), |i: int| list[i]@)
}

/// The plan that loads `records` into `table`, a cell of each record under
/// each of `columns`.
fn table_plan<R: Record>(
    table: &str,
    columns: &[&str],
    constants: Vec<Constant>,
    records: &Vec<R>,
) -> (plan: InsertPlan)
    requires
        forall|i: int|
            0 <= i < records@.len() ==> (#[trigger] records@[i]).cells().len() == columns@.len(),
    ensures
        plan@ == (PlanModel {
            table: table@,
            columns: column_names(columns@),
            constants: constants_of(constants@),
            rows: rows_from(records@),
        }),
{
    let columns = names(columns);
    let rows = rows_for(records);
    proof {
        assert(texts_of(columns@).len() == columns@.len());
    }
    InsertPlan::new(table.to_owned(), columns, constants, rows)
}

/// A collection of records that is restored into one table.
pub trait Restorable {
    /// The statement and the rows that restoring the collection hands to the
    /// database.
    spec fn plan_model(&self) -> PlanModel;

    /// How many leading columns make up the key by which the table tells
    /// whether a record is already there.
    spec fn conflict_key(&self) -> nat;

    /// Every row of the plan has a cell for each column, and the key is made
    /// of columns that each record fills.
    proof fn lemma_plan_is_well_formed(&self)
        ensures
            self.plan_model().well_formed(),
            1 <= self.conflict_key() <= self.plan_model().columns.len(),
    ;

    /// Lays out the restore: the insert statement and one row per record,
    /// in input order.
    fn plan(&self) -> (plan: InsertPlan)
        ensures
            plan@ == self.plan_model(),
    ;

    /// Restores the collection over `conn` and returns how many records
    /// were attempted: all of them, whether the table took them or not.
    /// It fails only where the statement cannot be prepared.
    fn restore_table(&self, conn: rusqlite::Connection) -> (count: Result<i32, RestoreError>)
        ensures
            count matches Ok(n) ==> n == self.plan_model().rows.len() as i32,
            count matches Err(error) ==> error is Prepare,
    {
        match self.plan().run(conn) {
            Ok(report) => Ok(report.attempted),
            Err(error) => Err(error),
        }
    }
}

/// An entry of a black or white list.
#[derive(Debug)]
pub struct Domain {
    pub id: i32,
    pub domain: String,
    pub enabled: i32,
    pub date_added: i64,
    pub comment: String,
}

/// The domains of one list. `domain_type` tells which list it is (exact or
/// regex, allow or deny) and goes into the `type` column of every record.
#[derive(Debug)]
pub struct DomainList {
    pub domain_type: i32,
    pub list: Vec<Domain>,
}

impl Record for Domain {
    open spec fn cells(&self) -> Seq<CellModel> {
        seq![
            CellModel::Integer(self.id as int),
            CellModel::Text(self.domain@),
            CellModel::Integer(self.enabled as int),
            CellModel::Integer(self.date_added as int),
            CellModel::Text(self.comment@),
        ]
    }

    fn to_cells(&self) -> (row: Vec<Cell>) {
        let mut row: Vec<Cell> = Vec::new();
        row.push(Cell::Integer(self.id as i64));
        row.push(Cell::Text(self.domain.clone()));
        row.push(Cell::Integer(self.enabled as i64));
        row.push(Cell::Integer(self.date_added));
        row.push(Cell::Text(self.comment.clone()));
        proof {
            assert(cells_of(row@) == self.cells());
        }
        row
    }
}

impl Restorable for DomainList {
    open spec fn plan_model(&self) -> PlanModel {
        PlanModel {
            table: "domainlist"@,
            columns: seq!["id"@, "domain"@, "enabled"@, "date_added"@, "comment"@],
            constants: seq![
                ConstantModel { column: "type"@, literal: decimal_text(self.domain_type as int) },
            ],
            rows: rows_from(self.list@),
        }
    }

    open spec fn conflict_key(&self) -> nat {
        1
    }

    proof fn lemma_plan_is_well_formed(&self) {
    }

    fn plan(&self) -> (plan: InsertPlan) {
        let columns = ["id", "domain", "enabled", "date_added", "comment"];
        let mut constants: Vec<Constant> = Vec::new();
        constants.push(Constant { column: "type".to_owned(), literal: decimal(self.domain_type) });
        proof {
            assert(column_names(columns@) == self.plan_model().columns);
            assert(constants_of(constants@) == self.plan_model().constants);
        }
        table_plan("domainlist", &columns, constants, &self.list)
    }
}

/// A source of blocked domains.
#[derive(Debug)]
pub struct Ad {
    pub id: i32,
    pub address: String,
    pub enabled: i32,
    pub date_added: i64,
    pub comment: String,
}

impl Record for Ad {
    open spec fn cells(&self) -> Seq<CellModel> {
        seq![
            CellModel::Integer(self.id as int),
            CellModel::Text(self.address@),
            CellModel::Integer(self.enabled as int),
            CellModel::Integer(self.date_added as int),
            CellModel::Text(self.comment@),
        ]
    }

    fn to_cells(&self) -> (row: Vec<Cell>) {
        let mut row: Vec<Cell> = Vec::new();
        row.push(Cell::Integer(self.id as i64));
        row.push(Cell::Text(self.address.clone()));
        row.push(Cell::Integer(self.enabled as i64));
        row.push(Cell::Integer(self.date_added));
        row.push(Cell::Text(self.comment.clone()));
        proof {
            assert(cells_of(row@) == self.cells());
        }
        row
    }
}

/// The ad sources of a backup.
#[derive(Debug)]
pub struct AdList {
    pub list: Vec<Ad>,
}

impl Restorable for AdList {
    open spec fn plan_model(&self) -> PlanModel {
        PlanModel {
            table: "adlist"@,
            columns: seq!["id"@, "address"@, "enabled"@, "date_added"@, "comment"@],
            constants: Seq::empty(),
            rows: rows_from(self.list@),
        }
    }

    open spec fn conflict_key(&self) -> nat {
        1
    }

    proof fn lemma_plan_is_well_formed(&self) {
    }

    fn plan(&self) -> (plan: InsertPlan) {
        let columns = ["id", "address", "enabled", "date_added", "comment"];
        let constants: Vec<Constant> = Vec::new();
        proof {
            assert(column_names(columns@) == self.plan_model().columns);
            assert(constants_of(constants@) == self.plan_model().constants);
        }
        table_plan("adlist", &columns, constants, &self.list)
    }
}

/// A domain that the audit log has seen.
#[derive(Debug)]
pub struct DomainAuditEntry {
    pub id: i32,
    pub domain: String,
    pub date_added: i64,
}

impl Record for DomainAuditEntry {
    open spec fn cells(&self) -> Seq<CellModel> {
        seq![
            CellModel::Integer(self.id as int),
            CellModel::Text(self.domain@),
            CellModel::Integer(self.date_added as int),
        ]
    }

    fn to_cells(&self) -> (row: Vec<Cell>) {
        let mut row: Vec<Cell> = Vec::new();
        row.push(Cell::Integer(self.id as i64));
        row.push(Cell::Text(self.domain.clone()));
        row.push(Cell::Integer(self.date_added));
        proof {
            assert(cells_of(row@) == self.cells());
        }
        row
    }
}

/// The audit trail of a backup.
#[derive(Debug)]
pub struct DomainAuditList {
    pub list: Vec<DomainAuditEntry>,
}

impl Restorable for DomainAuditList {
    open spec fn plan_model(&self) -> PlanModel {
        PlanModel {
            table: "domain_audit"@,
            columns: seq!["id"@, "domain"@, "date_added"@],
            constants: Seq::empty(),
            rows: rows_from(self.list@),
        }
    }

    open spec fn conflict_key(&self) -> nat {
        1
    }

    proof fn lemma_plan_is_well_formed(&self) {
    }

    fn plan(&self) -> (plan: InsertPlan) {
        let columns = ["id", "domain", "date_added"];
        let constants: Vec<Constant> = Vec::new();
        proof {
            assert(column_names(columns@) == self.plan_model().columns);
            assert(constants_of(constants@) == self.plan_model().constants);
        }
        table_plan("domain_audit", &columns, constants, &self.list)
    }
}

/// A group of clients that lists can be assigned to.
#[derive(Debug)]
pub struct Group {
    pub id: i32,
    pub name: String,
    pub date_added: i64,
    pub description: String,
}

impl Record for Group {
    open spec fn cells(&self) -> Seq<CellModel> {
        seq![
            CellModel::Integer(self.id as int),
            CellModel::Text(self.name@),
            CellModel::Integer(self.date_added as int),
            CellModel::Text(self.description@),
        ]
    }

    fn to_cells(&self) -> (row: Vec<Cell>) {
        let mut row: Vec<Cell> = Vec::new();
        row.push(Cell::Integer(self.id as i64));
        row.push(Cell::Text(self.name.clone()));
        row.push(Cell::Integer(self.date_added));
        row.push(Cell::Text(self.description.clone()));
        proof {
            assert(cells_of(row@) == self.cells());
        }
        row
    }
}

/// The groups of a backup.
#[derive(Debug)]
pub struct GroupList {
    pub list: Vec<Group>,
}

impl Restorable for GroupList {
    open spec fn plan_model(&self) -> PlanModel {
        PlanModel {
            table: "\"group\""@,
            columns: seq!["id"@, "name"@, "date_added"@, "description"@],
            constants: Seq::empty(),
            rows: rows_from(self.list@),
        }
    }

    open spec fn conflict_key(&self) -> nat {
        1
    }

    proof fn lemma_plan_is_well_formed(&self) {
    }

    fn plan(&self) -> (plan: InsertPlan) {
        let columns = ["id", "name", "date_added", "description"];
        let constants: Vec<Constant> = Vec::new();
        proof {
            assert(column_names(columns@) == self.plan_model().columns);
            assert(constants_of(constants@) == self.plan_model().constants);
        }
        table_plan("\"group\"", &columns, constants, &self.list)
    }
}

/// A client, known by its address or another identifier.
#[derive(Debug)]
pub struct Client {
    pub id: i32,
    pub ip: String,
    pub date_added: i64,
    pub comment: String,
}

impl Record for Client {
    open spec fn cells(&self) -> Seq<CellModel> {
        seq![
            CellModel::Integer(self.id as int),
            CellModel::Text(self.ip@),
            CellModel::Integer(self.date_added as int),
            CellModel::Text(self.comment@),
        ]
    }

    fn to_cells(&self) -> (row: Vec<Cell>) {
        let mut row: Vec<Cell> = Vec::new();
        row.push(Cell::Integer(self.id as i64));
        row.push(Cell::Text(self.ip.clone()));
        row.push(Cell::Integer(self.date_added));
        row.push(Cell::Text(self.comment.clone()));
        proof {
            assert(cells_of(row@) == self.cells());
        }
        row
    }
}

/// The clients of a backup.
#[derive(Debug)]
pub struct ClientList {
    pub list: Vec<Client>,
}

impl Restorable for ClientList {
    open spec fn plan_model(&self) -> PlanModel {
        PlanModel {
            table: "client"@,
            columns: seq!["id"@, "ip"@, "date_added"@, "comment"@],
            constants: Seq::empty(),
            rows: rows_from(self.list@),
        }
    }

    open spec fn conflict_key(&self) -> nat {
        1
    }

    proof fn lemma_plan_is_well_formed(&self) {
    }

    fn plan(&self) -> (plan: InsertPlan) {
        let columns = ["id", "ip", "date_added", "comment"];
        let constants: Vec<Constant> = Vec::new();
        proof {
            assert(column_names(columns@) == self.plan_model().columns);
            assert(constants_of(constants@) == self.plan_model().constants);
        }
        table_plan("client", &columns, constants, &self.list)
    }
}

/// The membership of one client in one group.
#[derive(Debug)]
pub struct ClientGroupAssignment {
    pub client_id: i32,
    pub group_id: i32,
}

impl Record for ClientGroupAssignment {
    open spec fn cells(&self) -> Seq<CellModel> {
        seq![
            CellModel::Integer(self.client_id as int),
            CellModel::Integer(self.group_id as int),
        ]
    }

    fn to_cells(&self) -> (row: Vec<Cell>) {
        let mut row: Vec<Cell> = Vec::new();
        row.push(Cell::Integer(self.client_id as i64));
        row.push(Cell::Integer(self.group_id as i64));
        proof {
            assert(cells_of(row@) == self.cells());
        }
        row
    }
}

/// The client memberships of a backup.
#[derive(Debug)]
pub struct ClientGroupAssignmentList {
    pub list: Vec<ClientGroupAssignment>,
}

impl Restorable for ClientGroupAssignmentList {
    open spec fn plan_model(&self) -> PlanModel {
        PlanModel {
            table: "client_by_group"@,
            columns: seq!["client_id"@, "group_id"@],
            constants: Seq::empty(),
            rows: rows_from(self.list@),
        }
    }

    open spec fn conflict_key(&self) -> nat {
        2
    }

    proof fn lemma_plan_is_well_formed(&self) {
    }

    fn plan(&self) -> (plan: InsertPlan) {
        let columns = ["client_id", "group_id"];
        let constants: Vec<Constant> = Vec::new();
        proof {
            assert(column_names(columns@) == self.plan_model().columns);
            assert(constants_of(constants@) == self.plan_model().constants);
        }
        table_plan("client_by_group", &columns, constants, &self.list)
    }
}

/// The assignment of one list domain to one group.
#[derive(Debug)]
pub struct DomainListGroupAssignment {
    pub domainlist_id: i32,
    pub group_id: i32,
}

impl Record for DomainListGroupAssignment {
    open spec fn cells(&self) -> Seq<CellModel> {
        seq![
            CellModel::Integer(self.domainlist_id as int),
            CellModel::Integer(self.group_id as int),
        ]
    }

    fn to_cells(&self) -> (row: Vec<Cell>) {
        let mut row: Vec<Cell> = Vec::new();
        row.push(Cell::Integer(self.domainlist_id as i64));
        row.push(Cell::Integer(self.group_id as i64));
        proof {
            assert(cells_of(row@) == self.cells());
        }
        row
    }
}

/// The domain assignments of a backup.
#[derive(Debug)]
pub struct DomainListGroupAssignmentList {
    pub list: Vec<DomainListGroupAssignment>,
}

impl Restorable for DomainListGroupAssignmentList {
    open spec fn plan_model(&self) -> PlanModel {
        PlanModel {
            table: "domainlist_by_group"@,
            columns: seq!["domainlist_id"@, "group_id"@],
            constants: Seq::empty(),
            rows: rows_from(self.list@),
        }
    }

    open spec fn conflict_key(&self) -> nat {
        2
    }

    proof fn lemma_plan_is_well_formed(&self) {
    }

    fn plan(&self) -> (plan: InsertPlan) {
        let columns = ["domainlist_id", "group_id"];
        let constants: Vec<Constant> = Vec::new();
        proof {
            assert(column_names(columns@) == self.plan_model().columns);
            assert(constants_of(constants@) == self.plan_model().constants);
        }
        table_plan("domainlist_by_group", &columns, constants, &self.list)
    }
}

/// The assignment of one ad source to one group.
#[derive(Debug)]
pub struct AdListGroupAssignment {
    pub adlist_id: i32,
    pub group_id: i32,
}

impl Record for AdListGroupAssignment {
    open spec fn cells(&self) -> Seq<CellModel> {
        seq![
            CellModel::Integer(self.adlist_id as int),
            CellModel::Integer(self.group_id as int),
        ]
    }

    fn to_cells(&self) -> (row: Vec<Cell>) {
        let mut row: Vec<Cell> = Vec::new();
        row.push(Cell::Integer(self.adlist_id as i64));
        row.push(Cell::Integer(self.group_id as i64));
        proof {
            assert(cells_of(row@) == self.cells());
        }
        row
    }
}

/// The ad source assignments of a backup.
#[derive(Debug)]
pub struct AdListGroupAssignmentList {
    pub list: Vec<AdListGroupAssignment>,
}

impl Restorable for AdListGroupAssignmentList {
    open spec fn plan_model(&self) -> PlanModel {
        PlanModel {
            table: "adlist_by_group"@,
            columns: seq!["adlist_id"@, "group_id"@],
            constants: Seq::empty(),
            rows: rows_from(self.list@),
        }
    }

    open spec fn conflict_key(&self) -> nat {
        2
    }

    proof fn lemma_plan_is_well_formed(&self) {
    }

    fn plan(&self) -> (plan: InsertPlan) {
        let columns = ["adlist_id", "group_id"];
        let constants: Vec<Constant> = Vec::new();
        proof {
            assert(column_names(columns@) == self.plan_model().columns);
            assert(constants_of(constants@) == self.plan_model().constants);
        }
        table_plan("adlist_by_group", &columns, constants, &self.list)
    }
}

} // verus!
