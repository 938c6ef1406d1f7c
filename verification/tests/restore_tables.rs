use pihole_restore::error::RestoreError;
use pihole_restore::types::{
    Ad, AdList, AdListGroupAssignment, AdListGroupAssignmentList, Client, ClientGroupAssignment,
    ClientGroupAssignmentList, ClientList, Domain, DomainAuditEntry, DomainAuditList, DomainList,
    DomainListGroupAssignment, DomainListGroupAssignmentList, Group, GroupList, Restorable,
};
use rusqlite::Connection;

const SCHEMA: &str = "
CREATE TABLE \"group\" (id INTEGER PRIMARY KEY AUTOINCREMENT, enabled BOOLEAN NOT NULL DEFAULT 1,
    name TEXT UNIQUE NOT NULL, date_added INTEGER NOT NULL DEFAULT 0, description TEXT);
CREATE TABLE domainlist (id INTEGER PRIMARY KEY AUTOINCREMENT, type INTEGER NOT NULL DEFAULT 0,
    domain TEXT NOT NULL, enabled BOOLEAN NOT NULL DEFAULT 1, date_added INTEGER NOT NULL DEFAULT 0,
    comment TEXT, UNIQUE(domain, type));
CREATE TABLE adlist (id INTEGER PRIMARY KEY AUTOINCREMENT, address TEXT UNIQUE NOT NULL,
    enabled BOOLEAN NOT NULL DEFAULT 1, date_added INTEGER NOT NULL DEFAULT 0, comment TEXT);
CREATE TABLE domain_audit (id INTEGER PRIMARY KEY AUTOINCREMENT, domain TEXT UNIQUE NOT NULL,
    date_added INTEGER NOT NULL DEFAULT 0);
CREATE TABLE client (id INTEGER PRIMARY KEY AUTOINCREMENT, ip TEXT NOT NULL UNIQUE,
    date_added INTEGER NOT NULL DEFAULT 0, comment TEXT);
CREATE TABLE client_by_group (client_id INTEGER NOT NULL REFERENCES client (id),
    group_id INTEGER NOT NULL REFERENCES \"group\" (id), PRIMARY KEY (client_id, group_id));
CREATE TABLE domainlist_by_group (domainlist_id INTEGER NOT NULL REFERENCES domainlist (id),
    group_id INTEGER NOT NULL REFERENCES \"group\" (id), PRIMARY KEY (domainlist_id, group_id));
CREATE TABLE adlist_by_group (adlist_id INTEGER NOT NULL REFERENCES adlist (id),
    group_id INTEGER NOT NULL REFERENCES \"group\" (id), PRIMARY KEY (adlist_id, group_id));
";

/// An in-memory database that lives as long as the connection returned
/// here; `connect` opens further connections to it.
fn database(name: &str) -> Connection {
    let keeper = connect(name);
    keeper.execute_batch(SCHEMA).unwrap();
    keeper
}

fn connect(name: &str) -> Connection {
    Connection::open(format!("file:{}?mode=memory&cache=shared", name)).unwrap()
}

fn count(keeper: &Connection, table: &str) -> i64 {
    keeper
        .query_row(&format!("SELECT COUNT(*) FROM {}", table), [], |row| row.get(0))
        .unwrap()
}

fn domain(id: i32, name: &str) -> Domain {
    Domain { id, domain: name.to_string(), enabled: 1, date_added: 1000, comment: String::new() }
}

fn ad(id: i32, address: &str) -> Ad {
    Ad { id, address: address.to_string(), enabled: 1, date_added: 5, comment: "c".to_string() }
}

fn group(id: i32, name: &str) -> Group {
    Group { id, name: name.to_string(), date_added: 7, description: "d".to_string() }
}

#[test]
fn empty_collections_attempt_nothing() {
    let keeper = database("empty_collections");
    assert_eq!(
        DomainList { domain_type: 0, list: vec![] }.restore_table(connect("empty_collections")).unwrap(),
        0
    );
    assert_eq!(AdList { list: vec![] }.restore_table(connect("empty_collections")).unwrap(), 0);
    assert_eq!(
        DomainAuditList { list: vec![] }.restore_table(connect("empty_collections")).unwrap(),
        0
    );
    assert_eq!(GroupList { list: vec![] }.restore_table(connect("empty_collections")).unwrap(), 0);
    assert_eq!(ClientList { list: vec![] }.restore_table(connect("empty_collections")).unwrap(), 0);
    assert_eq!(
        ClientGroupAssignmentList { list: vec![] }
            .restore_table(connect("empty_collections"))
            .unwrap(),
        0
    );
    assert_eq!(
        DomainListGroupAssignmentList { list: vec![] }
            .restore_table(connect("empty_collections"))
            .unwrap(),
        0
    );
    assert_eq!(
        AdListGroupAssignmentList { list: vec![] }
            .restore_table(connect("empty_collections"))
            .unwrap(),
        0
    );
    for table in [
        "domainlist",
        "adlist",
        "domain_audit",
        "\"group\"",
        "client",
        "client_by_group",
        "domainlist_by_group",
        "adlist_by_group",
    ] {
        assert_eq!(count(&keeper, table), 0);
    }
}

#[test]
fn restoring_twice_is_restoring_once() {
    let keeper = database("restoring_twice");
    let list = DomainList { domain_type: 0, list: vec![domain(1, "ads.example.com")] };
    assert_eq!(list.restore_table(connect("restoring_twice")).unwrap(), 1);
    let once: Vec<(i32, String, i32, i64, String, i32)> = rows_of_domainlist(&keeper);
    assert_eq!(list.restore_table(connect("restoring_twice")).unwrap(), 1);
    let twice = rows_of_domainlist(&keeper);
    assert_eq!(once, twice);
    assert_eq!(twice, vec![(1, "ads.example.com".to_string(), 1, 1000, String::new(), 0)]);
}

fn rows_of_domainlist(keeper: &Connection) -> Vec<(i32, String, i32, i64, String, i32)> {
    let mut statement = keeper
        .prepare("SELECT id, domain, enabled, date_added, comment, type FROM domainlist ORDER BY id")
        .unwrap();
    let rows = statement
        .query_map([], |row| {
            Ok((row.get(0)?, row.get(1)?, row.get(2)?, row.get(3)?, row.get(4)?, row.get(5)?))
        })
        .unwrap();
    rows.map(|row| row.unwrap()).collect()
}

#[test]
fn existing_row_is_not_overwritten() {
    let keeper = database("not_overwritten");
    let first = DomainList { domain_type: 1, list: vec![domain(1, "ads.example.com")] };
    assert_eq!(first.restore_table(connect("not_overwritten")).unwrap(), 1);
    let second = DomainList {
        domain_type: 1,
        list: vec![
            Domain {
                id: 1,
                domain: "other.example.com".to_string(),
                enabled: 0,
                date_added: 2000,
                comment: "changed".to_string(),
            },
            domain(2, "more.example.com"),
        ],
    };
    assert_eq!(second.restore_table(connect("not_overwritten")).unwrap(), 2);
    assert_eq!(
        rows_of_domainlist(&keeper),
        vec![
            (1, "ads.example.com".to_string(), 1, 1000, String::new(), 1),
            (2, "more.example.com".to_string(), 1, 1000, String::new(), 1),
        ]
    );
}

#[test]
fn domain_type_goes_into_every_record() {
    let keeper = database("domain_type");
    let list = DomainList {
        domain_type: 3,
        list: vec![domain(1, "a.example.com"), domain(2, "b.example.com")],
    };
    assert_eq!(list.restore_table(connect("domain_type")).unwrap(), 2);
    let types: Vec<i32> = rows_of_domainlist(&keeper).into_iter().map(|row| row.5).collect();
    assert_eq!(types, vec![3, 3]);
}

#[test]
fn refused_record_does_not_stop_the_rest() {
    let keeper = database("refused_record");
    assert_eq!(
        GroupList { list: vec![group(0, "Default")] }
            .restore_table(connect("refused_record"))
            .unwrap(),
        1
    );
    assert_eq!(
        ClientList {
            list: vec![Client {
                id: 1,
                ip: "10.0.0.1".to_string(),
                date_added: 3,
                comment: String::new(),
            }],
        }
        .restore_table(connect("refused_record"))
        .unwrap(),
        1
    );
    let list = ClientGroupAssignmentList {
        list: vec![
            ClientGroupAssignment { client_id: 1, group_id: 0 },
            ClientGroupAssignment { client_id: 99, group_id: 0 },
            ClientGroupAssignment { client_id: 1, group_id: 0 },
            ClientGroupAssignment { client_id: 1, group_id: 77 },
        ],
    };
    let strict = connect("refused_record");
    strict.execute_batch("PRAGMA foreign_keys = ON;").unwrap();
    assert_eq!(list.restore_table(strict).unwrap(), 4);
    assert_eq!(count(&keeper, "client_by_group"), 1);

    let strict = connect("refused_record");
    strict.execute_batch("PRAGMA foreign_keys = ON;").unwrap();
    let report = list.plan().run(strict).unwrap();
    assert_eq!(report.attempted, 4);
    let refused: Vec<usize> = report.failures.iter().map(|failure| failure.index).collect();
    assert_eq!(refused, vec![1, 3]);
}

#[test]
fn refused_record_in_the_middle_lets_later_ones_in() {
    let keeper = database("refused_middle");
    GroupList { list: vec![group(0, "Default"), group(5, "Kids")] }
        .restore_table(connect("refused_middle"))
        .unwrap();
    AdList { list: vec![ad(1, "https://a.example/list"), ad(2, "https://b.example/list")] }
        .restore_table(connect("refused_middle"))
        .unwrap();
    let list = AdListGroupAssignmentList {
        list: vec![
            AdListGroupAssignment { adlist_id: 1, group_id: 0 },
            AdListGroupAssignment { adlist_id: 3, group_id: 0 },
            AdListGroupAssignment { adlist_id: 2, group_id: 5 },
        ],
    };
    let strict = connect("refused_middle");
    strict.execute_batch("PRAGMA foreign_keys = ON;").unwrap();
    assert_eq!(list.restore_table(strict).unwrap(), 3);
    let mut statement = keeper
        .prepare("SELECT adlist_id, group_id FROM adlist_by_group ORDER BY adlist_id")
        .unwrap();
    let held: Vec<(i32, i32)> = statement
        .query_map([], |row| Ok((row.get(0)?, row.get(1)?)))
        .unwrap()
        .map(|row| row.unwrap())
        .collect();
    assert_eq!(held, vec![(1, 0), (2, 5)]);
}

#[test]
fn missing_table_is_fatal() {
    let keeper = Connection::open("file:missing_table?mode=memory&cache=shared").unwrap();
    let list = AdList { list: vec![ad(1, "https://a.example/list")] };
    match list.restore_table(connect("missing_table")) {
        Err(RestoreError::Prepare(_)) => {}
        other => panic!("unexpected: {:?}", other),
    }
    let error = AdList { list: vec![] }.restore_table(connect("missing_table")).unwrap_err();
    assert!(error.message().contains("adlist"));
    drop(keeper);
}

#[test]
fn every_collection_lands_in_its_table() {
    let keeper = database("every_collection");
    let name = "every_collection";
    assert_eq!(
        GroupList { list: vec![group(0, "Default"), group(1, "Kids")] }
            .restore_table(connect(name))
            .unwrap(),
        2
    );
    assert_eq!(
        DomainList { domain_type: 2, list: vec![domain(4, "(^|\\.)ads\\.")] }
            .restore_table(connect(name))
            .unwrap(),
        1
    );
    assert_eq!(AdList { list: vec![ad(9, "https://a.example/list")] }.restore_table(connect(name)).unwrap(), 1);
    assert_eq!(
        DomainAuditList {
            list: vec![
                DomainAuditEntry { id: 1, domain: "x.example".to_string(), date_added: 11 },
                DomainAuditEntry { id: 2, domain: "y.example".to_string(), date_added: 12 },
                DomainAuditEntry { id: 3, domain: "z.example".to_string(), date_added: 13 },
            ],
        }
        .restore_table(connect(name))
        .unwrap(),
        3
    );
    assert_eq!(
        ClientList {
            list: vec![Client {
                id: 6,
                ip: "192.168.1.0/24".to_string(),
                date_added: 21,
                comment: "lan".to_string(),
            }],
        }
        .restore_table(connect(name))
        .unwrap(),
        1
    );
    assert_eq!(
        ClientGroupAssignmentList { list: vec![ClientGroupAssignment { client_id: 6, group_id: 1 }] }
            .restore_table(connect(name))
            .unwrap(),
        1
    );
    assert_eq!(
        DomainListGroupAssignmentList {
            list: vec![
                DomainListGroupAssignment { domainlist_id: 4, group_id: 0 },
                DomainListGroupAssignment { domainlist_id: 4, group_id: 1 },
            ],
        }
        .restore_table(connect(name))
        .unwrap(),
        2
    );
    assert_eq!(
        AdListGroupAssignmentList { list: vec![AdListGroupAssignment { adlist_id: 9, group_id: 0 }] }
            .restore_table(connect(name))
            .unwrap(),
        1
    );
    assert_eq!(count(&keeper, "\"group\""), 2);
    assert_eq!(count(&keeper, "domainlist"), 1);
    assert_eq!(count(&keeper, "adlist"), 1);
    assert_eq!(count(&keeper, "domain_audit"), 3);
    assert_eq!(count(&keeper, "client"), 1);
    assert_eq!(count(&keeper, "client_by_group"), 1);
    assert_eq!(count(&keeper, "domainlist_by_group"), 2);
    assert_eq!(count(&keeper, "adlist_by_group"), 1);
    let client: (i32, String, i64, String) = keeper
        .query_row("SELECT id, ip, date_added, comment FROM client", [], |row| {
            Ok((row.get(0)?, row.get(1)?, row.get(2)?, row.get(3)?))
        })
        .unwrap();
    assert_eq!(client, (6, "192.168.1.0/24".to_string(), 21, "lan".to_string()));
    let kids: (i32, String, i64, String) = keeper
        .query_row("SELECT id, name, date_added, description FROM \"group\" WHERE id = 1", [], |row| {
            Ok((row.get(0)?, row.get(1)?, row.get(2)?, row.get(3)?))
        })
        .unwrap();
    assert_eq!(kids, (1, "Kids".to_string(), 7, "d".to_string()));
}

#[test]
fn database_that_cannot_be_opened() {
    let problem = Connection::open("/no/such/directory/gravity.db").unwrap_err();
    let error = RestoreError::Connect(problem);
    assert!(!error.message().is_empty());
    assert!(matches!(error, RestoreError::Connect(_)));
}
