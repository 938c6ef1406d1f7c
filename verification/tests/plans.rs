use pihole_restore::plan::{failures_among, Bindings};
use pihole_restore::types::{
    Ad, AdList, AdListGroupAssignment, AdListGroupAssignmentList, Client, ClientGroupAssignment,
    ClientGroupAssignmentList, ClientList, Domain, DomainAuditEntry, DomainAuditList, DomainList,
    DomainListGroupAssignment, DomainListGroupAssignmentList, Group, GroupList, Record, Restorable,
};
use pihole_restore::plan::Cell;
use pihole_restore::text::{decimal, joined, same_text};

fn integers(bindings: &Bindings) -> Vec<(&str, i64)> {
    bindings.integers.iter().map(|(name, value)| (name.as_str(), *value)).collect()
}

fn texts(bindings: &Bindings) -> Vec<(&str, &str)> {
    bindings.texts.iter().map(|(name, value)| (name.as_str(), value.as_str())).collect()
}

#[test]
fn domainlist_statement() {
    let list = DomainList { domain_type: 2, list: vec![] };
    assert_eq!(
        list.plan().statement(),
        "INSERT OR IGNORE INTO domainlist (id,domain,enabled,date_added,comment,type) VALUES (:id,:domain,:enabled,:date_added,:comment,2);"
    );
    let negative = DomainList { domain_type: -17, list: vec![] };
    assert_eq!(
        negative.plan().statement(),
        "INSERT OR IGNORE INTO domainlist (id,domain,enabled,date_added,comment,type) VALUES (:id,:domain,:enabled,:date_added,:comment,-17);"
    );
}

#[test]
fn adlist_statement() {
    assert_eq!(
        AdList { list: vec![] }.plan().statement(),
        "INSERT OR IGNORE INTO adlist (id,address,enabled,date_added,comment) VALUES (:id,:address,:enabled,:date_added,:comment);"
    );
}

#[test]
fn domain_audit_statement() {
    assert_eq!(
        DomainAuditList { list: vec![] }.plan().statement(),
        "INSERT OR IGNORE INTO domain_audit (id,domain,date_added) VALUES (:id,:domain,:date_added);"
    );
}

#[test]
fn group_statement() {
    assert_eq!(
        GroupList { list: vec![] }.plan().statement(),
        "INSERT OR IGNORE INTO \"group\" (id,name,date_added,description) VALUES (:id,:name,:date_added,:description);"
    );
}

#[test]
fn client_statement() {
    assert_eq!(
        ClientList { list: vec![] }.plan().statement(),
        "INSERT OR IGNORE INTO client (id,ip,date_added,comment) VALUES (:id,:ip,:date_added,:comment);"
    );
}

#[test]
fn client_by_group_statement() {
    assert_eq!(
        ClientGroupAssignmentList { list: vec![] }.plan().statement(),
        "INSERT OR IGNORE INTO client_by_group (client_id,group_id) VALUES (:client_id,:group_id);"
    );
}

#[test]
fn domainlist_by_group_statement() {
    assert_eq!(
        DomainListGroupAssignmentList { list: vec![] }.plan().statement(),
        "INSERT OR IGNORE INTO domainlist_by_group (domainlist_id,group_id) VALUES (:domainlist_id,:group_id);"
    );
}

#[test]
fn adlist_by_group_statement() {
    assert_eq!(
        AdListGroupAssignmentList { list: vec![] }.plan().statement(),
        "INSERT OR IGNORE INTO adlist_by_group (adlist_id,group_id) VALUES (:adlist_id,:group_id);"
    );
}

#[test]
fn plan_has_one_row_per_record() {
    let list = AdList {
        list: vec![
            Ad {
                id: 1,
                address: "https://a.example".to_string(),
                enabled: 1,
                date_added: 10,
                comment: String::new(),
            },
            Ad {
                id: 2,
                address: "https://b.example".to_string(),
                enabled: 0,
                date_added: 20,
                comment: "second".to_string(),
            },
        ],
    };
    let plan = list.plan();
    assert_eq!(plan.row_count(), 2);
    let first = plan.bindings(0).unwrap();
    assert_eq!(integers(&first), vec![(":id", 1), (":enabled", 1), (":date_added", 10)]);
    assert_eq!(texts(&first), vec![(":address", "https://a.example"), (":comment", "")]);
    let second = plan.bindings(1).unwrap();
    assert_eq!(integers(&second), vec![(":id", 2), (":enabled", 0), (":date_added", 20)]);
    assert_eq!(texts(&second), vec![(":address", "https://b.example"), (":comment", "second")]);
    assert!(plan.bindings(2).is_none());
}

#[test]
fn domain_record_bindings() {
    let list = DomainList {
        domain_type: 1,
        list: vec![Domain {
            id: -4,
            domain: "ads.example.com".to_string(),
            enabled: 1,
            date_added: 1_700_000_000_000,
            comment: "why".to_string(),
        }],
    };
    let bindings = list.plan().bindings(0).unwrap();
    assert_eq!(
        integers(&bindings),
        vec![(":id", -4), (":enabled", 1), (":date_added", 1_700_000_000_000)]
    );
    assert_eq!(texts(&bindings), vec![(":domain", "ads.example.com"), (":comment", "why")]);
}

#[test]
fn remaining_record_bindings() {
    let audit = DomainAuditList {
        list: vec![DomainAuditEntry { id: 3, domain: "x.example".to_string(), date_added: 9 }],
    };
    let bindings = audit.plan().bindings(0).unwrap();
    assert_eq!(integers(&bindings), vec![(":id", 3), (":date_added", 9)]);
    assert_eq!(texts(&bindings), vec![(":domain", "x.example")]);

    let groups = GroupList {
        list: vec![Group { id: 0, name: "Default".to_string(), date_added: 1, description: "all".to_string() }],
    };
    let bindings = groups.plan().bindings(0).unwrap();
    assert_eq!(integers(&bindings), vec![(":id", 0), (":date_added", 1)]);
    assert_eq!(texts(&bindings), vec![(":name", "Default"), (":description", "all")]);

    let clients = ClientList {
        list: vec![Client { id: 8, ip: "10.0.0.8".to_string(), date_added: 2, comment: "tv".to_string() }],
    };
    let bindings = clients.plan().bindings(0).unwrap();
    assert_eq!(integers(&bindings), vec![(":id", 8), (":date_added", 2)]);
    assert_eq!(texts(&bindings), vec![(":ip", "10.0.0.8"), (":comment", "tv")]);

    let memberships =
        ClientGroupAssignmentList { list: vec![ClientGroupAssignment { client_id: 8, group_id: 0 }] };
    let bindings = memberships.plan().bindings(0).unwrap();
    assert_eq!(integers(&bindings), vec![(":client_id", 8), (":group_id", 0)]);
    assert!(texts(&bindings).is_empty());

    let domains = DomainListGroupAssignmentList {
        list: vec![DomainListGroupAssignment { domainlist_id: 5, group_id: 2 }],
    };
    let bindings = domains.plan().bindings(0).unwrap();
    assert_eq!(integers(&bindings), vec![(":domainlist_id", 5), (":group_id", 2)]);

    let ads =
        AdListGroupAssignmentList { list: vec![AdListGroupAssignment { adlist_id: 6, group_id: 3 }] };
    let bindings = ads.plan().bindings(0).unwrap();
    assert_eq!(integers(&bindings), vec![(":adlist_id", 6), (":group_id", 3)]);
}

#[test]
fn record_cells_follow_the_columns() {
    let cells = Ad {
        id: 1,
        address: "https://a.example".to_string(),
        enabled: 0,
        date_added: 10,
        comment: "c".to_string(),
    }
    .to_cells();
    assert_eq!(cells.len(), 5);
    assert!(matches!(cells[0], Cell::Integer(1)));
    assert!(matches!(&cells[1], Cell::Text(text) if text == "https://a.example"));
    assert!(matches!(cells[2], Cell::Integer(0)));
    assert!(matches!(cells[3], Cell::Integer(10)));
    assert!(matches!(&cells[4], Cell::Text(text) if text == "c"));
}

#[test]
fn decimal_writes_what_display_writes() {
    for n in [0, 1, 9, 10, 11, 99, 100, 12345, -1, -9, -10, -2147483647, i32::MAX, i32::MIN] {
        assert_eq!(decimal(n), format!("{}", n));
    }
    assert_eq!(decimal(0), "0");
    assert_eq!(decimal(-2147483648), "-2147483648");
    assert_eq!(decimal(2147483647), "2147483647");
    assert_eq!(decimal(1000), "1000");
}

#[test]
fn joined_puts_commas_between_items() {
    assert_eq!(joined(&vec![]), "");
    assert_eq!(joined(&vec!["a".to_string()]), "a");
    assert_eq!(joined(&vec!["a".to_string(), "b".to_string(), "".to_string()]), "a,b,");
}

#[test]
fn same_text_compares_characters() {
    assert!(same_text("", ""));
    assert!(same_text("custom.list", "custom.list"));
    assert!(!same_text("custom.list", "custom.lis"));
    assert!(!same_text("custom.list", "custom.lisT"));
    assert!(!same_text("ä", "a"));
}

#[test]
fn chars_of_keeps_every_character() {
    assert_eq!(pihole_restore::text::chars_of(""), Vec::<char>::new());
    assert_eq!(pihole_restore::text::chars_of("a ü\n"), vec!['a', ' ', 'ü', '\n']);
}

#[test]
fn failures_are_the_outcomes_that_ended_in_an_error() {
    assert!(failures_among(vec![]).is_empty());
    assert!(failures_among(vec![Ok(1), Ok(0), Ok(1)]).is_empty());
    let failures = failures_among(vec![
        Ok(1),
        Err(rusqlite::Error::InvalidQuery),
        Ok(0),
        Err(rusqlite::Error::QueryReturnedNoRows),
        Err(rusqlite::Error::InvalidQuery),
    ]);
    let places: Vec<usize> = failures.iter().map(|failure| failure.index).collect();
    assert_eq!(places, vec![1, 3, 4]);
    assert_eq!(failures[0].error, rusqlite::Error::InvalidQuery);
    assert_eq!(failures[1].error, rusqlite::Error::QueryReturnedNoRows);
    assert_eq!(failures[2].error, rusqlite::Error::InvalidQuery);
}
