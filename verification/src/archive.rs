//! Routing the entries of a backup archive, and the account of what became
//! of each.

use crate::error::RestoreError;
use crate::text::same_text;
use vstd::prelude::*;

verus! {

/// What an archive entry is restored into.
#[derive(Clone, Copy, Debug, PartialEq, Eq, Structural)]
pub enum EntryTarget {
    /// One of the four domain lists; `domain_type` tells which.
    Domains { domain_type: i32 },
    Ads,
    DomainAudit,
    Groups,
    Clients,
    ClientGroups,
    DomainGroups,
    AdGroups,
    /// The local DNS override file.
    LocalDns,
}

/// The target that an entry name stands for; `None` for a name that the
/// restore does not know.
pub open spec fn target_of(name: Seq<char>) -> Option<EntryTarget> {
    if name == "whitelist.exact.json"@ {
        Some(EntryTarget::Domains { domain_type: 0 })
    } else if name == "blacklist.exact.json"@ {
        Some(EntryTarget::Domains { domain_type: 1 })
    } else if name == "whitelist.regex.json"@ {
        Some(EntryTarget::Domains { domain_type: 2 })
    } else if name == "blacklist.regex.json"@ {
        Some(EntryTarget::Domains { domain_type: 3 })
    } else if name == "adlist.json"@ {
        Some(EntryTarget::Ads)
    } else if name == "domain_audit.json"@ {
        Some(EntryTarget::DomainAudit)
    } else if name == "group.json"@ {
        Some(EntryTarget::Groups)
    } else if name == "client.json"@ {
        Some(EntryTarget::Clients)
    } else if name == "client_by_group.json"@ {
        Some(EntryTarget::ClientGroups)
    } else if name == "domainlist_by_group.json"@ {
        Some(EntryTarget::DomainGroups)
    } else if name == "adlist_by_group.json"@ {
        Some(EntryTarget::AdGroups)
    } else if name == "custom.list"@ {
        Some(EntryTarget::LocalDns)
    } else {
        None
    }
}

/// Tells what an archive entry is restored into, going by its name.
pub fn classify_entry(name: &str) -> (target: Option<EntryTarget>)
    ensures
        target == target_of(name@),
{
    if same_text(name, "whitelist.exact.json") {
        Some(EntryTarget::Domains { domain_type: 0 })
    } else if same_text(name, "blacklist.exact.json") {
        Some(EntryTarget::Domains { domain_type: 1 })
    } else if same_text(name, "whitelist.regex.json") {
        Some(EntryTarget::Domains { domain_type: 2 })
    } else if same_text(name, "blacklist.regex.json") {
        Some(EntryTarget::Domains { domain_type: 3 })
    } else if same_text(name, "adlist.json") {
        Some(EntryTarget::Ads)
    } else if same_text(name, "domain_audit.json") {
        Some(EntryTarget::DomainAudit)
    } else if same_text(name, "group.json") {
        Some(EntryTarget::Groups)
    } else if same_text(name, "client.json") {
        Some(EntryTarget::Clients)
    } else if same_text(name, "client_by_group.json") {
        Some(EntryTarget::ClientGroups)
    } else if same_text(name, "domainlist_by_group.json") {
        Some(EntryTarget::DomainGroups)
    } else if same_text(name, "adlist_by_group.json") {
        Some(EntryTarget::AdGroups)
    } else if same_text(name, "custom.list") {
        Some(EntryTarget::LocalDns)
    } else {
        None
    }
}

/// What became of one archive entry, as contracts see it.
pub struct OutcomeModel {
    pub name: Seq<char>,
    pub result: Result<i32, RestoreError>,
}

/// What became of one archive entry: how many records were attempted, or
/// why its restore was given up.
#[derive(Debug)]
pub struct EntryOutcome {
    pub name: String,
    pub result: Result<i32, RestoreError>,
}

impl View for EntryOutcome {
    type V = OutcomeModel;

    open spec fn view(&self) -> OutcomeModel {
        OutcomeModel { name: self.name@, result: self.result }
    }
}

/// The outcomes of a list, as contracts see them.
pub open spec fn outcomes_of(outcomes: Seq<EntryOutcome>) -> Seq<OutcomeModel> {
    Seq::new(outcomes.len(), |i: int| outcomes[i]@)
}

/// The account once one more entry has been dealt with: its outcome is
/// entered where the restore knows its name, and nothing is entered for
/// an entry under any other name.
pub open spec fn after_record(account: Seq<OutcomeModel>, entry: OutcomeModel) -> Seq<
    OutcomeModel,
> {
    if target_of(entry.name) is Some {
        account.push(entry)
    } else {
        account
    }
}

/// The account once a run of entries has been dealt with, in archive order.
pub open spec fn after_records(account: Seq<OutcomeModel>, entries: Seq<OutcomeModel>) -> Seq<
    OutcomeModel,
>
    decreases entries.len(),
{
    if entries.len() == 0 {
        account
    } else {
        after_record(after_records(account, entries.drop_last()), entries.last())
    }
}

/// Every outcome of the account stands under a name that the restore knows.
pub open spec fn names_known(account: Seq<OutcomeModel>) -> bool {
    forall|i: int| 0 <= i < account.len() ==> target_of(#[trigger] account[i].name) is Some
}

/// An entry under an unknown name is skipped: the account is what it would
/// be had the archive not held the entry, so the entries before and after
/// it keep their outcomes and their order.
pub proof fn lemma_unknown_entry_is_skipped(
    account: Seq<OutcomeModel>,
    entries: Seq<OutcomeModel>,
    place: int,
)
    requires
        0 <= place < entries.len(),
        target_of(entries[place].name) is None,
    ensures
        after_records(account, entries) == after_records(account, entries.remove(place)),
    decreases entries.len(),
{
    let others = entries.remove(place);
    if place == entries.len() - 1 {
        assert(others == entries.drop_last());
    } else {
        lemma_unknown_entry_is_skipped(account, entries.drop_last(), place);
        assert(others.drop_last() == entries.drop_last().remove(place));
        assert(others.last() == entries.last());
    }
}

/// No entry under an unknown name gets into the account, as an error or
/// otherwise.
pub proof fn lemma_account_names_are_known(
    account: Seq<OutcomeModel>,
    entries: Seq<OutcomeModel>,
)
    requires
        names_known(account),
    ensures
        names_known(after_records(account, entries)),
    decreases entries.len(),
{
    if entries.len() > 0 {
        lemma_account_names_are_known(account, entries.drop_last());
    }
}

/// Every entry under a known name gets into the account with the outcome
/// that it had, after all that came before it.
pub proof fn lemma_known_entry_is_entered(
    account: Seq<OutcomeModel>,
    entries: Seq<OutcomeModel>,
    place: int,
)
    requires
        0 <= place < entries.len(),
        target_of(entries[place].name) is Some,
    ensures
        after_records(account, entries.take(place + 1)) == after_records(
            account,
            entries.take(place),
        ).push(entries[place]),
{
    assert(entries.take(place + 1).drop_last() == entries.take(place));
    assert(entries.take(place + 1).last() == entries[place]);
}

/// The account of a whole restore: one outcome per entry that the restore
/// knows, in archive order.
#[derive(Debug)]
pub struct ArchiveReport {
    pub outcomes: Vec<EntryOutcome>,
}

impl View for ArchiveReport {
    type V = Seq<OutcomeModel>;

    open spec fn view(&self) -> Seq<OutcomeModel> {
        outcomes_of(self.outcomes@)
    }
}

impl ArchiveReport {
    /// The account of an archive of which no entry has been seen yet.
    pub fn new() -> (report: ArchiveReport)
        ensures
            report@ == Seq::<OutcomeModel>::empty(),
    {
        ArchiveReport { outcomes: Vec::new() }
    }

    /// Enters what became of the entry called `name`. An entry under a name
    /// that the restore does not know is passed over: it leaves no outcome,
    /// whatever `result` says.
    pub fn record(&mut self, name: &str, result: Result<i32, RestoreError>) -> (entered: bool)
        ensures
            entered == target_of(name@).is_some(),
            final(self)@ == after_record(old(self)@, OutcomeModel { name: name@, result }),
    {
        match classify_entry(name) {
            Some(_) => {
                self.outcomes.push(EntryOutcome { name: name.to_owned(), result });
                proof {
                    assert(self@ == old(self)@.push(OutcomeModel { name: name@, result }));
                }
                true
            },
            None => false,
        }
    }
}

} // verus!
