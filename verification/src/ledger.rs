//! The ledger: for each project the donations it was given, in the order in
//! which they came.
//!
//! A project's list comes into being with its first donation and only ever
//! grows. Owner and fee collector are set when the ledger is made and never
//! change afterwards.

use vstd::prelude::*;
use crate::bag::empty_bag;
use crate::coins::SomeCoins;
use crate::donation::{all_wf, donation_views, Donation, DonationView};
use crate::error::LedgerError;
use crate::msg::DonationsTotalResp;
use crate::strings::same_text;
use crate::totals::{is_totals_reply, sum_donations};

verus! {

/// A ledger as contracts speak of it.
pub struct LedgerView {
    pub owner: Option<Seq<char>>,
    pub fee_collector: Option<Seq<char>>,
    pub donations: Map<Seq<char>, Seq<DonationView>>,
}

/// The lists of a ledger that knows no project.
pub open spec fn no_donations() -> Map<Seq<char>, Seq<DonationView>> {
    Map::empty()
}

/// The donations that `project` was given, none where the ledger does not
/// know it.
pub open spec fn donations_of(ledger: LedgerView, project: Seq<char>) -> Seq<DonationView> {
    if ledger.donations.contains_key(project) {
        ledger.donations[project]
    } else {
        Seq::empty()
    }
}

/// The ledger after `donation` was appended to the list of `project`.
pub open spec fn recorded(ledger: LedgerView, project: Seq<char>, donation: DonationView)
    -> LedgerView {
    LedgerView {
        owner: ledger.owner,
        fee_collector: ledger.fee_collector,
        donations: ledger.donations.insert(project, donations_of(ledger, project).push(donation)),
    }
}

/// The text of an address that may not have been set.
pub open spec fn address_view(address: Option<String>) -> Option<Seq<char>> {
    match address {
        Some(a) => Some(a@),
        None => None,
    }
}

/// The donations of one project.
#[derive(Debug)]
struct ProjectEntry {
    project: String,
    donations: Vec<Donation>,
}

/// The ledger. It is made once, with or without owner and fee collector, and
/// from then on changes only by [`DonationLedger::record_donation`].
#[derive(Debug)]
pub struct DonationLedger {
    owner: Option<String>,
    fee_collector: Option<String>,
    projects: Vec<ProjectEntry>,
}

/// Whether one of `entries` is the entry of `project`.
spec fn has_entry(entries: Seq<ProjectEntry>, project: Seq<char>) -> bool {
    exists|i: int| 0 <= i < entries.len() && (#[trigger] entries[i]).project@ == project
}

/// The place of the entry of `project` among `entries`.
spec fn entry_index(entries: Seq<ProjectEntry>, project: Seq<char>) -> int {
    choose|i: int| 0 <= i < entries.len() && (#[trigger] entries[i]).project@ == project
}

/// Whether no project has two entries and every donation holds a valid bag.
spec fn entries_wf(entries: Seq<ProjectEntry>) -> bool {
    &&& forall|i: int, j: int|
        0 <= i < j < entries.len() ==> (#[trigger] entries[i]).project@ != (
        #[trigger] entries[j]).project@
    &&& forall|i: int| 0 <= i < entries.len() ==> all_wf((#[trigger] entries[i]).donations@)
}

/// The lists of `entries`, each under its project.
spec fn entries_map(entries: Seq<ProjectEntry>) -> Map<Seq<char>, Seq<DonationView>> {
    Map::new(
        |p: Seq<char>| has_entry(entries, p),
        |p: Seq<char>| donation_views(entries[entry_index(entries, p)].donations@),
    )
}

/// Where no project has two entries, the entry of a project is found at its
/// place and nowhere else.
proof fn lemma_entry_index(entries: Seq<ProjectEntry>, i: int)
    requires
        entries_wf(entries),
        0 <= i < entries.len(),
    ensures
        has_entry(entries, entries[i].project@),
        entry_index(entries, entries[i].project@) == i,
{
    let j = entry_index(entries, entries[i].project@);
    assert(entries[j].project@ == entries[i].project@);
}

/// Appending a donation to the list of the entry at `i` puts the longer list
/// under the project of that entry and changes nothing else.
proof fn lemma_append_to_entry(
    before: Seq<ProjectEntry>,
    after: Seq<ProjectEntry>,
    i: int,
    donation: Donation,
)
    requires
        entries_wf(before),
        donation.wf(),
        0 <= i < before.len() == after.len(),
        after[i].project == before[i].project,
        after[i].donations@ == before[i].donations@.push(donation),
        forall|k: int| 0 <= k < before.len() && k != i ==> after[k] == before[k],
    ensures
        entries_wf(after),
        entries_map(after) == entries_map(before).insert(
            before[i].project@,
            donation_views(before[i].donations@).push(donation@),
        ),
{
    let list = before[i].donations@;
    assert(entries_wf(after)) by {
        assert forall|k: int| 0 <= k < after.len() implies all_wf(
            (#[trigger] after[k]).donations@,
        ) by {
            assert(all_wf(before[k].donations@));
        }
    }
    lemma_entry_index(before, i);
    lemma_entry_index(after, i);
    assert(donation_views(list.push(donation)) =~= donation_views(list).push(donation@));
    assert forall|p: Seq<char>| has_entry(after, p) == has_entry(before, p) by {
        if has_entry(before, p) {
            let k = entry_index(before, p);
            assert(after[k].project@ == p);
        }
        if has_entry(after, p) {
            let k = entry_index(after, p);
            assert(before[k].project@ == p);
        }
    }
    assert forall|p: Seq<char>| has_entry(before, p) && p != before[i].project@ implies
        entry_index(after, p) == entry_index(before, p) by {
        let k = entry_index(before, p);
        lemma_entry_index(before, k);
        lemma_entry_index(after, k);
    }
    assert(entries_map(after) =~= entries_map(before).insert(
        before[i].project@,
        donation_views(list).push(donation@),
    ));
}

/// A new entry with one donation puts that donation under its project and
/// changes nothing else.
proof fn lemma_new_entry(before: Seq<ProjectEntry>, after: Seq<ProjectEntry>, donation: Donation)
    requires
        entries_wf(before),
        donation.wf(),
        after.len() == before.len() + 1,
        forall|k: int| 0 <= k < before.len() ==> after[k] == before[k],
        !has_entry(before, after.last().project@),
        after.last().donations@ == seq![donation],
    ensures
        entries_wf(after),
        entries_map(after) == entries_map(before).insert(
            after.last().project@,
            Seq::<DonationView>::empty().push(donation@),
        ),
{
    let last = before.len() as int;
    let project = after[last].project@;
    assert(entries_wf(after)) by {
        assert forall|k: int| 0 <= k < after.len() implies all_wf(
            (#[trigger] after[k]).donations@,
        ) by {
            if k < last {
                assert(all_wf(before[k].donations@));
            }
        }
        assert forall|k: int, j: int| 0 <= k < j < after.len() implies (
        #[trigger] after[k]).project@ != (#[trigger] after[j]).project@ by {
            if j == last {
                assert(before[k].project@ != project);
            } else {
                assert(before[k].project@ != before[j].project@);
            }
        }
    }
    lemma_entry_index(after, last);
    assert(donation_views(seq![donation]) =~= Seq::<DonationView>::empty().push(donation@));
    assert forall|p: Seq<char>| has_entry(after, p) == (has_entry(before, p) || p == project) by {
        if has_entry(before, p) {
            let k = entry_index(before, p);
            assert(after[k].project@ == p);
        }
        if has_entry(after, p) && p != project {
            let k = entry_index(after, p);
            assert(before[k].project@ == p);
        }
    }
    assert forall|p: Seq<char>| has_entry(before, p) implies entry_index(after, p) == entry_index(
        before,
        p,
    ) by {
        let k = entry_index(before, p);
        lemma_entry_index(before, k);
        lemma_entry_index(after, k);
    }
    assert(entries_map(after) =~= entries_map(before).insert(
        project,
        Seq::<DonationView>::empty().push(donation@),
    ));
}

/// Reading the totals twice from a ledger that did not change in between
/// gives the same reply twice.
pub proof fn lemma_totals_replies_agree(
    ledger: LedgerView,
    project: Seq<char>,
    first: Result<DonationsTotalResp, LedgerError>,
    second: Result<DonationsTotalResp, LedgerError>,
)
    requires
        is_totals_reply(donations_of(ledger, project), first),
        is_totals_reply(donations_of(ledger, project), second),
    ensures
        first is Ok <==> second is Ok,
        first is Ok ==> first->Ok_0@ == second->Ok_0@,
        first is Err ==> first->Err_0 == second->Err_0,
{
}

/// A project that the ledger does not know has totals of zero, and asking
/// for them is no error.
pub proof fn lemma_unknown_project_has_zero_totals(
    ledger: LedgerView,
    project: Seq<char>,
    reply: Result<DonationsTotalResp, LedgerError>,
)
    requires
        !ledger.donations.contains_key(project),
        is_totals_reply(donations_of(ledger, project), reply),
    ensures
        reply is Ok,
        reply->Ok_0@.raw_amount == empty_bag(),
        reply->Ok_0@.net_amount == empty_bag(),
{
}

/// Recording a donation lengthens the list of its project by that donation
/// and leaves every other list, the owner and the fee collector as they
/// were.
pub proof fn lemma_recorded_appends(
    ledger: LedgerView,
    project: Seq<char>,
    donation: DonationView,
    other: Seq<char>,
)
    ensures
        donations_of(recorded(ledger, project, donation), project) == donations_of(
            ledger,
            project,
        ).push(donation),
        other != project ==> donations_of(recorded(ledger, project, donation), other)
            == donations_of(ledger, other),
        donations_of(ledger, other).len() <= donations_of(
            recorded(ledger, project, donation),
            other,
        ).len(),
        recorded(ledger, project, donation).owner == ledger.owner,
        recorded(ledger, project, donation).fee_collector == ledger.fee_collector,
{
}

impl View for DonationLedger {
    type V = LedgerView;

    closed spec fn view(&self) -> LedgerView {
        LedgerView {
            owner: address_view(self.owner),
            fee_collector: address_view(self.fee_collector),
            donations: entries_map(self.projects@),
        }
    }
}

impl DonationLedger {
    /// No project has two lists, and every donation holds a valid bag.
    pub closed spec fn wf(&self) -> bool {
        entries_wf(self.projects@)
    }

    /// A ledger without donations. An address that is `None` was never set.
    pub fn new(owner: Option<String>, fee_collector: Option<String>) -> (ledger: DonationLedger)
        ensures
            ledger.wf(),
            ledger@.owner == address_view(owner),
            ledger@.fee_collector == address_view(fee_collector),
            ledger@.donations == no_donations(),
    {
        let ledger = DonationLedger { owner, fee_collector, projects: Vec::new() };
        proof {
            assert(ledger@.donations =~= no_donations());
        }
        ledger
    }

    /// A ledger that holds the stored list of one project and nothing else:
    /// the state in which a single donation or query finds the ledger.
    pub fn restore(
        owner: Option<String>,
        fee_collector: Option<String>,
        project: String,
        donations: Vec<Donation>,
    ) -> (ledger: DonationLedger)
        requires
            all_wf(donations@),
        ensures
            ledger.wf(),
            ledger@.owner == address_view(owner),
            ledger@.fee_collector == address_view(fee_collector),
            ledger@.donations == no_donations().insert(project@, donation_views(donations@)),
    {
        let mut projects: Vec<ProjectEntry> = Vec::new();
        projects.push(ProjectEntry { project, donations });
        let ledger = DonationLedger { owner, fee_collector, projects };
        proof {
            lemma_entry_index(ledger.projects@, 0);
            assert(ledger@.donations =~= no_donations().insert(
                project@,
                donation_views(donations@),
            ));
        }
        ledger
    }

    /// The owner, or `StorageNotFound` where none was ever set.
    pub fn owner(&self) -> (r: Result<String, LedgerError>)
        ensures
            match self@.owner {
                Some(a) => r matches Ok(owner) && owner@ == a,
                None => r matches Err(e) && e == LedgerError::StorageNotFound,
            },
    {
        match &self.owner {
            Some(a) => Ok(a.clone()),
            None => Err(LedgerError::StorageNotFound),
        }
    }

    /// The fee collector, or `StorageNotFound` where none was ever set.
    pub fn fee_collector(&self) -> (r: Result<String, LedgerError>)
        ensures
            match self@.fee_collector {
                Some(a) => r matches Ok(collector) && collector@ == a,
                None => r matches Err(e) && e == LedgerError::StorageNotFound,
            },
    {
        match &self.fee_collector {
            Some(a) => Ok(a.clone()),
            None => Err(LedgerError::StorageNotFound),
        }
    }

    /// The place of the entry of `project`, if it has one.
    fn find(&self, project: &str) -> (found: Option<usize>)
        requires
            self.wf(),
        ensures
            match found {
                Some(i) => i < self.projects@.len() && self.projects@[i as int].project@
                    == project@,
                None => !has_entry(self.projects@, project@),
            },
    {
        let mut i: usize = 0;
        while i < self.projects.len()
            invariant
                i <= self.projects@.len(),
                forall|k: int| 0 <= k < i ==> (#[trigger] self.projects@[k]).project@ != project@,
            decreases self.projects@.len() - i,
        {
            if same_text(self.projects[i].project.as_str(), project) {
                return Some(i);
            }
            i += 1;
        }
        None
    }

    /// Records that `donor` gave `raw` to `project`, and hands the donation
    /// back. The list of a project that the ledger does not know yet begins
    /// with this donation. An empty bag is refused with `NoFundsProvided`,
    /// and the ledger is then left as it was.
    pub fn record_donation(&mut self, project: &str, donor: &str, raw: SomeCoins) -> (r: Result<
        Donation,
        LedgerError,
    >)
        requires
            old(self).wf(),
            raw.wf(),
        ensures
            final(self).wf(),
            match r {
                Ok(donation) => {
                    &&& raw@ != empty_bag()
                    &&& donation.wf()
                    &&& donation@ == (DonationView { donor: donor@, raw_amount: raw@ })
                    &&& final(self)@ == recorded(old(self)@, project@, donation@)
                },
                Err(e) => {
                    &&& e == LedgerError::NoFundsProvided
                    &&& raw@ == empty_bag()
                    &&& final(self)@ == old(self)@
                },
            },
    {
        if raw.is_empty() {
            return Err(LedgerError::NoFundsProvided);
        }
        let donation = Donation::new(donor.to_owned(), raw);
        let copy = donation.clone();
        let ghost before = self.projects@;
        match self.find(project) {
            Some(i) => {
                self.projects[i].donations.push(donation);
                proof {
                    lemma_entry_index(before, i as int);
                    lemma_append_to_entry(before, self.projects@, i as int, donation);
                }
            },
            None => {
                let mut list: Vec<Donation> = Vec::new();
                list.push(donation);
                self.projects.push(ProjectEntry { project: project.to_owned(), donations: list });
                proof {
                    lemma_new_entry(before, self.projects@, donation);
                }
            },
        }
        Ok(copy)
    }

    /// The donations that `project` was given, in the order in which they
    /// came; none for a project that the ledger does not know.
    pub fn donations_for(&self, project: &str) -> (list: Vec<Donation>)
        requires
            self.wf(),
        ensures
            all_wf(list@),
            donation_views(list@) == donations_of(self@, project@),
    {
        let mut list: Vec<Donation> = Vec::new();
        match self.find(project) {
            Some(i) => {
                let stored = &self.projects[i].donations;
                proof {
                    lemma_entry_index(self.projects@, i as int);
                    assert(all_wf(self.projects@[i as int].donations@));
                }
                let mut k: usize = 0;
                while k < stored.len()
                    invariant
                        k <= stored@.len(),
                        all_wf(stored@),
                        all_wf(list@),
                        donation_views(list@) == donation_views(stored@).take(k as int),
                    decreases stored@.len() - k,
                {
                    let copy = stored[k].clone();
                    proof {
                        assert(stored@[k as int].wf());
                        assert(donation_views(list@.push(copy)) =~= donation_views(list@).push(
                            copy@,
                        ));
                        assert(donation_views(stored@).take(k + 1) =~= donation_views(
                            stored@,
                        ).take(k as int).push(stored@[k as int]@));
                    }
                    list.push(copy);
                    k += 1;
                }
                proof {
                    assert(donation_views(stored@).take(k as int) =~= donation_views(stored@));
                }
            },
            None => {
                proof {
                    assert(donation_views(list@) =~= Seq::<DonationView>::empty());
                }
            },
        }
        list
    }

    /// The totals of `project`: the sum of the raw amounts and the sum of
    /// the net amounts of its donations; zero for a project that the ledger
    /// does not know. Where a sum exceeds `u128::MAX` the reply is
    /// `ArithmeticOverflow`.
    pub fn totals_for(&self, project: &str) -> (r: Result<DonationsTotalResp, LedgerError>)
        requires
            self.wf(),
        ensures
            is_totals_reply(donations_of(self@, project@), r),
    {
        match self.find(project) {
            Some(i) => {
                proof {
                    lemma_entry_index(self.projects@, i as int);
                    assert(all_wf(self.projects@[i as int].donations@));
                }
                sum_donations(&self.projects[i].donations)
            },
            None => Ok(DonationsTotalResp::zero()),
        }
    }
}

} // verus!
