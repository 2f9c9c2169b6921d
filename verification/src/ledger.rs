//! The donation ledger: records of cumulative contributions in insertion
//! order, a one-time registration fee on a donor's first contribution, and
//! paginated read-back.

use vstd::prelude::*;

verus! {

/// Fixed registration fee in the smallest currency unit, retained out of a
/// donor's first transfer to cover the cost of storing their record.
pub const STORAGE_COST: u128 = 1_000_000_000_000_000_000_000;

/// Number of records a page holds when the caller gives no limit.
pub const DEFAULT_PAGE_LIMIT: u64 = 10;

/// Rejected-call outcomes. A rejected call changes no state.
#[derive(Clone, Copy, PartialEq, Eq, Structural, Debug)]
pub enum LedgerError {
    /// A first-time donor attached no more than the registration fee.
    InsufficientAttachment,
    /// A caller other than the administrator tried to change the beneficiary.
    Unauthorized,
}

/// One donor's record: identity and cumulative gross amount donated.
pub struct Donation {
    pub account_id: String,
    pub total_amount: u128,
}

impl View for Donation {
    type V = (Seq<char>, u128);

    open spec fn view(&self) -> (Seq<char>, u128) {
        (self.account_id@, self.total_amount)
    }
}

/// What an accepted donation decides: the donor's new cumulative total and
/// the amount the payment sink is instructed to move to the beneficiary.
#[derive(Clone, Copy, Debug)]
pub struct DonationOutcome {
    pub total_donated: u128,
    pub transferred: u128,
}

/// The mathematical content of a sequence of records.
pub open spec fn records_seq(v: Seq<Donation>) -> Seq<(Seq<char>, u128)> {
    v.map(|i: int, d: Donation| d@)
}

/// No two records share an identity.
pub open spec fn distinct_keys(s: Seq<(Seq<char>, u128)>) -> bool {
    forall|i: int, j: int| 0 <= i < j < s.len() ==> (#[trigger] s[i]).0 != (#[trigger] s[j]).0
}

/// Whether `id` owns a record in `s`.
pub open spec fn is_donor(s: Seq<(Seq<char>, u128)>, id: Seq<char>) -> bool {
    exists|i: int| 0 <= i < s.len() && (#[trigger] s[i]).0 == id
}

/// The position of `id`'s record; meaningful only when `is_donor` holds.
pub open spec fn donor_index(s: Seq<(Seq<char>, u128)>, id: Seq<char>) -> int {
    choose|i: int| 0 <= i < s.len() && (#[trigger] s[i]).0 == id
}

/// `id`'s cumulative total, 0 if it has never donated.
pub open spec fn total_of(s: Seq<(Seq<char>, u128)>, id: Seq<char>) -> u128 {
    if is_donor(s, id) {
        s[donor_index(s, id)].1
    } else {
        0
    }
}

/// Addition clamped to the largest representable amount.
pub open spec fn saturating_add(a: u128, b: u128) -> u128 {
    if a + b <= u128::MAX {
        (a + b) as u128
    } else {
        u128::MAX
    }
}

/// A donation is accepted iff the donor already has a record or the attached
/// amount strictly exceeds the registration fee.
pub open spec fn donation_accepted(s: Seq<(Seq<char>, u128)>, donor: Seq<char>, amount: u128) -> bool {
    is_donor(s, donor) || amount > STORAGE_COST
}

/// The amount forwarded to the beneficiary: the fee is deducted from a first
/// donation only.
pub open spec fn net_transfer(s: Seq<(Seq<char>, u128)>, donor: Seq<char>, amount: u128) -> u128 {
    if is_donor(s, donor) {
        amount
    } else {
        (amount - STORAGE_COST) as u128
    }
}

/// The records after an accepted donation: a new record appended on a first
/// donation, the donor's total bumped otherwise. The full attached amount is
/// credited to the donor's running total; only the transfer is net of the fee.
pub open spec fn after_donation(s: Seq<(Seq<char>, u128)>, donor: Seq<char>, amount: u128) -> Seq<(Seq<char>, u128)> {
    if is_donor(s, donor) {
        s.update(donor_index(s, donor), (donor, saturating_add(s[donor_index(s, donor)].1, amount)))
    } else {
        s.push((donor, amount))
    }
}

/// The window of records a page shows: the records at positions
/// [start, start + count), clipped to the available length; empty when
/// `start` is at or past the end.
pub open spec fn page(s: Seq<(Seq<char>, u128)>, start: int, count: int) -> Seq<(Seq<char>, u128)> {
    if start >= s.len() {
        Seq::empty()
    } else if start + count <= s.len() {
        s.subrange(start, start + count)
    } else {
        s.subrange(start, s.len() as int)
    }
}

/// The start position a pagination call asked for (0 when absent).
pub open spec fn start_of(from_index: Option<u64>) -> u64 {
    match from_index {
        Some(v) => v,
        None => 0,
    }
}

/// The page size a pagination call asked for (the default when absent).
pub open spec fn limit_of(limit: Option<u64>) -> u64 {
    match limit {
        Some(v) => v,
        None => DEFAULT_PAGE_LIMIT,
    }
}

/// What one accepted donation does to well-formed records: it keeps them
/// well-formed, gives the donor a record, credits the full attached amount
/// to the donor's total, and grows the record count exactly when the donor
/// is new.
pub proof fn lemma_after_donation(s: Seq<(Seq<char>, u128)>, donor: Seq<char>, amount: u128)
    requires
        distinct_keys(s),
    ensures
        distinct_keys(after_donation(s, donor, amount)),
        is_donor(after_donation(s, donor, amount), donor),
        total_of(after_donation(s, donor, amount), donor) == saturating_add(total_of(s, donor), amount),
        after_donation(s, donor, amount).len() == s.len() + (if is_donor(s, donor) { 0int } else { 1int }),
{
    let t = after_donation(s, donor, amount);
    if is_donor(s, donor) {
        let k = donor_index(s, donor);
        assert(0 <= k < s.len() && s[k].0 == donor);
        assert forall|j: int| 0 <= j < t.len() implies (#[trigger] t[j]).0 == s[j].0 by {
            if j == k {
                assert(t[j].0 == donor);
            }
        }
        assert(distinct_keys(t));
        assert(t[k].0 == donor);
        assert(is_donor(t, donor));
        let m = donor_index(t, donor);
        assert(0 <= m < t.len() && t[m].0 == donor);
        if m < k {
            assert(t[m].0 != t[k].0);
            assert(false);
        } else if m > k {
            assert(t[k].0 != t[m].0);
            assert(false);
        }
        assert(total_of(t, donor) == t[k].1);
        assert(t[k].1 == saturating_add(s[k].1, amount));
        assert(total_of(s, donor) == s[k].1);
    } else {
        assert(forall|j: int| 0 <= j < s.len() ==> (#[trigger] s[j]).0 != donor);
        assert(t[s.len() as int].0 == donor);
        assert forall|i: int, j: int| 0 <= i < j < t.len() implies (#[trigger] t[i]).0 != (#[trigger] t[j]).0 by {
            if j < s.len() {
                assert(t[i] == s[i] && t[j] == s[j]);
            } else {
                assert(t[i] == s[i]);
                assert(s[i].0 != donor);
            }
        }
        assert(is_donor(t, donor));
        let m = donor_index(t, donor);
        assert(0 <= m < t.len() && t[m].0 == donor);
        if m < s.len() {
            assert(t[m] == s[m]);
            assert(false);
        }
        assert(total_of(t, donor) == amount);
        assert(saturating_add(0, amount) == amount);
    }
}

/// The ledger: administrator, beneficiary, and one record per donor in
/// insertion order.
pub struct Contract {
    pub admin: String,
    pub beneficiary: String,
    pub donations: Vec<Donation>,
}

impl Contract {
    /// The records as a mathematical sequence, in insertion order.
    pub open spec fn donations_seq(&self) -> Seq<(Seq<char>, u128)> {
        records_seq(self.donations@)
    }

    /// Well-formed: one record per identity.
    pub open spec fn wf(&self) -> bool {
        distinct_keys(self.donations_seq())
    }

    /// Creates the ledger with the given administrator and beneficiary and no
    /// records.
    pub fn init(admin: String, beneficiary: String) -> (r: Contract)
        ensures
            r.wf(),
            r.admin@ == admin@,
            r.beneficiary@ == beneficiary@,
            r.donations_seq() == Seq::<(Seq<char>, u128)>::empty(),
    {
        let r = Contract { admin, beneficiary, donations: Vec::new() };
        proof {
            assert(r.donations_seq() =~= Seq::<(Seq<char>, u128)>::empty());
        }
        r
    }

    /// The current beneficiary.
    pub fn get_beneficiary(&self) -> (r: &String)
        ensures
            r@ == self.beneficiary@,
    {
        &self.beneficiary
    }

    /// Replaces the beneficiary, provided the caller is the administrator;
    /// any other caller is rejected and nothing changes.
    pub fn change_beneficiary(&mut self, caller: String, new_beneficiary: String) -> (r: Result<(), LedgerError>)
        ensures
            r is Ok <==> caller@ == old(self).admin@,
            r is Ok ==> final(self).beneficiary@ == new_beneficiary@
                && final(self).admin == old(self).admin
                && final(self).donations == old(self).donations,
            r is Err ==> r == Err::<(), LedgerError>(LedgerError::Unauthorized)
                && *final(self) == *old(self),
    {
        if caller == self.admin {
            self.beneficiary = new_beneficiary;
            Ok(())
        } else {
            Err(LedgerError::Unauthorized)
        }
    }

    /// The number of distinct donors.
    pub fn number_of_donors(&self) -> (n: u64)
        ensures
            n == self.donations_seq().len(),
    {
        self.donations.len() as u64
    }

    /// The position of `id`'s record, if it has one.
    fn find_donor(&self, id: &String) -> (r: Option<usize>)
        requires
            self.wf(),
        ensures
            match r {
                Some(i) => is_donor(self.donations_seq(), id@)
                    && i == donor_index(self.donations_seq(), id@)
                    && i < self.donations@.len(),
                None => !is_donor(self.donations_seq(), id@),
            },
    {
        let n: usize = self.donations.len();
        let mut k: usize = 0;
        while k < n
            invariant
                self.wf(),
                n == self.donations@.len(),
                k <= n,
                forall|j: int| 0 <= j < k ==> #[trigger] self.donations_seq()[j].0 != id@,
            decreases n - k,
        {
            if self.donations[k].account_id == *id {
                proof {
                    let s = self.donations_seq();
                    assert(s[k as int] == self.donations@[k as int]@);
                    assert(s[k as int].0 == id@);
                    assert(is_donor(s, id@));
                    let m = donor_index(s, id@);
                    assert(0 <= m < s.len() && s[m].0 == id@);
                    if m < k as int {
                        assert(s[m].0 != s[k as int].0);
                        assert(false);
                    } else if m > k as int {
                        assert(s[k as int].0 != s[m].0);
                        assert(false);
                    }
                }
                return Some(k);
            }
            proof {
                assert(self.donations_seq()[k as int] == self.donations@[k as int]@);
            }
            k += 1;
        }
        proof {
            let s = self.donations_seq();
            if is_donor(s, id@) {
                let m = donor_index(s, id@);
                assert(0 <= m < s.len() && s[m].0 == id@);
                assert(false);
            }
        }
        None
    }

    /// The record for `account_id`: its stored cumulative total, or 0 if it
    /// has never donated.
    pub fn get_donation_for_account(&self, account_id: String) -> (r: Donation)
        requires
            self.wf(),
        ensures
            r.account_id@ == account_id@,
            r.total_amount == total_of(self.donations_seq(), account_id@),
    {
        match self.find_donor(&account_id) {
            Some(i) => {
                let amount: u128 = self.donations[i].total_amount;
                proof {
                    assert(self.donations_seq()[i as int] == self.donations@[i as int]@);
                }
                Donation { account_id, total_amount: amount }
            },
            None => Donation { account_id, total_amount: 0 },
        }
    }

    /// Records a donation from `donor` with `amount` attached.
    ///
    /// A first-time donor must attach strictly more than the registration
    /// fee, else the call is rejected and nothing changes. On success the
    /// full attached amount is credited to the donor's cumulative total
    /// (clamped at the largest representable amount), and the returned
    /// outcome carries the new total together with the amount to forward to
    /// the beneficiary: the attached amount less the fee on a first
    /// donation, the full attached amount afterwards.
    pub fn donate(&mut self, donor: String, amount: u128) -> (r: Result<DonationOutcome, LedgerError>)
        requires
            old(self).wf(),
        ensures
            final(self).wf(),
            final(self).admin == old(self).admin,
            final(self).beneficiary == old(self).beneficiary,
            r is Ok <==> donation_accepted(old(self).donations_seq(), donor@, amount),
            r matches Ok(out) ==> final(self).donations_seq()
                == after_donation(old(self).donations_seq(), donor@, amount)
                && out.total_donated == saturating_add(total_of(old(self).donations_seq(), donor@), amount)
                && out.transferred == net_transfer(old(self).donations_seq(), donor@, amount),
            // the record count grows exactly when the donor is new; no record
            // is ever removed
            r is Ok ==> final(self).donations_seq().len() == old(self).donations_seq().len()
                + (if is_donor(old(self).donations_seq(), donor@) { 0int } else { 1int }),
            r is Err ==> r == Err::<DonationOutcome, LedgerError>(LedgerError::InsufficientAttachment)
                && *final(self) == *old(self),
    {
        match self.find_donor(&donor) {
            None => {
                if amount <= STORAGE_COST {
                    return Err(LedgerError::InsufficientAttachment);
                }
                let transferred: u128 = amount - STORAGE_COST;
                self.donations.push(Donation { account_id: donor, total_amount: amount });
                proof {
                    let s0 = old(self).donations_seq();
                    assert(self.donations_seq() =~= s0.push((donor@, amount)));
                    lemma_after_donation(s0, donor@, amount);
                    assert(saturating_add(total_of(s0, donor@), amount) == amount);
                }
                Ok(DonationOutcome { total_donated: amount, transferred })
            },
            Some(i) => {
                let prev: u128 = self.donations[i].total_amount;
                let new_total: u128 = if amount <= u128::MAX - prev {
                    prev + amount
                } else {
                    u128::MAX
                };
                self.donations[i] = Donation { account_id: donor, total_amount: new_total };
                proof {
                    let s0 = old(self).donations_seq();
                    assert(s0[i as int] == old(self).donations@[i as int]@);
                    assert(self.donations_seq() =~= s0.update(i as int, (donor@, new_total)));
                    assert(new_total == saturating_add(s0[i as int].1, amount));
                    assert(self.donations_seq() == after_donation(s0, donor@, amount));
                    lemma_after_donation(s0, donor@, amount);
                }
                Ok(DonationOutcome { total_donated: new_total, transferred: amount })
            },
        }
    }

    /// A page of records in insertion order: up to `limit` records (default
    /// page size when absent) starting at position `from_index` (0 when
    /// absent). A start at or past the end yields an empty page; the same
    /// arguments on unchanged state yield the same page.
    pub fn get_donations(&self, from_index: Option<u64>, limit: Option<u64>) -> (r: Vec<Donation>)
        ensures
            records_seq(r@) == page(
                self.donations_seq(),
                start_of(from_index) as int,
                limit_of(limit) as int,
            ),
    {
        let start: u64 = match from_index {
            Some(v) => v,
            None => 0,
        };
        let lim: u64 = match limit {
            Some(v) => v,
            None => DEFAULT_PAGE_LIMIT,
        };
        let n: usize = self.donations.len();
        let mut out: Vec<Donation> = Vec::new();
        if start >= n as u64 {
            proof {
                assert(records_seq(out@) =~= page(self.donations_seq(), start as int, lim as int));
            }
            return out;
        }
        let start_us: usize = start as usize;
        let remaining: u64 = n as u64 - start;
        let end_us: usize = if lim < remaining {
            (start + lim) as usize
        } else {
            n
        };
        let mut k: usize = start_us;
        while k < end_us
            invariant
                n == self.donations@.len(),
                start_us == start as int,
                start_us <= k <= end_us <= n,
                end_us as int == if lim < n - start_us { start_us + lim } else { n as int },
                out@.len() == k - start_us,
                forall|m: int| 0 <= m < out@.len() ==> (#[trigger] out@[m])@
                    == self.donations@[start_us + m]@,
            decreases end_us - k,
        {
            let d = &self.donations[k];
            out.push(Donation { account_id: d.account_id.clone(), total_amount: d.total_amount });
            k += 1;
        }
        proof {
            let s = self.donations_seq();
            let starti: int = start as int;
            let limi: int = lim as int;
            let endi: int = end_us as int;
            assert(page(s, starti, limi) == s.subrange(starti, endi));
            assert forall|m: int| 0 <= m < endi - starti implies #[trigger] records_seq(out@)[m]
                == s.subrange(starti, endi)[m] by {
                assert(out@[m]@ == self.donations@[starti + m]@);
                assert(s.subrange(starti, endi)[m] == s[starti + m]);
                assert(s[starti + m] == self.donations@[starti + m]@);
            }
            assert(records_seq(out@) =~= s.subrange(starti, endi));
        }
        out
    }
}

impl Default for Contract {
    /// An uninitialized deployment: a fallback beneficiary, no records, and
    /// an empty administrator identity, which no caller holds, so the
    /// beneficiary cannot be changed until the ledger is properly created.
    fn default() -> (r: Contract)
        ensures
            r.wf(),
            r.admin@ == Seq::<char>::empty(),
            r.beneficiary@ == "v2.faucet.nonofficial.testnet"@,
            r.donations_seq() == Seq::<(Seq<char>, u128)>::empty(),
    {
        let r = Contract {
            admin: String::new(),
            beneficiary: "v2.faucet.nonofficial.testnet".to_owned(),
            donations: Vec::new(),
        };
        proof {
            assert(r.donations_seq() =~= Seq::<(Seq<char>, u128)>::empty());
        }
        r
    }
}

} // verus!
