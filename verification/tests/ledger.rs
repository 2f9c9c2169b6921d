use donation::ledger::Contract;
use donation::ledger::LedgerError;
use donation::ledger::DEFAULT_PAGE_LIMIT;
use donation::ledger::STORAGE_COST;

const BENEFICIARY: &str = "beneficiary";
const ADMIN: &str = "donation";
const ONE_NEAR: u128 = 1_000_000_000_000_000_000_000_000;

fn new_contract() -> Contract {
    Contract::init(ADMIN.to_string(), BENEFICIARY.to_string())
}

#[test]
fn initializes() {
    let contract = new_contract();
    assert_eq!(contract.beneficiary, BENEFICIARY.to_string());
}

#[test]
fn donate() {
    let mut contract = new_contract();

    // Make a donation
    contract.donate("donor_a".to_string(), ONE_NEAR).unwrap();
    let first_donation = contract.get_donation_for_account("donor_a".to_string());

    // Check the donation was recorded correctly
    assert_eq!(first_donation.total_amount, ONE_NEAR);

    // Make another donation
    contract.donate("donor_b".to_string(), ONE_NEAR * 2).unwrap();
    let second_donation = contract.get_donation_for_account("donor_b".to_string());

    // Check the donation was recorded correctly
    assert_eq!(second_donation.total_amount, ONE_NEAR * 2);

    // User A makes another donation on top of their original
    contract.donate("donor_a".to_string(), ONE_NEAR).unwrap();
    let first_donation = contract.get_donation_for_account("donor_a".to_string());

    // Check the donation was recorded correctly
    assert_eq!(first_donation.total_amount, ONE_NEAR * 2);

    assert_eq!(contract.number_of_donors(), 2);
}

#[test]
fn fee_deducted_once_on_first_donation() {
    let mut contract = new_contract();
    let outcome = contract.donate("alice".to_string(), STORAGE_COST + 5).unwrap();
    assert_eq!(outcome.total_donated, STORAGE_COST + 5);
    assert_eq!(outcome.transferred, 5);
    assert_eq!(
        contract.get_donation_for_account("alice".to_string()).total_amount,
        STORAGE_COST + 5
    );
}

#[test]
fn no_fee_on_later_donations() {
    let mut contract = new_contract();
    contract.donate("alice".to_string(), STORAGE_COST + 5).unwrap();
    let outcome = contract.donate("alice".to_string(), 3).unwrap();
    assert_eq!(outcome.total_donated, STORAGE_COST + 8);
    assert_eq!(outcome.transferred, 3);
    assert_eq!(contract.number_of_donors(), 1);
}

#[test]
fn first_donation_at_fee_is_rejected() {
    let mut contract = new_contract();
    let r = contract.donate("alice".to_string(), STORAGE_COST);
    assert!(matches!(r, Err(LedgerError::InsufficientAttachment)));
    assert_eq!(contract.number_of_donors(), 0);
    assert_eq!(contract.get_donation_for_account("alice".to_string()).total_amount, 0);
    assert!(contract.get_donations(None, None).is_empty());
}

#[test]
fn first_donation_below_fee_is_rejected() {
    let mut contract = new_contract();
    let r = contract.donate("alice".to_string(), 1);
    assert!(matches!(r, Err(LedgerError::InsufficientAttachment)));
    assert_eq!(contract.number_of_donors(), 0);
}

#[test]
fn absent_account_reads_as_zero() {
    let contract = new_contract();
    let record = contract.get_donation_for_account("nobody".to_string());
    assert_eq!(record.account_id, "nobody".to_string());
    assert_eq!(record.total_amount, 0);
}

#[test]
fn beneficiary_change_needs_admin() {
    let mut contract = new_contract();
    let r = contract.change_beneficiary("mallory".to_string(), "mallory".to_string());
    assert!(matches!(r, Err(LedgerError::Unauthorized)));
    assert_eq!(contract.get_beneficiary(), &BENEFICIARY.to_string());

    let r = contract.change_beneficiary(ADMIN.to_string(), "charity".to_string());
    assert!(r.is_ok());
    assert_eq!(contract.get_beneficiary(), &"charity".to_string());
}

#[test]
fn pagination_returns_the_requested_window() {
    let mut contract = new_contract();
    let donors = ["a", "b", "c", "d", "e"];
    for (idx, donor) in donors.iter().enumerate() {
        contract
            .donate(donor.to_string(), STORAGE_COST + 1 + idx as u128)
            .unwrap();
    }

    let window = contract.get_donations(Some(1), Some(2));
    assert_eq!(window.len(), 2);
    assert_eq!(window[0].account_id, "b".to_string());
    assert_eq!(window[0].total_amount, STORAGE_COST + 2);
    assert_eq!(window[1].account_id, "c".to_string());
    assert_eq!(window[1].total_amount, STORAGE_COST + 3);

    // clipped to the available length
    let tail = contract.get_donations(Some(3), Some(10));
    assert_eq!(tail.len(), 2);
    assert_eq!(tail[0].account_id, "d".to_string());
    assert_eq!(tail[1].account_id, "e".to_string());

    // a start at the end yields an empty page
    assert!(contract.get_donations(Some(5), Some(10)).is_empty());
    assert!(contract.get_donations(Some(100), None).is_empty());

    // repeated calls with the same arguments yield identical pages
    let again = contract.get_donations(Some(1), Some(2));
    assert_eq!(again.len(), window.len());
    for (x, y) in again.iter().zip(window.iter()) {
        assert_eq!(x.account_id, y.account_id);
        assert_eq!(x.total_amount, y.total_amount);
    }
}

#[test]
fn pagination_defaults() {
    let mut contract = new_contract();
    for idx in 0..12u128 {
        contract
            .donate(format!("donor_{}", idx), STORAGE_COST + 1 + idx)
            .unwrap();
    }
    let first_page = contract.get_donations(None, None);
    assert_eq!(first_page.len(), DEFAULT_PAGE_LIMIT as usize);
    assert_eq!(first_page[0].account_id, "donor_0".to_string());
    assert_eq!(first_page[9].account_id, "donor_9".to_string());

    let second_page = contract.get_donations(Some(10), None);
    assert_eq!(second_page.len(), 2);
    assert_eq!(second_page[0].account_id, "donor_10".to_string());
    assert_eq!(second_page[1].account_id, "donor_11".to_string());
}

#[test]
fn cumulative_total_is_the_sum_of_attached_amounts() {
    let mut contract = new_contract();
    let amounts: [u128; 4] = [STORAGE_COST + 7, 1, 0, 40];
    let mut previous: u128 = 0;
    let mut sum: u128 = 0;
    for amount in amounts.iter() {
        let outcome = contract.donate("alice".to_string(), *amount).unwrap();
        sum += *amount;
        assert!(outcome.total_donated >= previous);
        assert_eq!(outcome.total_donated, sum);
        previous = outcome.total_donated;
    }
    assert_eq!(
        contract.get_donation_for_account("alice".to_string()).total_amount,
        sum
    );
}

#[test]
fn end_to_end_scenario() {
    // fee = 1 unit: run the whole flow with the registration fee as the unit
    let fee: u128 = STORAGE_COST;
    let mut contract = new_contract();

    let outcome = contract.donate("donor_a".to_string(), 5 * fee).unwrap();
    assert_eq!(outcome.total_donated, 5 * fee);
    assert_eq!(outcome.transferred, 4 * fee);
    assert_eq!(contract.number_of_donors(), 1);

    let outcome = contract.donate("donor_b".to_string(), 10 * fee).unwrap();
    assert_eq!(outcome.total_donated, 10 * fee);
    // B is also a first-time donor, so the fee comes out of B's transfer too
    assert_eq!(outcome.transferred, 9 * fee);
    assert_eq!(contract.number_of_donors(), 2);

    let outcome = contract.donate("donor_a".to_string(), 3 * fee).unwrap();
    assert_eq!(outcome.total_donated, 8 * fee);
    assert_eq!(outcome.transferred, 3 * fee);
    assert_eq!(contract.number_of_donors(), 2);

    let records = contract.get_donations(Some(0), Some(10));
    assert_eq!(records.len(), 2);
    assert_eq!(records[0].account_id, "donor_a".to_string());
    assert_eq!(records[0].total_amount, 8 * fee);
    assert_eq!(records[1].account_id, "donor_b".to_string());
    assert_eq!(records[1].total_amount, 10 * fee);

    let record = contract.get_donation_for_account("donor_a".to_string());
    assert_eq!(record.account_id, "donor_a".to_string());
    assert_eq!(record.total_amount, 8 * fee);
}

#[test]
fn default_contract_is_empty() {
    let contract = Contract::default();
    assert_eq!(contract.get_beneficiary(), &"v2.faucet.nonofficial.testnet".to_string());
    assert_eq!(contract.number_of_donors(), 0);
    let r = contract.get_donation_for_account("anyone".to_string());
    assert_eq!(r.total_amount, 0);
}
