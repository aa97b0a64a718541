use beancount_staging::bucket::bucket_by_date;
use beancount_staging::entry::{Balance, Entry, EntryContent, Posting, Transaction};
use beancount_staging::metadata::Metadata;
use beancount_staging::model::{Amount, Date, Decimal};
use beancount_staging::reconcile::{reconcile, Bucket, ReconcileItem};
use beancount_staging::render::render_entry;

fn amount(cents: i128) -> Amount {
    Amount { value: Decimal::from_parts(cents, 2).unwrap(), currency: "EUR".to_string() }
}

fn posting(account: &str, cents: i128) -> Posting {
    Posting {
        flag: None,
        account: account.to_string(),
        amount: Some(amount(cents)),
        cost: None,
        price: None,
        metadata: Metadata::new(),
    }
}

fn txn(day: u8, payee: &str, narration: &str, postings: Vec<Posting>) -> Entry {
    Entry {
        date: Date::new(2025, 1, day),
        content: EntryContent::Transaction(Transaction {
            flag: Some('*'),
            payee: Some(payee.to_string()),
            narration: Some(narration.to_string()),
            tags: vec![],
            links: vec![],
            postings,
        }),
        metadata: Metadata::new(),
    }
}

/// A journal transaction: the bank leg and the expense leg.
fn journal(day: u8, payee: &str, narration: &str, bank: &str, expense: &str, cents: i128) -> Entry {
    txn(day, payee, narration, vec![posting(bank, -cents), posting(expense, cents)])
}

/// A staging transaction: the bank leg only.
fn staging(day: u8, payee: &str, narration: &str, bank: &str, cents: i128) -> Entry {
    txn(day, payee, narration, vec![posting(bank, -cents)])
}

fn balance(day: u8, account: &str, cents: i128) -> Entry {
    Entry {
        date: Date::new(2025, 1, day),
        content: EntryContent::Balance(Balance {
            account: account.to_string(),
            amount: amount(cents),
            tolerance: None,
        }),
        metadata: Metadata::new(),
    }
}

fn build_date_map(entries: Vec<Entry>) -> Vec<Bucket> {
    bucket_by_date(entries)
}

fn count_results(results: &[ReconcileItem]) -> (usize, usize) {
    let journal_count = results.iter().filter(|item| matches!(item, ReconcileItem::OnlyInJournal(_))).count();
    let staging_count = results.iter().filter(|item| matches!(item, ReconcileItem::OnlyInStaging(_))).count();
    (journal_count, staging_count)
}

/// Each item as its side, then the ledger text of its entry.
fn format_results(results: &[ReconcileItem]) -> Vec<String> {
    results
        .iter()
        .map(|item| match item {
            ReconcileItem::OnlyInJournal(e) => format!("; OnlyInJournal\n{}", render_entry(e)),
            ReconcileItem::OnlyInStaging(e) => format!("; OnlyInStaging\n{}", render_entry(e)),
        })
        .collect()
}

// Core reconciliation logic tests

#[test]
fn reconcile_all_match() {
    let journal_map = build_date_map(vec![
        journal(1, "Payee1", "Transaction 1", "Assets:Checking", "Expenses:Food", 10000),
        journal(2, "Payee2", "Transaction 2", "Assets:Checking", "Expenses:Transport", 5000),
        journal(3, "Payee3", "Transaction 3", "Assets:Checking", "Expenses:Shopping", 7500),
    ]);
    let staging_map = build_date_map(vec![
        staging(1, "Payee1", "Transaction 1", "Assets:Checking", 10000),
        staging(2, "Payee2", "Transaction 2", "Assets:Checking", 5000),
        staging(3, "Payee3", "Transaction 3", "Assets:Checking", 7500),
    ]);
    let results = reconcile(journal_map, staging_map);

    assert_eq!(count_results(&results), (0, 0));
    assert!(results.is_empty());
}

#[test]
fn reconcile_all_only_journal() {
    let journal_map = build_date_map(vec![
        journal(1, "Payee1", "Transaction 1", "Assets:Checking", "Expenses:Food", 10000),
        journal(2, "Payee2", "Transaction 2", "Assets:Checking", "Expenses:Transport", 5000),
        journal(3, "Payee3", "Transaction 3", "Assets:Checking", "Expenses:Shopping", 7500),
    ]);
    let staging_map = Vec::new();
    let results = reconcile(journal_map, staging_map);

    assert_eq!(count_results(&results), (3, 0));
    assert_eq!(format_results(&results), vec![
        "; OnlyInJournal\n2025-01-01 * \"Payee1\" \"Transaction 1\"\n  Assets:Checking  -100.00 EUR\n  Expenses:Food  100.00 EUR\n",
        "; OnlyInJournal\n2025-01-02 * \"Payee2\" \"Transaction 2\"\n  Assets:Checking  -50.00 EUR\n  Expenses:Transport  50.00 EUR\n",
        "; OnlyInJournal\n2025-01-03 * \"Payee3\" \"Transaction 3\"\n  Assets:Checking  -75.00 EUR\n  Expenses:Shopping  75.00 EUR\n",
    ]);
}

#[test]
fn reconcile_all_only_staging() {
    let journal_map = Vec::new();
    let staging_map = build_date_map(vec![
        staging(1, "Payee1", "Transaction 1", "Assets:Checking", 10000),
        staging(2, "Payee2", "Transaction 2", "Assets:Checking", 5000),
        staging(3, "Payee3", "Transaction 3", "Assets:Checking", 7500),
    ]);
    let results = reconcile(journal_map, staging_map);

    assert_eq!(count_results(&results), (0, 3));
    assert_eq!(format_results(&results), vec![
        "; OnlyInStaging\n2025-01-01 * \"Payee1\" \"Transaction 1\"\n  Assets:Checking  -100.00 EUR\n",
        "; OnlyInStaging\n2025-01-02 * \"Payee2\" \"Transaction 2\"\n  Assets:Checking  -50.00 EUR\n",
        "; OnlyInStaging\n2025-01-03 * \"Payee3\" \"Transaction 3\"\n  Assets:Checking  -75.00 EUR\n",
    ]);
}

#[test]
fn reconcile_mixed_scenario() {
    let journal_map = build_date_map(vec![
        journal(1, "Payee1", "Transaction A", "Assets:Checking", "Expenses:Food", 10000),
        journal(2, "Payee2", "Transaction B", "Assets:Checking", "Expenses:Transport", 5000),
    ]);
    let staging_map = build_date_map(vec![
        staging(1, "Payee1", "Transaction A", "Assets:Checking", 10000),
        staging(3, "Payee3", "Transaction C", "Assets:Checking", 7500),
    ]);
    let results = reconcile(journal_map, staging_map);

    assert_eq!(count_results(&results), (1, 1));
    assert_eq!(format_results(&results), vec![
        "; OnlyInJournal\n2025-01-02 * \"Payee2\" \"Transaction B\"\n  Assets:Checking  -50.00 EUR\n  Expenses:Transport  50.00 EUR\n",
        "; OnlyInStaging\n2025-01-03 * \"Payee3\" \"Transaction C\"\n  Assets:Checking  -75.00 EUR\n",
    ]);
}

#[test]
fn reconcile_partial_match_same_date() {
    let journal_map = build_date_map(vec![
        journal(1, "Payee1", "Transaction 1", "Assets:Checking", "Expenses:Food", 10000),
        journal(1, "Payee2", "Transaction 2", "Assets:Checking", "Expenses:Transport", 5000),
        journal(1, "Payee3", "Transaction 3", "Assets:Checking", "Expenses:Shopping", 7500),
    ]);
    let staging_map = build_date_map(vec![
        staging(1, "Payee1", "Transaction 1", "Assets:Checking", 10000),
        staging(1, "Payee2", "Transaction 2", "Assets:Checking", 5000),
    ]);
    let results = reconcile(journal_map, staging_map);

    assert_eq!(count_results(&results), (1, 0));
    assert_eq!(format_results(&results), vec![
        "; OnlyInJournal\n2025-01-01 * \"Payee3\" \"Transaction 3\"\n  Assets:Checking  -75.00 EUR\n  Expenses:Shopping  75.00 EUR\n",
    ]);
}

// Date bucket handling tests

#[test]
fn reconcile_date_only_in_journal() {
    let journal_map = build_date_map(vec![
        journal(1, "Payee1", "Transaction on Jan 1", "Assets:Checking", "Expenses:Food", 10000),
    ]);
    let staging_map = build_date_map(vec![
        staging(2, "Payee2", "Transaction on Jan 2", "Assets:Checking", 5000),
    ]);
    let results = reconcile(journal_map, staging_map);

    assert_eq!(count_results(&results), (1, 1));
    assert_eq!(format_results(&results), vec![
        "; OnlyInJournal\n2025-01-01 * \"Payee1\" \"Transaction on Jan 1\"\n  Assets:Checking  -100.00 EUR\n  Expenses:Food  100.00 EUR\n",
        "; OnlyInStaging\n2025-01-02 * \"Payee2\" \"Transaction on Jan 2\"\n  Assets:Checking  -50.00 EUR\n",
    ]);
}

#[test]
fn reconcile_multiple_same_date_all_match() {
    let journal_map = build_date_map(vec![
        journal(1, "Payee1", "Transaction 1", "Assets:Checking", "Expenses:Food", 10000),
        journal(1, "Payee2", "Transaction 2", "Assets:Checking", "Expenses:Transport", 5000),
        journal(1, "Payee3", "Transaction 3", "Assets:Checking", "Expenses:Shopping", 7500),
    ]);
    let staging_map = build_date_map(vec![
        staging(1, "Payee1", "Transaction 1", "Assets:Checking", 10000),
        staging(1, "Payee2", "Transaction 2", "Assets:Checking", 5000),
        staging(1, "Payee3", "Transaction 3", "Assets:Checking", 7500),
    ]);
    let results = reconcile(journal_map, staging_map);

    assert_eq!(count_results(&results), (0, 0));
    assert!(results.is_empty());
}

#[test]
fn reconcile_multiple_same_date_none_match() {
    let journal_map = build_date_map(vec![
        journal(1, "Payee1", "Transaction 1", "Assets:Checking", "Expenses:Food", 10000),
        journal(1, "Payee2", "Transaction 2", "Assets:Checking", "Expenses:Transport", 5000),
        journal(1, "Payee3", "Transaction 3", "Assets:Checking", "Expenses:Shopping", 7500),
    ]);
    let staging_map = build_date_map(vec![
        staging(1, "PayeeA", "Transaction A", "Assets:Savings", 20000),
        staging(1, "PayeeB", "Transaction B", "Assets:Savings", 15000),
        staging(1, "PayeeC", "Transaction C", "Assets:Savings", 12500),
    ]);
    let results = reconcile(journal_map, staging_map);

    assert_eq!(count_results(&results), (3, 3));
    assert_eq!(format_results(&results), vec![
        "; OnlyInStaging\n2025-01-01 * \"PayeeC\" \"Transaction C\"\n  Assets:Savings  -125.00 EUR\n",
        "; OnlyInStaging\n2025-01-01 * \"PayeeB\" \"Transaction B\"\n  Assets:Savings  -150.00 EUR\n",
        "; OnlyInStaging\n2025-01-01 * \"PayeeA\" \"Transaction A\"\n  Assets:Savings  -200.00 EUR\n",
        "; OnlyInJournal\n2025-01-01 * \"Payee1\" \"Transaction 1\"\n  Assets:Checking  -100.00 EUR\n  Expenses:Food  100.00 EUR\n",
        "; OnlyInJournal\n2025-01-01 * \"Payee2\" \"Transaction 2\"\n  Assets:Checking  -50.00 EUR\n  Expenses:Transport  50.00 EUR\n",
        "; OnlyInJournal\n2025-01-01 * \"Payee3\" \"Transaction 3\"\n  Assets:Checking  -75.00 EUR\n  Expenses:Shopping  75.00 EUR\n",
    ]);
}

// Bucket-level matching tests

#[test]
fn reconcile_bucket_staging_exceeds_journal() {
    let journal_map = build_date_map(vec![
        journal(1, "Payee1", "Transaction 1", "Assets:Checking", "Expenses:Food", 10000),
    ]);
    let staging_map = build_date_map(vec![
        staging(1, "Payee1", "Transaction 1", "Assets:Checking", 10000),
        staging(1, "Payee2", "Transaction 2", "Assets:Checking", 5000),
        staging(1, "Payee3", "Transaction 3", "Assets:Checking", 7500),
    ]);
    let results = reconcile(journal_map, staging_map);

    assert_eq!(count_results(&results), (0, 2));
    assert_eq!(format_results(&results), vec![
        "; OnlyInStaging\n2025-01-01 * \"Payee3\" \"Transaction 3\"\n  Assets:Checking  -75.00 EUR\n",
        "; OnlyInStaging\n2025-01-01 * \"Payee2\" \"Transaction 2\"\n  Assets:Checking  -50.00 EUR\n",
    ]);
}

#[test]
fn reconcile_bucket_journal_exceeds_staging() {
    let journal_map = build_date_map(vec![
        journal(1, "Payee1", "Transaction 1", "Assets:Checking", "Expenses:Food", 10000),
        journal(1, "Payee2", "Transaction 2", "Assets:Checking", "Expenses:Transport", 5000),
        journal(1, "Payee3", "Transaction 3", "Assets:Checking", "Expenses:Shopping", 7500),
    ]);
    let staging_map = build_date_map(vec![
        staging(1, "Payee1", "Transaction 1", "Assets:Checking", 10000),
    ]);
    let results = reconcile(journal_map, staging_map);

    assert_eq!(count_results(&results), (2, 0));
    assert_eq!(format_results(&results), vec![
        "; OnlyInJournal\n2025-01-01 * \"Payee2\" \"Transaction 2\"\n  Assets:Checking  -50.00 EUR\n  Expenses:Transport  50.00 EUR\n",
        "; OnlyInJournal\n2025-01-01 * \"Payee3\" \"Transaction 3\"\n  Assets:Checking  -75.00 EUR\n  Expenses:Shopping  75.00 EUR\n",
    ]);
}

// Edge case tests

#[test]
fn reconcile_empty_both() {
    let journal_map = Vec::new();
    let staging_map = Vec::new();
    let results = reconcile(journal_map, staging_map);

    assert_eq!(count_results(&results), (0, 0));
    assert!(results.is_empty());
}

#[test]
fn reconcile_balance_directives() {
    let journal_map = build_date_map(vec![balance(1, "Assets:Checking", 100000)]);
    let staging_map = build_date_map(vec![balance(1, "Assets:Checking", 150000)]);
    let results = reconcile(journal_map, staging_map);

    assert_eq!(count_results(&results), (1, 1));
    assert_eq!(format_results(&results), vec![
        "; OnlyInStaging\n2025-01-01 balance Assets:Checking 1500.00 EUR\n",
        "; OnlyInJournal\n2025-01-01 balance Assets:Checking 1000.00 EUR\n",
    ]);
}
