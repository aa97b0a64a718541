use beancount_staging::entry::{Balance, Entry, EntryContent, Posting, Transaction};
use beancount_staging::matching::journal_matches_staging;
use beancount_staging::metadata::Metadata;
use beancount_staging::model::{Amount, Cost, Date, Decimal, MetaValue, PostingPrice};

fn dec(mantissa: i128, scale: u32) -> Decimal {
    Decimal::from_parts(mantissa, scale).unwrap()
}

fn amount(mantissa: i128, scale: u32, currency: &str) -> Amount {
    Amount { value: dec(mantissa, scale), currency: currency.to_string() }
}

fn posting(account: &str, value: Option<Amount>) -> Posting {
    Posting {
        flag: None,
        account: account.to_string(),
        amount: value,
        cost: None,
        price: None,
        metadata: Metadata::new(),
    }
}

fn with_meta(mut p: Posting, entries: Vec<(&str, MetaValue)>) -> Posting {
    for (k, v) in entries {
        p.metadata.insert(k, v);
    }
    p
}

fn text(s: &str) -> MetaValue {
    MetaValue::Text(s.to_string())
}

fn transaction(flag: char, payee: &str, narration: &str, postings: Vec<Posting>) -> Entry {
    Entry {
        date: Date::new(2025, 12, 1),
        content: EntryContent::Transaction(Transaction {
            flag: Some(flag),
            payee: Some(payee.to_string()),
            narration: Some(narration.to_string()),
            tags: vec![],
            links: vec![],
            postings,
        }),
        metadata: Metadata::new(),
    }
}

fn balance(account: &str, cents: i128) -> Entry {
    Entry {
        date: Date::new(2025, 12, 1),
        content: EntryContent::Balance(Balance {
            account: account.to_string(),
            amount: amount(cents, 2, "EUR"),
            tolerance: None,
        }),
        metadata: Metadata::new(),
    }
}

/// Journal side: the account leg with optional metadata, then the expense leg.
fn journal_txn(flag: char, payee: &str, narration: &str, account: &str, cents: i128, meta: Vec<(&str, MetaValue)>) -> Entry {
    transaction(
        flag,
        payee,
        narration,
        vec![
            with_meta(posting(account, Some(amount(-cents, 2, "EUR"))), meta),
            posting("Expenses:Food", Some(amount(cents, 2, "EUR"))),
        ],
    )
}

fn staging_txn(flag: char, payee: &str, narration: &str, account: &str, cents: i128) -> Entry {
    transaction(flag, payee, narration, vec![posting(account, Some(amount(-cents, 2, "EUR")))])
}

fn set_tags(mut e: Entry, tags: Vec<&str>, links: Vec<&str>) -> Entry {
    if let EntryContent::Transaction(ref mut t) = e.content {
        t.tags = tags.into_iter().map(String::from).collect();
        t.links = links.into_iter().map(String::from).collect();
    }
    e
}

fn set_first_cost(mut e: Entry, cost: Option<Cost>, price: Option<PostingPrice>) -> Entry {
    if let EntryContent::Transaction(ref mut t) = e.content {
        t.postings[0].cost = cost;
        t.postings[0].price = price;
    }
    e
}

#[test]
fn match_simple() {
    let journal = journal_txn('*', "payee", "narration", "Assets:Account", 9900, vec![
        ("date", MetaValue::Number(dec(2012, 0))),
        ("source_desc", text("narration")),
    ]);
    let staging = staging_txn('*', "payee", "narration", "Assets:Account", 9900);
    assert!(journal_matches_staging(&journal, &staging));
}

#[test]
fn match_allows_new_metadata() {
    let journal = journal_txn('*', "payee", "narration", "Assets:Account", 9900, vec![
        ("date", MetaValue::Number(dec(2012, 0))),
        ("meta", text("foo")),
    ]);
    let staging = staging_txn('*', "payee", "narration", "Assets:Account", 9900);
    assert!(journal_matches_staging(&journal, &staging));
}

#[test]
fn match_allows_multiline_narration() {
    let journal = journal_txn('*', "payee", "narration\ncontinued here", "Assets:Account", 9900, vec![]);
    let staging = staging_txn('*', "payee", "narration\ncontinued here", "Assets:Account", 9900);
    assert!(journal_matches_staging(&journal, &staging));
}

#[test]
fn dont_match_different_payee() {
    let journal = journal_txn('*', "payee", "narration", "Assets:Account", 9900, vec![]);
    let staging = staging_txn('*', "anotherpayee", "narration", "Assets:Account", 9900);
    assert!(!journal_matches_staging(&journal, &staging));
}

#[test]
fn dont_match_different_narration() {
    let journal = journal_txn('*', "payee", "narration A", "Assets:Account", 9900, vec![]);
    let staging = staging_txn('*', "payee", "narration B", "Assets:Account", 9900);
    assert!(!journal_matches_staging(&journal, &staging));
}

#[test]
fn dont_match_different_account() {
    let journal = journal_txn('*', "payee", "narration", "Assets:Checking", 9900, vec![]);
    let staging = staging_txn('*', "payee", "narration", "Assets:Savings", 9900);
    assert!(!journal_matches_staging(&journal, &staging));
}

#[test]
fn dont_match_different_amount() {
    let journal = journal_txn('*', "payee", "narration", "Assets:Account", 9900, vec![]);
    let staging = staging_txn('*', "payee", "narration", "Assets:Account", 5000);
    assert!(!journal_matches_staging(&journal, &staging));
}

#[test]
fn dont_match_different_cost() {
    let cost = |cents: i128| Some(Cost { amount: Some(amount(cents, 2, "USD")), date: None });
    let journal = set_first_cost(journal_txn('*', "payee", "narration", "Assets:Account", 9900, vec![]), cost(110), None);
    let staging = set_first_cost(staging_txn('*', "payee", "narration", "Assets:Account", 9900), cost(120), None);
    assert!(!journal_matches_staging(&journal, &staging));
}

#[test]
fn dont_match_different_price() {
    let price = |cents: i128| Some(PostingPrice::Unit(amount(cents, 2, "USD")));
    let journal = set_first_cost(journal_txn('*', "payee", "narration", "Assets:Account", 9900, vec![]), None, price(110));
    let staging = set_first_cost(staging_txn('*', "payee", "narration", "Assets:Account", 9900), None, price(120));
    assert!(!journal_matches_staging(&journal, &staging));
}

#[test]
fn match_ignores_different_flags() {
    let journal = journal_txn('*', "payee", "narration", "Assets:Account", 9900, vec![]);
    let staging = staging_txn('!', "payee", "narration", "Assets:Account", 9900);
    assert!(journal_matches_staging(&journal, &staging));
}

#[test]
fn match_ignores_tags() {
    let journal = set_tags(journal_txn('*', "payee", "narration", "Assets:Account", 9900, vec![]), vec!["tag1", "tag2"], vec![]);
    let staging = staging_txn('*', "payee", "narration", "Assets:Account", 9900);
    assert!(journal_matches_staging(&journal, &staging));
}

#[test]
fn match_ignores_links() {
    let journal = set_tags(journal_txn('*', "payee", "narration", "Assets:Account", 9900, vec![]), vec![], vec!["link1"]);
    let staging = staging_txn('*', "payee", "narration", "Assets:Account", 9900);
    assert!(journal_matches_staging(&journal, &staging));
}

#[test]
fn match_balance_directives() {
    let journal = balance("Assets:Checking", 10000);
    let staging = balance("Assets:Checking", 10000);
    assert!(journal_matches_staging(&journal, &staging));
}

#[test]
fn dont_match_different_balance_directives() {
    let journal = balance("Assets:Checking", 10000);
    let staging = balance("Assets:Checking", 20000);
    assert!(!journal_matches_staging(&journal, &staging));
}

#[test]
fn dont_match_empty_payee() {
    let journal = journal_txn('*', "", "narration", "Assets:Account", 9900, vec![]);
    let staging = staging_txn('*', "payee", "narration", "Assets:Account", 9900);
    assert!(!journal_matches_staging(&journal, &staging));
}

#[test]
fn dont_match_different_directive_types() {
    let journal = journal_txn('*', "payee", "narration", "Assets:Account", 9900, vec![]);
    let staging = balance("Assets:Checking", 10000);
    assert!(!journal_matches_staging(&journal, &staging));
}

#[test]
fn match_with_source_payee_metadata() {
    let journal = journal_txn('*', "Updated Payee", "narration", "Assets:Account", 9900, vec![
        ("source_payee", text("Original Payee")),
    ]);
    let staging = staging_txn('!', "Original Payee", "narration", "Assets:Account", 9900);
    // Should match because source_payee matches the staging payee
    assert!(journal_matches_staging(&journal, &staging));
}

#[test]
fn match_with_source_desc_metadata() {
    let journal = journal_txn('*', "payee", "Updated Description", "Assets:Account", 9900, vec![
        ("source_desc", text("Original Description")),
    ]);
    let staging = staging_txn('!', "payee", "Original Description", "Assets:Account", 9900);
    // Should match because source_desc matches the staging narration
    assert!(journal_matches_staging(&journal, &staging));
}

#[test]
fn match_with_both_source_metadata_fields() {
    let journal = journal_txn('*', "Updated Payee", "Updated Description", "Assets:Account", 9900, vec![
        ("source_payee", text("Original Payee")),
        ("source_desc", text("Original Description")),
    ]);
    let staging = staging_txn('!', "Original Payee", "Original Description", "Assets:Account", 9900);
    // Should match because both source_payee and source_desc match the staging values
    assert!(journal_matches_staging(&journal, &staging));
}

#[test]
fn dont_match_with_edited_payee_against_new_staging() {
    // When payee is edited, staging with the NEW payee should NOT match (only original matches)
    let journal = journal_txn('*', "Edited Payee", "narration", "Assets:Account", 9900, vec![
        ("source_payee", text("Original Payee")),
    ]);
    let staging = staging_txn('!', "Edited Payee", "narration", "Assets:Account", 9900);
    assert!(!journal_matches_staging(&journal, &staging));
}

#[test]
fn dont_match_with_edited_narration_against_new_staging() {
    // When narration is edited, staging with the NEW narration should NOT match (only original matches)
    let journal = journal_txn('*', "payee", "Edited Narration", "Assets:Account", 9900, vec![
        ("source_desc", text("Original Narration")),
    ]);
    let staging = staging_txn('!', "payee", "Edited Narration", "Assets:Account", 9900);
    assert!(!journal_matches_staging(&journal, &staging));
}

#[test]
fn match_without_metadata_uses_current_values() {
    // When there's no metadata, should match against current payee/narration
    let journal = journal_txn('*', "Current Payee", "Current Narration", "Assets:Account", 9900, vec![]);
    let staging = staging_txn('!', "Current Payee", "Current Narration", "Assets:Account", 9900);
    assert!(journal_matches_staging(&journal, &staging));
}

#[test]
fn match_compares_amounts_as_numbers() {
    let journal = transaction('*', "payee", "narration", vec![posting("Assets:Account", Some(amount(-1100, 2, "EUR")))]);
    let same = transaction('*', "payee", "narration", vec![posting("Assets:Account", Some(amount(-11, 0, "EUR")))]);
    let other = transaction('*', "payee", "narration", vec![posting("Assets:Account", Some(amount(-1101, 2, "EUR")))]);
    assert!(journal_matches_staging(&journal, &same));
    assert!(!journal_matches_staging(&journal, &other));
}

#[test]
fn staging_with_two_postings_never_matches() {
    let journal = journal_txn('*', "payee", "narration", "Assets:Account", 9900, vec![]);
    let staging = journal_txn('*', "payee", "narration", "Assets:Account", 9900, vec![]);
    assert!(!journal_matches_staging(&journal, &staging));
}
