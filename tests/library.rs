use beancount_staging::bucket::bucket_by_date;
use beancount_staging::commit::{commit_checked, commit_transaction, CommitError};
use beancount_staging::config::{reconcile_entries, triggers_reload, ChangeKind, Config, ConfigStaging, ReconcileConfig, StagingSectionError, StagingSource};
use beancount_staging::entry::{Balance, Entry, EntryContent, Open, Posting, Transaction};
use beancount_staging::matching::journal_matches_staging;
use beancount_staging::merge_diff::{sort_merge_diff, JoinResult};
use beancount_staging::metadata::Metadata;
use beancount_staging::model::{Amount, Date, Decimal, MetaValue};
use beancount_staging::pending::{generate_directive_id, PendingError, PendingState};
use beancount_staging::reconcile::ReconcileItem;
use beancount_staging::render::render_entry;
use beancount_staging::sorting::sort_dedup_directives;
use beancount_staging::api::{serialize_directive, SerializedDirectiveContent};

fn amount(mantissa: i128, scale: u32, currency: &str) -> Amount {
    Amount { value: Decimal::from_parts(mantissa, scale).unwrap(), currency: currency.to_string() }
}

fn posting(account: &str, value: Option<Amount>) -> Posting {
    Posting {
        flag: None,
        account: account.to_string(),
        amount: value,
        cost: None,
        price: None,
        metadata: Metadata::new(),
    }
}

fn txn(date: Date, flag: char, payee: Option<&str>, narration: Option<&str>, postings: Vec<Posting>) -> Entry {
    Entry {
        date,
        content: EntryContent::Transaction(Transaction {
            flag: Some(flag),
            payee: payee.map(String::from),
            narration: narration.map(String::from),
            tags: vec![],
            links: vec![],
            postings,
        }),
        metadata: Metadata::new(),
    }
}

fn open(date: Date, account: &str) -> Entry {
    Entry {
        date,
        content: EntryContent::Open(Open { account: account.to_string(), currencies: vec![], booking_method: None }),
        metadata: Metadata::new(),
    }
}

fn balance(date: Date, account: &str, cents: i128) -> Entry {
    Entry {
        date,
        content: EntryContent::Balance(Balance { account: account.to_string(), amount: amount(cents, 2, "EUR"), tolerance: None }),
        metadata: Metadata::new(),
    }
}

fn transaction_of(e: &Entry) -> &Transaction {
    match &e.content {
        EntryContent::Transaction(t) => t,
        _ => panic!("not a transaction"),
    }
}

fn counts(items: &[ReconcileItem]) -> (usize, usize) {
    let j = items.iter().filter(|i| matches!(i, ReconcileItem::OnlyInJournal(_))).count();
    let s = items.iter().filter(|i| matches!(i, ReconcileItem::OnlyInStaging(_))).count();
    (j, s)
}

fn jan(day: u8) -> Date {
    Date::new(2025, 1, day)
}

#[test]
fn scenario_two_leg_journal_matches_single_leg_staging() {
    let journal = vec![txn(jan(1), '*', Some("Payee1"), Some("Transaction 1"), vec![
        posting("Assets:Checking", Some(amount(-10000, 2, "EUR"))),
        posting("Expenses:Food", Some(amount(10000, 2, "EUR"))),
    ])];
    let staging = vec![txn(jan(1), '!', Some("Payee1"), Some("Transaction 1"), vec![
        posting("Assets:Checking", Some(amount(-10000, 2, "EUR"))),
    ])];
    let results = reconcile_entries(journal, staging);
    assert!(results.is_empty());
}

fn new_transaction(date: Date) -> Entry {
    txn(date, '!', None, Some("New Transaction"), vec![posting("Assets:Checking", Some(amount(-2500, 2, "USD")))])
}

fn journal_file() -> Vec<Entry> {
    vec![
        open(Date::new(2024, 1, 1), "Assets:Checking"),
        open(Date::new(2024, 1, 1), "Expenses:Groceries"),
        txn(Date::new(2024, 1, 15), '*', None, Some("Existing Transaction"), vec![
            posting("Assets:Checking", Some(amount(-5000, 2, "USD"))),
            posting("Expenses:Groceries", None),
        ]),
    ]
}

fn staging_file() -> Vec<Entry> {
    vec![
        txn(Date::new(2024, 1, 15), '!', None, Some("Existing Transaction"), vec![posting("Assets:Checking", Some(amount(-5000, 2, "USD")))]),
        new_transaction(Date::new(2024, 1, 20)),
    ]
}

#[test]
fn scenario_commit_of_new_staging_entry() {
    let results = reconcile_entries(journal_file(), staging_file());
    assert_eq!(counts(&results), (2, 1));
    assert!(matches!(&results[2], ReconcileItem::OnlyInStaging(e) if e.date == Date::new(2024, 1, 20)));

    let mut state = PendingState::new();
    state.reload(journal_file(), staging_file());
    assert_eq!(state.len(), 1);
    let id = state.ids()[0];
    let committed = state.commit(id, "Expenses:Groceries", None, None).unwrap();
    let t = transaction_of(&committed);
    assert_eq!(t.flag, Some('*'));
    assert_eq!(t.postings.len(), 2);
    assert_eq!(t.postings[1].account, "Expenses:Groceries");
    assert!(t.postings[1].amount.is_none());
    assert_eq!(state.len(), 1);

    let mut journal = journal_file();
    journal.push(committed);
    state.reload(journal, staging_file());
    assert_eq!(state.len(), 0);
}

#[test]
fn commit_with_malformed_account_changes_nothing() {
    let mut state = PendingState::new();
    state.reload(journal_file(), staging_file());
    let id = state.ids()[0];
    assert_eq!(state.commit(id, "", None, None).unwrap_err(), PendingError::Commit(CommitError::InvalidAccount));
    assert_eq!(state.commit(id, "expenses", None, None).unwrap_err(), PendingError::Commit(CommitError::InvalidAccount));
    assert_eq!(state.len(), 1);
    assert!(state.get(id).is_some());
}

#[test]
fn commit_of_unknown_id_is_refused() {
    let mut state = PendingState::new();
    state.reload(journal_file(), staging_file());
    let mut id = state.ids()[0];
    id.digest = id.digest.wrapping_add(1);
    assert_eq!(state.commit(id, "Expenses:Groceries", None, None).unwrap_err(), PendingError::UnknownId);
}

#[test]
fn reconcile_counts_partition_both_sides() {
    let journal = vec![
        txn(jan(1), '*', Some("A"), Some("a"), vec![posting("Assets:Checking", Some(amount(-100, 2, "EUR"))), posting("Expenses:X", None)]),
        txn(jan(1), '*', Some("B"), Some("b"), vec![posting("Assets:Checking", Some(amount(-200, 2, "EUR")))]),
        txn(jan(2), '*', Some("C"), Some("c"), vec![posting("Assets:Checking", Some(amount(-300, 2, "EUR")))]),
    ];
    let staging = vec![
        txn(jan(1), '!', Some("A"), Some("a"), vec![posting("Assets:Checking", Some(amount(-100, 2, "EUR")))]),
        txn(jan(2), '!', Some("D"), Some("d"), vec![posting("Assets:Checking", Some(amount(-400, 2, "EUR")))]),
        txn(jan(3), '!', Some("E"), Some("e"), vec![posting("Assets:Checking", Some(amount(-500, 2, "EUR")))]),
    ];
    let results = reconcile_entries(journal, staging);
    let (j, s) = counts(&results);
    let matched = 1;
    assert_eq!(j + matched, 3);
    assert_eq!(s + matched, 3);
}

#[test]
fn reconcile_without_staging_gives_whole_journal() {
    let journal = vec![
        txn(jan(2), '*', Some("B"), Some("b"), vec![posting("Assets:Checking", Some(amount(-200, 2, "EUR")))]),
        open(jan(1), "Assets:Checking"),
    ];
    let results = reconcile_entries(journal, vec![]);
    assert_eq!(counts(&results), (2, 0));
    assert!(matches!(&results[0], ReconcileItem::OnlyInJournal(e) if matches!(e.content, EntryContent::Open(_))));
}

#[test]
fn reload_twice_gives_same_pending_set() {
    let mut state = PendingState::new();
    state.reload(journal_file(), staging_file());
    let first = state.ids();
    state.reload(journal_file(), staging_file());
    assert_eq!(state.ids(), first);
    assert_eq!(state.accounts().len(), 2);
}

#[test]
fn flag_tags_and_links_do_not_change_matching() {
    let journal = txn(jan(1), '*', Some("P"), Some("N"), vec![posting("Assets:Checking", Some(amount(-100, 2, "EUR")))]);
    let mut staging = txn(jan(1), '*', Some("P"), Some("N"), vec![posting("Assets:Checking", Some(amount(-100, 2, "EUR")))]);
    assert!(journal_matches_staging(&journal, &staging));
    if let EntryContent::Transaction(ref mut t) = staging.content {
        t.flag = Some('!');
        t.tags = vec!["imported".to_string()];
        t.links = vec!["statement".to_string()];
    }
    assert!(journal_matches_staging(&journal, &staging));
}

#[test]
fn commit_with_edits_keeps_provenance_and_rematches() {
    let staging = txn(jan(5), '!', Some("SHOP 123"), Some("card payment"), vec![posting("Assets:Checking", Some(amount(-1999, 2, "EUR")))]);
    let committed = commit_transaction(&staging, "Expenses:Shopping", Some("Shop"), Some("Groceries")).unwrap();
    let t = transaction_of(&committed);
    assert_eq!(t.payee.as_deref(), Some("Shop"));
    assert_eq!(t.narration.as_deref(), Some("Groceries"));
    assert!(matches!(t.postings[0].metadata.get("source_payee"), Some(MetaValue::Text(s)) if s == "SHOP 123"));
    assert!(matches!(t.postings[0].metadata.get("source_desc"), Some(MetaValue::Text(s)) if s == "card payment"));
    assert!(journal_matches_staging(&committed, &staging));
    let results = reconcile_entries(vec![committed], vec![staging]);
    assert!(results.is_empty());
}

#[test]
fn commit_with_unchanged_payee_records_nothing() {
    let staging = txn(jan(5), '!', Some("Shop"), Some("x"), vec![posting("Assets:Checking", Some(amount(-1, 2, "EUR")))]);
    let committed = commit_transaction(&staging, "Expenses:Shopping", Some("Shop"), None).unwrap();
    assert!(transaction_of(&committed).postings[0].metadata.get("source_payee").is_none());
}

#[test]
fn commit_that_would_not_rematch_is_refused() {
    let staging = txn(jan(5), '!', None, Some("x"), vec![posting("Assets:Checking", Some(amount(-1, 2, "EUR")))]);
    assert_eq!(commit_transaction(&staging, "Expenses:Shopping", Some("Shop"), None).unwrap_err(), CommitError::Inconsistent);
    assert_eq!(commit_checked(&staging, "Expenses:Shopping", false, None, None).unwrap_err(), CommitError::InvalidAccount);
    assert!(commit_checked(&staging, "Expenses:Shopping", true, None, None).is_ok());
}

#[test]
fn normal_form_sorts_kinds_and_drops_repeated_balances() {
    let d = jan(1);
    let mut entries = vec![
        balance(d, "Assets:Checking", 100),
        txn(d, '*', Some("P"), Some("N"), vec![]),
        balance(d, "Assets:Checking", 100),
        open(d, "Assets:Checking"),
        balance(d, "Assets:Checking", 200),
        txn(d, '*', Some("P"), Some("N"), vec![]),
    ];
    sort_dedup_directives(&mut entries);
    let kinds: Vec<&str> = entries
        .iter()
        .map(|e| match &e.content {
            EntryContent::Open(_) => "open",
            EntryContent::Transaction(_) => "txn",
            EntryContent::Balance(_) => "balance",
            _ => "other",
        })
        .collect();
    assert_eq!(kinds, vec!["open", "txn", "txn", "balance", "balance"]);
}

#[test]
fn buckets_come_in_date_order() {
    let buckets = bucket_by_date(vec![
        open(jan(3), "A:B"),
        open(jan(1), "A:C"),
        open(jan(3), "A:D"),
        open(Date::new(2024, 12, 31), "A:E"),
    ]);
    let keys: Vec<u32> = buckets.iter().map(|b| b.0).collect();
    assert_eq!(keys, vec![Date::new(2024, 12, 31).key(), jan(1).key(), jan(3).key()]);
    assert_eq!(buckets[2].1.len(), 2);
}

#[test]
fn merge_diff_classifies_keys() {
    let r = sort_merge_diff(vec![(1u32, 'a'), (3, 'b'), (5, 'c')], vec![(2u32, 'x'), (3, 'y')]);
    let shape: Vec<String> = r
        .iter()
        .map(|j| match j {
            JoinResult::OnlyInFirst((k, v)) => format!("first {k} {v}"),
            JoinResult::OnlyInSecond((k, v)) => format!("second {k} {v}"),
            JoinResult::InBoth((k, v), (_, w)) => format!("both {k} {v} {w}"),
        })
        .collect();
    assert_eq!(shape, vec!["first 1 a", "second 2 x", "both 3 b y", "first 5 c"]);
}

#[test]
fn identifiers_follow_content() {
    let a = new_transaction(jan(20));
    let b = new_transaction(jan(20));
    let c = txn(jan(20), '!', None, Some("Other"), vec![posting("Assets:Checking", Some(amount(-2500, 2, "USD")))]);
    assert_eq!(generate_directive_id(&a), generate_directive_id(&b));
    assert_ne!(generate_directive_id(&a), generate_directive_id(&c));
    assert_eq!(generate_directive_id(&a).date, jan(20));
}

#[test]
fn pending_remove_takes_entry_out() {
    let mut state = PendingState::new();
    state.reload(journal_file(), staging_file());
    let id = state.ids()[0];
    assert!(state.remove(id).is_some());
    assert_eq!(state.len(), 0);
    assert!(state.remove(id).is_none());
}

#[test]
fn staging_section_needs_exactly_one_source() {
    let files = vec!["staging.beancount".to_string()];
    let command = vec!["import".to_string()];
    assert!(matches!(ConfigStaging::try_from_parts(files.clone(), vec![]), Ok(ConfigStaging(StagingSource::Files(f))) if f == files));
    assert!(matches!(ConfigStaging::try_from_parts(vec![], command.clone()), Ok(ConfigStaging(StagingSource::Command { command: c, cwd })) if c == command && cwd == "."));
    assert!(matches!(ConfigStaging::try_from_parts(vec![], vec![]), Err(StagingSectionError::Missing)));
    assert!(matches!(ConfigStaging::try_from_parts(files, command), Err(StagingSectionError::Both)));
    assert_eq!(StagingSectionError::Missing.message(), "staging section must have either 'files' or 'command' specified");
}

#[test]
fn first_existing_config_location_wins() {
    assert_eq!(Config::find_and_load(&[false, true]), Some(1));
    assert_eq!(Config::find_and_load(&[true, true]), Some(0));
    assert_eq!(Config::find_and_load(&[false, false]), None);
    let config = ReconcileConfig::new(vec!["j".to_string()], vec!["s".to_string()]);
    assert_eq!(config.journal_paths, vec!["j".to_string()]);
}

#[test]
fn metadata_insert_replaces_value() {
    let mut m = Metadata::new();
    m.insert("key", MetaValue::Text("a".to_string()));
    m.insert("key", MetaValue::Text("b".to_string()));
    assert_eq!(m.entries.len(), 1);
    assert!(matches!(m.get("key"), Some(MetaValue::Text(s)) if s == "b"));
    assert!(m.get("other").is_none());
}

#[test]
fn renders_transaction_text() {
    let e = txn(jan(5), '!', Some("Shop"), Some("x"), vec![posting("Assets:Checking", Some(amount(-1999, 2, "EUR")))]);
    assert_eq!(render_entry(&e), "2025-01-05 ! \"Shop\" \"x\"\n  Assets:Checking  -19.99 EUR\n");
}

#[test]
fn renders_committed_entry_with_bare_posting() {
    let staging = new_transaction(Date::new(2024, 1, 20));
    let committed = commit_transaction(&staging, "Expenses:Groceries", None, None).unwrap();
    assert_eq!(
        render_entry(&committed),
        "2024-01-20 * \"New Transaction\"\n  Assets:Checking  -25.00 USD\n  Expenses:Groceries\n"
    );
}

#[test]
fn renders_other_kinds() {
    let mut b = balance(jan(1), "Assets:Checking", 100);
    if let EntryContent::Balance(ref mut x) = b.content {
        x.tolerance = Decimal::from_parts(1, 2);
    }
    assert_eq!(render_entry(&b), "2025-01-01 balance Assets:Checking 1.00 ~ 0.01 EUR\n");
    let mut o = open(Date::new(2024, 1, 1), "Assets:Checking");
    if let EntryContent::Open(ref mut x) = o.content {
        x.currencies = vec!["EUR".to_string(), "USD".to_string()];
    }
    assert_eq!(render_entry(&o), "2024-01-01 open Assets:Checking EUR,USD\n");
    let mut m = open(Date::new(2024, 1, 1), "Assets:Cash");
    m.metadata.insert("note", MetaValue::Text("wallet".to_string()));
    assert_eq!(render_entry(&m), "2024-01-01 open Assets:Cash\n  note: \"wallet\"\n");
}

#[test]
fn shows_pending_entries_for_review() {
    let e = txn(jan(5), '!', None, Some("x"), vec![posting("Assets:Checking", Some(amount(-1999, 2, "EUR")))]);
    let shown = serialize_directive(&e).unwrap();
    assert_eq!(shown.id, generate_directive_id(&e));
    match shown.content {
        SerializedDirectiveContent::Transaction(t) => {
            assert_eq!(t.flag, '!');
            assert_eq!(t.postings.len(), 1);
            assert_eq!(t.postings[0].account, "Assets:Checking");
        }
        SerializedDirectiveContent::Balance(_) => panic!("shown as a balance"),
    }
    assert!(serialize_directive(&open(jan(1), "Assets:Cash")).is_none());

    let mut state = PendingState::new();
    state.reload(journal_file(), staging_file());
    let init = state.init_response();
    assert_eq!(init.items.len(), 1);
    assert_eq!(init.current_index, 0);
    assert_eq!(init.available_accounts.len(), 2);
    assert_eq!(state.commit_response().remaining_count, 1);
}

#[test]
fn valid_account_names_are_accepted() {
    let staging = new_transaction(jan(20));
    assert!(commit_transaction(&staging, "Expenses:Groceries", None, None).is_ok());
    assert_eq!(commit_transaction(&staging, "Expenses", None, None).unwrap_err(), CommitError::InvalidAccount);
    assert_eq!(commit_transaction(&staging, "Expenses:", None, None).unwrap_err(), CommitError::InvalidAccount);
}

#[test]
fn normal_form_orders_dates_before_kinds() {
    let mut entries = vec![
        open(Date::new(2025, 12, 2), "Assets:Checking"),
        txn(Date::new(2025, 12, 1), '*', Some("P"), Some("N"), vec![]),
        balance(Date::new(2025, 12, 1), "Assets:Checking", 100),
        open(Date::new(2025, 12, 1), "Assets:Cash"),
    ];
    sort_dedup_directives(&mut entries);
    let shape: Vec<(u8, &str)> = entries
        .iter()
        .map(|e| {
            let kind = match &e.content {
                EntryContent::Open(_) => "open",
                EntryContent::Transaction(_) => "txn",
                EntryContent::Balance(_) => "balance",
                _ => "other",
            };
            (e.date.day, kind)
        })
        .collect();
    assert_eq!(shape, vec![(1, "open"), (1, "txn"), (1, "balance"), (2, "open")]);
    assert_eq!(
        StagingSectionError::Both.message(),
        "staging section cannot have both 'files' and 'command' specified"
    );
}

#[test]
fn only_changes_trigger_a_reload() {
    assert!(!triggers_reload(&vec![]));
    assert!(!triggers_reload(&vec![ChangeKind::Other, ChangeKind::Other]));
    assert!(triggers_reload(&vec![ChangeKind::Other, ChangeKind::Removed]));
    assert!(triggers_reload(&vec![ChangeKind::Modified]));
}
