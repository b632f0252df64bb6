use eventsource::doc::{
    Item, Transaction, TransactionCommand, TransactionEvent, TransactionRepository,
    TransactionService,
};
use eventsource::{Aggregate, AggregateError, DomainEvent, Repository};

fn item(product_id: &str, name: &str, sell_price: usize) -> Item {
    Item {
        product_id: product_id.to_string(),
        name: name.to_string(),
        sell_price,
        status: "created".to_string(),
    }
}

fn create_cmd_helper() -> TransactionCommand {
    TransactionCommand::MakePurchase(vec![item("1", "shoes", 30000), item("2", "phone", 550000)])
}

#[test]
fn test_create_transaction() {
    let cmd = create_cmd_helper();
    let transaction = Transaction::create(cmd);
    println!("{:?}", transaction);
}

#[test]
fn test_cancel_on_item() {
    let cmd = create_cmd_helper();
    let mut transaction = Transaction::create(cmd).expect("Must Be Passed");

    let cancel_cmd = TransactionCommand::RequestCancellation {
        transaction_id: transaction.aggregate_version(),
        product_id: "1".to_string(),
    };
    let res = transaction.execute(cancel_cmd, &TransactionService);
    assert!(matches!(res, Ok(())));

    let item_to_be_canceled = &transaction.items()[0];
    assert_eq!(item_to_be_canceled.status, "cancelled".to_string());
}

#[test]
fn test_repository() {
    let mut trx_repo = TransactionRepository::default();

    let cmd = create_cmd_helper();
    let transaction = Transaction::create(cmd).expect("Must Be Passed");

    if let Err(_err) = trx_repo.add(&transaction) {
        assert_eq!(true, false);
    }

    if let Ok(trx) = trx_repo.get(transaction.id()) {
        assert_eq!(trx, transaction)
    } else {
        assert_eq!(true, false);
    }
}

#[test]
fn purchase_sums_prices_and_keeps_items() {
    let transaction = Transaction::create(create_cmd_helper()).expect("created");
    assert_eq!(transaction.pay_amount(), 580000);
    assert_eq!(transaction.items().len(), 2);
    assert_eq!(transaction.items()[0], item("1", "shoes", 30000));
    assert_eq!(transaction.items()[1], item("2", "phone", 550000));
    assert!(transaction.items().iter().all(|i| i.status == "created"));
}

#[test]
fn purchase_gets_a_fresh_identifier() {
    let a = Transaction::create(create_cmd_helper()).expect("created");
    let b = Transaction::create(create_cmd_helper()).expect("created");
    assert_eq!(a.id().chars().count(), 36);
    assert_eq!(a.aggregate_version(), a.id().clone());
    assert_ne!(a.id(), b.id());
}

#[test]
fn empty_purchase_pays_nothing() {
    let t = Transaction::create(TransactionCommand::MakePurchase(vec![])).expect("created");
    assert_eq!(t.pay_amount(), 0);
    assert!(t.items().is_empty());
}

#[test]
fn create_refuses_cancellation_command() {
    let cmd = TransactionCommand::RequestCancellation {
        transaction_id: "t".to_string(),
        product_id: "1".to_string(),
    };
    assert!(Transaction::create(cmd).is_none());
}

#[test]
fn cancellation_touches_only_the_first_matching_item() {
    let mut t = Transaction::create(create_cmd_helper()).expect("created");
    let cmd = TransactionCommand::RequestCancellation {
        transaction_id: t.aggregate_version(),
        product_id: "1".to_string(),
    };
    assert!(t.execute(cmd, &TransactionService).is_ok());
    assert_eq!(t.items()[0].status, "cancelled");
    assert_eq!(t.items()[1].status, "created");
    assert_eq!(t.pay_amount(), 580000);
}

#[test]
fn cancellation_of_duplicate_product_cancels_first_only() {
    let cmd = TransactionCommand::MakePurchase(vec![item("7", "a", 1), item("7", "b", 2)]);
    let mut t = Transaction::create(cmd).expect("created");
    let event = TransactionEvent::CancellationRequested {
        transaction_id: t.id().clone(),
        product_id: "7".to_string(),
    };
    assert!(event.apply(Some(&mut t)).is_none());
    assert_eq!(t.items()[0].status, "cancelled");
    assert_eq!(t.items()[1].status, "created");
}

#[test]
fn cancellation_of_unknown_product_changes_nothing() {
    let mut t = Transaction::create(create_cmd_helper()).expect("created");
    let before = t.clone();
    let event = TransactionEvent::CancellationRequested {
        transaction_id: t.id().clone(),
        product_id: "99".to_string(),
    };
    assert!(event.apply(Some(&mut t)).is_none());
    assert_eq!(t, before);
}

#[test]
fn full_cancellation_cancels_every_item() {
    let mut t = Transaction::create(create_cmd_helper()).expect("created");
    t.trigger(TransactionEvent::FullCancellationRequested);
    assert!(t.items().iter().all(|i| i.status == "cancelled"));
    assert_eq!(t.pay_amount(), 580000);
}

#[test]
fn folding_an_event_twice_gives_the_same_state() {
    let mut once = Transaction::create(create_cmd_helper()).expect("created");
    let event = TransactionEvent::CancellationRequested {
        transaction_id: once.id().clone(),
        product_id: "2".to_string(),
    };
    event.mutate(Some(&mut once));
    let mut twice = once.clone();
    event.mutate(Some(&mut twice));
    assert_eq!(once, twice);

    let full = TransactionEvent::FullCancellationRequested;
    full.mutate(Some(&mut once));
    let mut again = once.clone();
    full.mutate(Some(&mut again));
    assert_eq!(once, again);
}

#[test]
fn replay_in_parts_matches_replay_in_one_pass() {
    let purchase = TransactionEvent::PurchaseMade(vec![item("1", "shoes", 30000), item("2", "phone", 550000)]);
    let mut one_pass = purchase.apply(None).expect("created");
    let cancel = TransactionEvent::CancellationRequested {
        transaction_id: one_pass.id().clone(),
        product_id: "1".to_string(),
    };
    let mut in_parts = one_pass.clone();
    cancel.apply(Some(&mut one_pass));
    TransactionEvent::FullCancellationRequested.apply(Some(&mut one_pass));

    cancel.apply(Some(&mut in_parts));
    let mut resumed = in_parts.clone();
    TransactionEvent::FullCancellationRequested.apply(Some(&mut resumed));
    assert_eq!(one_pass, resumed);
}

#[test]
fn purchase_event_leaves_an_existing_transaction_alone() {
    let mut existing = Transaction::create(create_cmd_helper()).expect("created");
    let before = existing.clone();
    let event = TransactionEvent::PurchaseMade(vec![item("3", "hat", 5)]);
    let made = event.apply(Some(&mut existing)).expect("created");
    assert_eq!(existing, before);
    assert_eq!(made.pay_amount(), 5);
    assert_ne!(made.id(), existing.id());
}

#[test]
fn cancellation_without_a_transaction_is_ignored() {
    let event = TransactionEvent::CancellationRequested {
        transaction_id: "t".to_string(),
        product_id: "1".to_string(),
    };
    assert!(event.apply(None).is_none());
    assert!(TransactionEvent::FullCancellationRequested.apply(None).is_none());
}

#[test]
fn event_tags_and_version() {
    assert_eq!(TransactionEvent::PurchaseMade(vec![]).event_type(), "PurchaseMade");
    let cancel = TransactionEvent::CancellationRequested {
        transaction_id: "t".to_string(),
        product_id: "1".to_string(),
    };
    assert_eq!(cancel.event_type(), "CancellationRequested");
    assert_eq!(
        TransactionEvent::FullCancellationRequested.event_type(),
        "FullCancellationRequested"
    );
    assert_eq!(cancel.event_version(), "1.0.0");
    assert_eq!(Transaction::aggregate_type(), "Transaction");
}

#[test]
fn convert_command_maps_each_variant() {
    let items = vec![item("1", "shoes", 30000)];
    assert_eq!(
        Transaction::convert_command(TransactionCommand::MakePurchase(items.clone())),
        TransactionEvent::PurchaseMade(items)
    );
    assert_eq!(
        Transaction::convert_command(TransactionCommand::RequestCancellation {
            transaction_id: "t".to_string(),
            product_id: "1".to_string(),
        }),
        TransactionEvent::CancellationRequested {
            transaction_id: "t".to_string(),
            product_id: "1".to_string(),
        }
    );
}

#[test]
fn get_of_unknown_identifier_is_not_found() {
    let repo = TransactionRepository::default();
    assert!(matches!(repo.get("missing"), Err(AggregateError::NotFound)));
}

#[test]
fn second_add_keeps_the_first_record() {
    let mut repo = TransactionRepository::default();
    let first = Transaction::create(create_cmd_helper()).expect("created");
    let id = repo.add(&first).expect("stored");
    assert_eq!(&id, first.id());

    let mut changed = first.clone();
    changed.trigger(TransactionEvent::FullCancellationRequested);
    let again = repo.add(&changed).expect("stored");
    assert_eq!(again, id);
    assert_eq!(repo.get(&id).expect("found"), first);
}

#[test]
fn repository_holds_several_transactions() {
    let mut repo = TransactionRepository::default();
    let a = Transaction::create(create_cmd_helper()).expect("created");
    let b = Transaction::create(TransactionCommand::MakePurchase(vec![item("9", "cap", 10)]))
        .expect("created");
    repo.add(&a).expect("stored");
    repo.add(&b).expect("stored");
    assert_eq!(repo.get(a.id()).expect("found"), a);
    assert_eq!(repo.get(b.id()).expect("found"), b);
}

#[test]
fn restore_keeps_the_fields() {
    let t = Transaction::restore("abc".to_string(), vec![item("1", "shoes", 3)], 3)
        .expect("consistent");
    assert_eq!(t.id(), "abc");
    assert_eq!(t.items().len(), 1);
    assert_eq!(t.pay_amount(), 3);
}

#[test]
fn restore_refuses_a_wrong_amount() {
    let r = Transaction::restore("abc".to_string(), vec![item("1", "shoes", 3)], 4);
    assert!(matches!(r, Err(AggregateError::DeserializationError(_))));
}

#[test]
fn restore_refuses_prices_beyond_range() {
    let items = vec![item("1", "a", usize::MAX), item("2", "b", 1)];
    let r = Transaction::restore("abc".to_string(), items, 0);
    assert!(matches!(r, Err(AggregateError::DeserializationError(_))));
}

#[test]
fn restore_rebuilds_a_created_transaction() {
    let t = Transaction::create(create_cmd_helper()).expect("created");
    let back = Transaction::restore(t.id().clone(), t.items().clone(), t.pay_amount())
        .expect("consistent");
    assert_eq!(back, t);
}

#[test]
fn error_messages() {
    assert_eq!(AggregateError::AggregateConflict.message(), "AggregateConflict");
    assert_eq!(AggregateError::CommandNotConvertible.message(), "CommandNotConvertible");
    assert_eq!(AggregateError::NotFound.message(), "NotFound");
    assert_eq!(
        AggregateError::DatabaseConnectionError("down".to_string()).message(),
        "down"
    );
    assert_eq!(AggregateError::DeserializationError("bad".to_string()).message(), "bad");
    assert_eq!(AggregateError::UnexpectedError("odd".to_string()).message(), "odd");
}

#[test]
fn executing_cancellation_of_unknown_product_succeeds_unchanged() {
    let mut t = Transaction::create(create_cmd_helper()).expect("created");
    let before = t.clone();
    let cmd = TransactionCommand::RequestCancellation {
        transaction_id: t.aggregate_version(),
        product_id: "3".to_string(),
    };
    assert!(matches!(t.execute(cmd, &TransactionService), Ok(())));
    assert_eq!(t, before);
}

#[test]
fn executed_then_added_again_keeps_the_first_record() {
    let mut repo = TransactionRepository::default();
    let mut t = Transaction::create(create_cmd_helper()).expect("created");
    let original = t.clone();
    let id = repo.add(&t).expect("stored");
    let cmd = TransactionCommand::RequestCancellation {
        transaction_id: t.aggregate_version(),
        product_id: "1".to_string(),
    };
    assert!(t.execute(cmd, &TransactionService).is_ok());
    assert_eq!(t.aggregate_version(), id);
    assert_eq!(repo.add(&t).expect("stored"), id);
    assert_eq!(repo.get(&id).expect("found"), original);
}
