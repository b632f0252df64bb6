use vstd::prelude::*;

use crate::aggregate::Aggregate;
use crate::error::AggregateError;
use crate::event::DomainEvent;
use crate::repository::{insert_if_absent, Repository};

verus! {

/// A line item of a transaction.
#[derive(Debug, PartialEq, Eq)]
pub struct Item {
    pub product_id: String,
    pub name: String,
    pub sell_price: usize,
    pub status: String,
}

/// What an item holds, as mathematical values.
pub struct ItemView {
    pub product_id: Seq<char>,
    pub name: Seq<char>,
    pub sell_price: nat,
    pub status: Seq<char>,
}

impl View for Item {
    type V = ItemView;

    open spec fn view(&self) -> ItemView {
        ItemView {
            product_id: self.product_id@,
            name: self.name@,
            sell_price: self.sell_price as nat,
            status: self.status@,
        }
    }
}

impl Clone for Item {
    fn clone(&self) -> (r: Self)
        ensures
            r == *self,
    {
        Item {
            product_id: self.product_id.clone(),
            name: self.name.clone(),
            sell_price: self.sell_price,
            status: self.status.clone(),
        }
    }
}

/// The views of a sequence of items.
pub open spec fn views(items: Seq<Item>) -> Seq<ItemView> {
    items.map_values(|item: Item| item@)
}

/// The sum of the items' prices.
pub open spec fn total(items: Seq<ItemView>) -> nat
    decreases items.len(),
{
    if items.len() == 0 {
        0
    } else {
        total(items.drop_last()) + items.last().sell_price
    }
}

/// The amount to pay is the sum of the items' prices.
pub open spec fn well_formed(t: TransactionView) -> bool {
    t.pay_amount == total(t.items)
}

proof fn lemma_total_by_prices(a: Seq<ItemView>, b: Seq<ItemView>)
    requires
        a.len() == b.len(),
        forall|i: int| 0 <= i < a.len() ==> a[i].sell_price == b[i].sell_price,
    ensures
        total(a) == total(b),
    decreases a.len(),
{
    if a.len() > 0 {
        lemma_total_by_prices(a.drop_last(), b.drop_last());
    }
}

/// The item as it stands once cancelled.
pub open spec fn cancelled(item: ItemView) -> ItemView {
    ItemView { status: "cancelled"@, ..item }
}

/// `i` is the first position whose item has the product id.
pub open spec fn is_first_match(items: Seq<ItemView>, product_id: Seq<char>, i: int) -> bool {
    &&& 0 <= i < items.len()
    &&& items[i].product_id == product_id
    &&& forall|j: int| 0 <= j < i ==> items[j].product_id != product_id
}

/// The items with the first one of the product cancelled, if any has it.
pub open spec fn cancel_product(items: Seq<ItemView>, product_id: Seq<char>) -> Seq<ItemView> {
    if exists|i: int| is_first_match(items, product_id, i) {
        let i = choose|i: int| is_first_match(items, product_id, i);
        items.update(i, cancelled(items[i]))
    } else {
        items
    }
}

/// The items, every one cancelled.
pub open spec fn cancel_every(items: Seq<ItemView>) -> Seq<ItemView> {
    items.map_values(|item: ItemView| cancelled(item))
}

/// A fact recorded against a transaction.
#[derive(Debug, PartialEq, Eq)]
pub enum TransactionEvent {
    PurchaseMade(Vec<Item>),
    CancellationRequested { transaction_id: String, product_id: String },
    FullCancellationRequested,
}

/// A request made of a transaction.
#[derive(Debug)]
pub enum TransactionCommand {
    MakePurchase(Vec<Item>),
    RequestCancellation { transaction_id: String, product_id: String },
}

/// A purchase of items, under an identifier, with the amount to pay.
#[derive(Debug, PartialEq, Eq)]
pub struct Transaction {
    id: String,
    items: Vec<Item>,
    pay_amount: usize,
}

/// What a transaction holds, as mathematical values.
pub struct TransactionView {
    pub id: Seq<char>,
    pub items: Seq<ItemView>,
    pub pay_amount: nat,
}

impl View for Transaction {
    type V = TransactionView;

    closed spec fn view(&self) -> TransactionView {
        TransactionView {
            id: self.id@,
            items: views(self.items@),
            pay_amount: self.pay_amount as nat,
        }
    }
}

/// The transaction that a purchase of `items` makes under the identifier `id`.
pub open spec fn purchased(items: Seq<ItemView>, id: Seq<char>) -> TransactionView {
    TransactionView { id, items, pay_amount: total(items) }
}

/// What folding `event` makes of the state `prior`, where a purchase
/// receives the identifier `id`; `None` is the absence of any transaction.
pub open spec fn fold(
    event: TransactionEvent,
    prior: Option<TransactionView>,
    id: Seq<char>,
) -> Option<TransactionView> {
    if event.creates() {
        Some(purchased(event.bought(), id))
    } else {
        match prior {
            Some(s) => Some(event.mutated(s)),
            None => None,
        }
    }
}

impl TransactionEvent {
    /// The views of the items that a purchase buys; empty for other events.
    pub open spec fn bought(self) -> Seq<ItemView> {
        match self {
            TransactionEvent::PurchaseMade(items) => views(items@),
            _ => Seq::empty(),
        }
    }
}

/// What replaying `events` in order makes of `prior`, where the event at
/// position `i` receives the identifier `ids[i]` if it is a purchase.
pub open spec fn replay(
    prior: Option<TransactionView>,
    events: Seq<TransactionEvent>,
    ids: Seq<Seq<char>>,
) -> Option<TransactionView>
    decreases events.len(),
{
    if events.len() == 0 {
        prior
    } else {
        fold(events.last(), replay(prior, events.drop_last(), ids.drop_last()), ids.last())
    }
}

/// Folding an event a second time into the state that it produced leaves
/// that state as it is.
pub proof fn lemma_fold_idempotent(
    event: TransactionEvent,
    prior: Option<TransactionView>,
    id: Seq<char>,
)
    ensures
        fold(event, fold(event, prior, id), id) == fold(event, prior, id),
{
    if let (TransactionEvent::CancellationRequested { product_id, .. }, Some(s)) = (event, prior) {
        let items = s.items;
        let p = product_id@;
        if exists|i: int| is_first_match(items, p, i) {
            let i = choose|i: int| is_first_match(items, p, i);
            let once = items.update(i, cancelled(items[i]));
            assert(is_first_match(once, p, i));
            let k = choose|k: int| is_first_match(once, p, k);
            assert(k == i);
            assert(once.update(i, cancelled(once[i])) =~= once);
        }
    }
    if let (TransactionEvent::FullCancellationRequested, Some(s)) = (event, prior) {
        assert(cancel_every(cancel_every(s.items)) =~= cancel_every(s.items));
    }
}

/// Folding an event keeps the amount to pay equal to the sum of the prices.
pub proof fn lemma_fold_well_formed(
    event: TransactionEvent,
    prior: Option<TransactionView>,
    id: Seq<char>,
)
    requires
        prior matches Some(s) ==> well_formed(s),
    ensures
        fold(event, prior, id) matches Some(s) ==> well_formed(s),
{
    if let Some(s) = prior {
        let items = s.items;
        if let TransactionEvent::CancellationRequested { product_id, .. } = event {
            lemma_total_by_prices(items, cancel_product(items, product_id@));
        }
        if event is FullCancellationRequested {
            lemma_total_by_prices(items, cancel_every(items));
        }
    }
}

/// Replaying a sequence of events in one pass gives the state that
/// replaying a first part and then the rest from its result gives.
pub proof fn lemma_replay_split(
    prior: Option<TransactionView>,
    first: Seq<TransactionEvent>,
    first_ids: Seq<Seq<char>>,
    rest: Seq<TransactionEvent>,
    rest_ids: Seq<Seq<char>>,
)
    requires
        first.len() == first_ids.len(),
        rest.len() == rest_ids.len(),
    ensures
        replay(prior, first + rest, first_ids + rest_ids) == replay(
            replay(prior, first, first_ids),
            rest,
            rest_ids,
        ),
    decreases rest.len(),
{
    if rest.len() == 0 {
        assert(first + rest =~= first);
        assert(first_ids + rest_ids =~= first_ids);
    } else {
        assert((first + rest).drop_last() =~= first + rest.drop_last());
        assert((first_ids + rest_ids).drop_last() =~= first_ids + rest_ids.drop_last());
        lemma_replay_split(prior, first, first_ids, rest.drop_last(), rest_ids.drop_last());
    }
}

/// The two items differ at most in their status.
pub open spec fn same_but_status(a: ItemView, b: ItemView) -> bool {
    &&& a.product_id == b.product_id
    &&& a.name == b.name
    &&& a.sell_price == b.sell_price
}

/// Replaying events that make no purchase into a transaction keeps its
/// identifier, its amount to pay, and its items but for their status.
pub proof fn lemma_replay_keeps_items(
    start: TransactionView,
    events: Seq<TransactionEvent>,
    ids: Seq<Seq<char>>,
)
    requires
        forall|k: int| 0 <= k < events.len() ==> !(events[k] is PurchaseMade),
    ensures
        replay(Some(start), events, ids) matches Some(f) && {
            &&& f.id == start.id
            &&& f.pay_amount == start.pay_amount
            &&& f.items.len() == start.items.len()
            &&& forall|i: int|
                0 <= i < start.items.len() ==> same_but_status(#[trigger] f.items[i], start.items[i])
        },
    decreases events.len(),
{
    if events.len() > 0 {
        let prefix = events.drop_last();
        assert forall|k: int| 0 <= k < prefix.len() implies !(prefix[k] is PurchaseMade) by {
            assert(prefix[k] == events[k]);
        }
        lemma_replay_keeps_items(start, prefix, ids.drop_last());
        let m = replay(Some(start), prefix, ids.drop_last()).unwrap();
        let e = events.last();
        assert(!(e is PurchaseMade));
        if let TransactionEvent::CancellationRequested { product_id, .. } = e {
            if exists|i: int| is_first_match(m.items, product_id@, i) {
                let j = choose|i: int| is_first_match(m.items, product_id@, i);
                let after = m.items.update(j, cancelled(m.items[j]));
                assert forall|i: int| 0 <= i < start.items.len() implies same_but_status(
                    #[trigger] after[i],
                    start.items[i],
                ) by {
                    assert(same_but_status(m.items[i], start.items[i]));
                }
            }
        }
        if e is FullCancellationRequested {
            let after = cancel_every(m.items);
            assert forall|i: int| 0 <= i < start.items.len() implies same_but_status(
                #[trigger] after[i],
                start.items[i],
            ) by {
                assert(same_but_status(m.items[i], start.items[i]));
            }
        }
    }
}

/// Relies on uuid's `Uuid::new_v4` for a random identifier, written by its
/// `Display` in the hyphenated form of 36 characters.
#[verifier::external_body]
fn fresh_identifier() -> (r: String)
    ensures
        r@.len() == 36,
{
    uuid::Uuid::new_v4().to_string()
}

proof fn lemma_total_prefix(items: Seq<ItemView>, i: int)
    requires
        0 <= i <= items.len(),
    ensures
        total(items.take(i)) <= total(items),
    decreases items.len(),
{
    if i < items.len() {
        assert(items.drop_last().take(i) =~= items.take(i));
        lemma_total_prefix(items.drop_last(), i);
    } else {
        assert(items.take(i) =~= items);
    }
}

/// The sum of the prices of `items`, unless it exceeds `usize::MAX`.
fn checked_total(items: &Vec<Item>) -> (r: Option<usize>)
    ensures
        r is Some <==> total(views(items@)) <= usize::MAX,
        r matches Some(n) ==> n == total(views(items@)),
{
    let ghost v = views(items@);
    let mut sum: usize = 0;
    let mut i: usize = 0;
    while i < items.len()
        invariant
            i <= items.len(),
            v == views(items@),
            sum == total(v.take(i as int)),
        decreases items.len() - i,
    {
        proof {
            assert(v.take(i + 1).drop_last() =~= v.take(i as int));
            lemma_total_prefix(v, i + 1);
        }
        match sum.checked_add(items[i].sell_price) {
            Some(next) => sum = next,
            None => return None,
        }
        i = i + 1;
    }
    proof {
        assert(v.take(i as int) =~= v);
    }
    Some(sum)
}

impl Clone for Transaction {
    fn clone(&self) -> (r: Self)
        ensures
            r@ == self@,
    {
        let items = self.items.clone();
        proof {
            assert(views(items@) =~= views(self.items@));
        }
        Transaction { id: self.id.clone(), items, pay_amount: self.pay_amount }
    }
}

impl Transaction {
    /// Rebuilds a stored transaction from its fields; they are refused
    /// unless the amount to pay is the sum of the items' prices.
    pub fn restore(id: String, items: Vec<Item>, pay_amount: usize) -> (r: Result<
        Transaction,
        AggregateError,
    >)
        ensures
            match r {
                Ok(t) => t@ == (TransactionView {
                    id: id@,
                    items: views(items@),
                    pay_amount: pay_amount as nat,
                }),
                Err(e) => e is DeserializationError,
            },
            r is Ok <==> pay_amount == total(views(items@)),
    {
        match checked_total(&items) {
            Some(sum) => {
                if sum == pay_amount {
                    Ok(Transaction { id, items, pay_amount })
                } else {
                    Err(AggregateError::DeserializationError("amount differs from prices".to_string()))
                }
            },
            None => Err(AggregateError::DeserializationError("amount out of range".to_string())),
        }
    }

    /// The identifier of the transaction.
    pub fn id(&self) -> (r: &String)
        ensures
            r@ == self@.id,
    {
        &self.id
    }

    /// The items of the transaction, in purchase order.
    pub fn items(&self) -> (r: &Vec<Item>)
        ensures
            views(r@) == self@.items,
    {
        &self.items
    }

    /// The amount to pay for the transaction.
    pub fn pay_amount(&self) -> (r: usize)
        ensures
            r == self@.pay_amount,
    {
        self.pay_amount
    }

    /// Cancels the first item of the product, if there is one.
    fn cancel_item(&mut self, product_id: &String)
        ensures
            final(self)@ == (TransactionView {
                items: cancel_product(old(self)@.items, product_id@),
                ..old(self)@
            }),
    {
        let ghost v = old(self)@.items;
        let mut i: usize = 0;
        while i < self.items.len()
            invariant
                *self == *old(self),
                v == views(self.items@),
                i <= self.items.len(),
                forall|j: int| 0 <= j < i ==> v[j].product_id != product_id@,
            decreases self.items.len() - i,
        {
            if self.items[i].product_id == *product_id {
                let mut item = self.items[i].clone();
                item.status = "cancelled".to_string();
                self.items.set(i, item);
                proof {
                    assert(is_first_match(v, product_id@, i as int));
                    let k = choose|k: int| is_first_match(v, product_id@, k);
                    assert(k == i);
                    assert(views(self.items@) =~= v.update(i as int, cancelled(v[i as int])));
                }
                return;
            }
            i = i + 1;
        }
        proof {
            assert(!exists|k: int| is_first_match(v, product_id@, k));
        }
    }

    /// Cancels every item.
    fn cancel_all(&mut self)
        ensures
            final(self)@ == (TransactionView { items: cancel_every(old(self)@.items), ..old(self)@ }),
    {
        let ghost v = old(self)@.items;
        let mut i: usize = 0;
        while i < self.items.len()
            invariant
                self.id == old(self).id,
                self.pay_amount == old(self).pay_amount,
                v.len() == self.items.len(),
                i <= self.items.len(),
                forall|j: int| 0 <= j < i ==> self.items@[j]@ == cancelled(v[j]),
                forall|j: int| i <= j < v.len() ==> self.items@[j]@ == v[j],
            decreases self.items.len() - i,
        {
            let mut item = self.items[i].clone();
            item.status = "cancelled".to_string();
            assert(item@ == cancelled(v[i as int]));
            self.items.set(i, item);
            i = i + 1;
        }
        proof {
            assert(views(self.items@) =~= cancel_every(v));
        }
    }
}

impl DomainEvent<Transaction> for TransactionEvent {
    open spec fn creates(&self) -> bool {
        self is PurchaseMade
    }

    open spec fn yields(&self, state: TransactionView) -> bool {
        &&& self is PurchaseMade
        &&& state == purchased(self.bought(), state.id)
        &&& state.id.len() == 36
    }

    open spec fn mutated(&self, prior: TransactionView) -> TransactionView {
        match self {
            TransactionEvent::PurchaseMade(_) => prior,
            TransactionEvent::CancellationRequested { product_id, .. } => TransactionView {
                items: cancel_product(prior.items, product_id@),
                ..prior
            },
            TransactionEvent::FullCancellationRequested => TransactionView {
                items: cancel_every(prior.items),
                ..prior
            },
        }
    }

    open spec fn admissible(&self) -> bool {
        total(self.bought()) <= usize::MAX
    }

    open spec fn type_tag(&self) -> Seq<char> {
        match self {
            TransactionEvent::PurchaseMade(_) => "PurchaseMade"@,
            TransactionEvent::CancellationRequested { .. } => "CancellationRequested"@,
            TransactionEvent::FullCancellationRequested => "FullCancellationRequested"@,
        }
    }

    open spec fn version_tag(&self) -> Seq<char> {
        "1.0.0"@
    }

    fn event_type(&self) -> (r: String) {
        match self {
            TransactionEvent::PurchaseMade(_) => "PurchaseMade".to_string(),
            TransactionEvent::CancellationRequested { .. } => "CancellationRequested".to_string(),
            TransactionEvent::FullCancellationRequested => "FullCancellationRequested".to_string(),
        }
    }

    fn event_version(&self) -> (r: String) {
        "1.0.0".to_string()
    }

    fn apply(&self, aggregate: Option<&mut Transaction>) -> (r: Option<Transaction>) {
        match self {
            TransactionEvent::PurchaseMade(items) => {
                let pay_amount = checked_total(items).unwrap();
                let copied = items.clone();
                proof {
                    assert(views(copied@) =~= views(items@));
                }
                Some(Transaction { id: fresh_identifier(), items: copied, pay_amount })
            },
            TransactionEvent::CancellationRequested { product_id, .. } => {
                match aggregate {
                    Some(agg) => agg.cancel_item(product_id),
                    None => {},
                }
                None
            },
            TransactionEvent::FullCancellationRequested => {
                match aggregate {
                    Some(agg) => agg.cancel_all(),
                    None => {},
                }
                None
            },
        }
    }
}

/// The services that executing a transaction command may consult.
pub struct TransactionService;

impl Aggregate for Transaction {
    type Command = TransactionCommand;
    type Event = TransactionEvent;
    type Error = AggregateError;
    type Services = TransactionService;

    open spec fn identity(state: TransactionView) -> Seq<char> {
        state.id
    }

    open spec fn kind_name() -> Seq<char> {
        "Transaction"@
    }

    open spec fn translated(command: TransactionCommand) -> TransactionEvent {
        match command {
            TransactionCommand::MakePurchase(items) => TransactionEvent::PurchaseMade(items),
            TransactionCommand::RequestCancellation { transaction_id, product_id } =>
                TransactionEvent::CancellationRequested { transaction_id, product_id },
        }
    }

    open spec fn creation_capable(command: TransactionCommand) -> bool {
        command is MakePurchase
    }

    open spec fn executable(state: TransactionView, command: TransactionCommand) -> bool {
        true
    }

    fn aggregate_type() -> (r: String) {
        "Transaction".to_string()
    }

    fn aggregate_version(&self) -> (r: String) {
        self.id.clone()
    }

    fn convert_command(command: TransactionCommand) -> (r: TransactionEvent) {
        match command {
            TransactionCommand::MakePurchase(items) => TransactionEvent::PurchaseMade(items),
            TransactionCommand::RequestCancellation { transaction_id, product_id } =>
                TransactionEvent::CancellationRequested { transaction_id, product_id },
        }
    }

    fn execute(&mut self, command: TransactionCommand, _service: &TransactionService) -> (r: Result<
        (),
        AggregateError,
    >)
        ensures
            r is Ok,
    {
        let event = Transaction::convert_command(command);
        self.trigger(event);
        Ok(())
    }

    fn create(command: TransactionCommand) -> (r: Option<Transaction>) {
        if let TransactionCommand::MakePurchase(_) = command {
            let event = Transaction::convert_command(command);
            event.mutate(None)
        } else {
            None
        }
    }
}

/// The records that a sequence of stored transactions stands for: the first
/// one stored under an identifier is its record.
pub open spec fn records_of(stored: Seq<TransactionView>) -> Map<Seq<char>, TransactionView>
    decreases stored.len(),
{
    if stored.len() == 0 {
        Map::empty()
    } else {
        insert_if_absent(records_of(stored.drop_last()), stored.last().id, stored.last())
    }
}

proof fn lemma_records_contain(stored: Seq<TransactionView>, id: Seq<char>)
    ensures
        records_of(stored).contains_key(id) <==> exists|i: int|
            0 <= i < stored.len() && stored[i].id == id,
    decreases stored.len(),
{
    if stored.len() > 0 {
        let prefix = stored.drop_last();
        lemma_records_contain(prefix, id);
        if records_of(prefix).contains_key(id) {
            let k = choose|k: int| 0 <= k < prefix.len() && prefix[k].id == id;
            assert(stored[k].id == id);
        }
        if exists|i: int| 0 <= i < stored.len() && stored[i].id == id {
            let i = choose|i: int| 0 <= i < stored.len() && stored[i].id == id;
            if i < stored.len() - 1 {
                assert(prefix[i].id == id);
            }
        }
    }
}

proof fn lemma_records_first(stored: Seq<TransactionView>, id: Seq<char>, i: int)
    requires
        0 <= i < stored.len(),
        stored[i].id == id,
        forall|j: int| 0 <= j < i ==> stored[j].id != id,
    ensures
        records_of(stored).contains_key(id),
        records_of(stored)[id] == stored[i],
    decreases stored.len(),
{
    lemma_records_contain(stored, id);
    let prefix = stored.drop_last();
    lemma_records_contain(prefix, id);
    if i < stored.len() - 1 {
        assert(prefix[i] == stored[i]);
        assert forall|j: int| 0 <= j < i implies prefix[j].id != id by {
            assert(prefix[j] == stored[j]);
        }
        lemma_records_first(prefix, id, i);
    } else {
        assert forall|j: int| 0 <= j < prefix.len() implies prefix[j].id != id by {
            assert(prefix[j] == stored[j]);
        }
    }
}

/// Transactions held in memory.
pub struct TransactionRepository {
    conn: Vec<Transaction>,
}

impl TransactionRepository {
    /// The views of the stored transactions, in the order they were stored.
    closed spec fn stored(&self) -> Seq<TransactionView> {
        self.conn@.map_values(|t: Transaction| t@)
    }

    /// The first position of a transaction with the identifier, if any.
    fn position(&self, id: &String) -> (r: Option<usize>)
        ensures
            match r {
                Some(i) => {
                    &&& i < self.conn.len()
                    &&& records_of(self.stored()).contains_key(id@)
                    &&& records_of(self.stored())[id@] == self.conn@[i as int]@
                },
                None => !records_of(self.stored()).contains_key(id@),
            },
    {
        let ghost s = self.stored();
        let mut i: usize = 0;
        while i < self.conn.len()
            invariant
                i <= self.conn.len(),
                s == self.stored(),
                forall|j: int| 0 <= j < i ==> s[j].id != id@,
            decreases self.conn.len() - i,
        {
            if self.conn[i].id == *id {
                proof {
                    lemma_records_first(s, id@, i as int);
                }
                return Some(i);
            }
            i = i + 1;
        }
        proof {
            lemma_records_contain(s, id@);
        }
        None
    }
}

impl Default for TransactionRepository {
    fn default() -> (r: Self)
        ensures
            r.records() == Map::<Seq<char>, TransactionView>::empty(),
    {
        let r = TransactionRepository { conn: Vec::new() };
        assert(r.stored() =~= Seq::<TransactionView>::empty());
        r
    }
}

impl Repository<Transaction> for TransactionRepository {
    closed spec fn records(&self) -> Map<Seq<char>, TransactionView> {
        records_of(self.stored())
    }

    fn add(&mut self, aggregate: &Transaction) -> (r: Result<String, AggregateError>)
        ensures
            r is Ok,
    {
        let id = aggregate.id.clone();
        match self.position(&id) {
            Some(_) => {},
            None => {
                let ghost prior = self.stored();
                self.conn.push(aggregate.clone());
                assert(self.stored().drop_last() =~= prior);
            },
        }
        Ok(id)
    }

    fn get(&self, aggregate_id: &str) -> (r: Result<Transaction, AggregateError>)
        ensures
            r is Ok <==> self.records().contains_key(aggregate_id@),
            r is Err ==> r == Err::<Transaction, AggregateError>(AggregateError::NotFound),
    {
        let key = aggregate_id.to_string();
        match self.position(&key) {
            Some(i) => Ok(self.conn[i].clone()),
            None => Err(AggregateError::NotFound),
        }
    }
}

} // verus!
