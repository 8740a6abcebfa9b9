//! The purchase workflow. Buying runs inside one database transaction that
//! the caller drives: the library says which row to lock next, and once the
//! rows are in, whether the purchase goes through and which writes it makes.

use crate::error::AppError;
use crate::text::{decimal, push_decimal};
use vstd::prelude::*;

verus! {

/// What a buyer asks for.
#[derive(Clone, Copy, Debug, PartialEq, Eq, Structural)]
pub struct BuyRequest {
    pub product_id: u128,
    pub quantity: i32,
}

/// The locked row of the product being bought.
#[derive(Debug)]
pub struct ProductListing {
    pub seller_id: u128,
    pub price: i32,
    pub stock: i32,
    pub name: String,
}

/// Why a purchase is refused.
#[derive(Clone, Copy, Debug, PartialEq, Eq, Structural)]
pub enum BuyError {
    /// No product has the requested id.
    NotFound,
    /// The stock is below the requested quantity.
    OutOfStock,
    /// The buyer's balance is below the total cost.
    InsufficientFunds,
}

/// The writes of an accepted purchase, made in one transaction: take
/// `total_cost` from the buyer's wallet, give it to the seller's wallet,
/// lower the product's stock by `quantity`, and log the sale.
#[derive(Debug)]
pub struct Purchase {
    pub buyer_id: u128,
    pub seller_id: u128,
    pub product_id: u128,
    pub quantity: i32,
    pub total_cost: i32,
    pub product_name: String,
}

/// Where a purchase stands.
#[derive(Debug)]
pub enum BuyState {
    /// The product row is being fetched.
    AwaitingProduct { buyer_id: u128, request: BuyRequest },
    /// The buyer's balance is being fetched.
    AwaitingBalance {
        buyer_id: u128,
        request: BuyRequest,
        seller_id: u128,
        total_cost: i32,
        product_name: String,
    },
    /// Nothing more to do.
    Finished,
}

/// What the caller reports back.
#[derive(Debug)]
pub enum BuyEvent {
    /// The product row, locked for update (`None` when there is no such product).
    ProductLoaded(Option<ProductListing>),
    /// The buyer's balance, locked for update.
    BalanceLoaded(i32),
}

/// What the caller does next.
#[derive(Debug)]
pub enum BuyAction {
    /// Fetch and lock the product row.
    LoadProduct { product_id: u128 },
    /// Fetch and lock the wallet of this user.
    LoadBalance { user_id: u128 },
    /// Make the writes and commit.
    Commit(Purchase),
    /// Give up; nothing was written.
    Refuse(BuyError),
}

/// The initial state and action for `buyer_id` asking for `request`.
pub open spec fn start_spec(buyer_id: u128, request: BuyRequest) -> (BuyState, BuyAction) {
    (
        BuyState::AwaitingProduct { buyer_id, request },
        BuyAction::LoadProduct { product_id: request.product_id },
    )
}

/// `price * quantity` fits an `i32`.
pub open spec fn cost_fits(price: i32, quantity: i32) -> bool {
    i32::MIN <= price * quantity <= i32::MAX
}

/// When `step_purchase` may be called: a product row that stocks the
/// requested quantity must have a price times quantity that fits an `i32`,
/// as the total cost is computed then. Any other state and event may come.
pub open spec fn step_defined(state: BuyState, event: BuyEvent) -> bool {
    match (state, event) {
        (BuyState::AwaitingProduct { request, .. }, BuyEvent::ProductLoaded(Some(p))) => p.stock
            >= request.quantity ==> cost_fits(p.price, request.quantity),
        _ => true,
    }
}

/// The decision of each step. An event that does not belong to the state
/// (or any event once finished) ends the purchase as not found.
pub open spec fn step_spec(state: BuyState, event: BuyEvent) -> (BuyState, BuyAction) {
    match (state, event) {
        (BuyState::AwaitingProduct { buyer_id, request }, BuyEvent::ProductLoaded(row)) => match row {
            None => (BuyState::Finished, BuyAction::Refuse(BuyError::NotFound)),
            Some(p) => if p.stock < request.quantity {
                (BuyState::Finished, BuyAction::Refuse(BuyError::OutOfStock))
            } else {
                (
                    BuyState::AwaitingBalance {
                        buyer_id,
                        request,
                        seller_id: p.seller_id,
                        total_cost: (p.price * request.quantity) as i32,
                        product_name: p.name,
                    },
                    BuyAction::LoadBalance { user_id: buyer_id },
                )
            },
        },
        (
            BuyState::AwaitingBalance { buyer_id, request, seller_id, total_cost, product_name },
            BuyEvent::BalanceLoaded(balance),
        ) => if balance < total_cost {
            (BuyState::Finished, BuyAction::Refuse(BuyError::InsufficientFunds))
        } else {
            (
                BuyState::Finished,
                BuyAction::Commit(
                    Purchase {
                        buyer_id,
                        seller_id,
                        product_id: request.product_id,
                        quantity: request.quantity,
                        total_cost,
                        product_name,
                    },
                ),
            )
        },
        _ => (BuyState::Finished, BuyAction::Refuse(BuyError::NotFound)),
    }
}

/// Starts the purchase of `request` by `buyer_id`.
pub fn start_purchase(buyer_id: u128, request: BuyRequest) -> (out: (BuyState, BuyAction))
    ensures
        out == start_spec(buyer_id, request),
{
    (
        BuyState::AwaitingProduct { buyer_id, request },
        BuyAction::LoadProduct { product_id: request.product_id },
    )
}

/// Takes the next step of a purchase.
pub fn step_purchase(state: BuyState, event: BuyEvent) -> (out: (BuyState, BuyAction))
    requires
        step_defined(state, event),
    ensures
        out == step_spec(state, event),
{
    match state {
        BuyState::AwaitingProduct { buyer_id, request } => match event {
            BuyEvent::ProductLoaded(None) => (BuyState::Finished, BuyAction::Refuse(BuyError::NotFound)),
            BuyEvent::ProductLoaded(Some(p)) => {
                if p.stock < request.quantity {
                    (BuyState::Finished, BuyAction::Refuse(BuyError::OutOfStock))
                } else {
                    let total_cost = p.price * request.quantity;
                    (
                        BuyState::AwaitingBalance {
                            buyer_id,
                            request,
                            seller_id: p.seller_id,
                            total_cost,
                            product_name: p.name,
                        },
                        BuyAction::LoadBalance { user_id: buyer_id },
                    )
                }
            },
            BuyEvent::BalanceLoaded(_) => (BuyState::Finished, BuyAction::Refuse(BuyError::NotFound)),
        },
        BuyState::AwaitingBalance { buyer_id, request, seller_id, total_cost, product_name } => {
            match event {
                BuyEvent::BalanceLoaded(balance) => {
                    if balance < total_cost {
                        (BuyState::Finished, BuyAction::Refuse(BuyError::InsufficientFunds))
                    } else {
                        (
                            BuyState::Finished,
                            BuyAction::Commit(
                                Purchase {
                                    buyer_id,
                                    seller_id,
                                    product_id: request.product_id,
                                    quantity: request.quantity,
                                    total_cost,
                                    product_name,
                                },
                            ),
                        )
                    }
                },
                BuyEvent::ProductLoaded(_) => (
                    BuyState::Finished,
                    BuyAction::Refuse(BuyError::NotFound),
                ),
            }
        },
        BuyState::Finished => (BuyState::Finished, BuyAction::Refuse(BuyError::NotFound)),
    }
}

impl BuyError {
    /// The error a refused purchase is answered with.
    pub fn to_app_error(self) -> (err: AppError)
        ensures
            self is NotFound ==> err is NotFound,
            self is OutOfStock ==> (err matches AppError::BadRequest(m) && m@ == "Out of stock"@),
            self is InsufficientFunds ==> (err matches AppError::BadRequest(m) && m@
                == "Insufficient in-house currency"@),
    {
        match self {
            BuyError::NotFound => AppError::NotFound,
            BuyError::OutOfStock => AppError::BadRequest(String::from_str("Out of stock")),
            BuyError::InsufficientFunds => AppError::BadRequest(
                String::from_str("Insufficient in-house currency"),
            ),
        }
    }
}

impl Purchase {
    /// The confirmation text of a committed purchase.
    pub fn receipt(&self) -> (text: String)
        ensures
            text@ == "Successfully bought "@ + decimal(self.quantity as int) + " x "@
                + self.product_name@,
    {
        let mut text = String::from_str("Successfully bought ");
        push_decimal(&mut text, self.quantity);
        text.append(" x ");
        text.append(self.product_name.as_str());
        text
    }
}

/// A whole purchase, from the request to the decision: it commits exactly
/// when the product exists, its stock covers the quantity and the buyer's
/// balance covers `price * quantity`. A committed purchase moves exactly
/// `price * quantity` from the buyer to the seller of that product, takes
/// the requested quantity, and leaves neither the stock nor the buyer's
/// balance negative. Each refusal carries the reason for the first check that failed.
pub proof fn law_purchase_run(
    buyer_id: u128,
    request: BuyRequest,
    product: Option<ProductListing>,
    balance: i32,
)
    requires
        match product {
            Some(p) => p.stock >= request.quantity ==> cost_fits(p.price, request.quantity),
            None => true,
        },
    ensures
        ({
            let (s1, a1) = start_spec(buyer_id, request);
            let e1 = BuyEvent::ProductLoaded(product);
            let (s2, a2) = step_spec(s1, e1);
            let (s3, a3) = step_spec(s2, BuyEvent::BalanceLoaded(balance));
            &&& a1 == BuyAction::LoadProduct { product_id: request.product_id }
            &&& step_defined(s1, e1)
            &&& match product {
                None => a2 == BuyAction::Refuse(BuyError::NotFound),
                Some(p) => if p.stock < request.quantity {
                    a2 == BuyAction::Refuse(BuyError::OutOfStock)
                } else {
                    &&& a2 == BuyAction::LoadBalance { user_id: buyer_id }
                    &&& step_defined(s2, BuyEvent::BalanceLoaded(balance))
                    &&& balance < p.price * request.quantity ==> a3 == BuyAction::Refuse(
                        BuyError::InsufficientFunds,
                    )
                    &&& balance >= p.price * request.quantity ==> (a3 matches BuyAction::Commit(c)
                        && {
                        &&& c.buyer_id == buyer_id
                        &&& c.seller_id == p.seller_id
                        &&& c.product_id == request.product_id
                        &&& c.quantity == request.quantity
                        &&& c.total_cost == p.price * request.quantity
                        &&& c.product_name == p.name
                        &&& balance - c.total_cost >= 0
                        &&& p.stock - c.quantity >= 0
                    })
                },
            }
        }),
{
}

/// A table as rows of (key, amount): the wallets as (user id, balance), the
/// products as (product id, stock). `adjust_rows` adds `delta` to the amount
/// of every row with `key`, as `UPDATE .. SET amount = amount + delta WHERE key = ..` does.
pub open spec fn adjust_rows(rows: Seq<(u128, int)>, key: u128, delta: int) -> Seq<(u128, int)> {
    rows.map_values(|r: (u128, int)| if r.0 == key { (r.0, r.1 + delta) } else { r })
}

/// The sum of the amounts of a table.
pub open spec fn total_amount(rows: Seq<(u128, int)>) -> int
    decreases rows.len(),
{
    if rows.len() == 0 {
        0
    } else {
        total_amount(rows.drop_last()) + rows.last().1
    }
}

/// How many rows of a table have `key`.
pub open spec fn rows_with(rows: Seq<(u128, int)>, key: u128) -> nat
    decreases rows.len(),
{
    if rows.len() == 0 {
        0
    } else {
        rows_with(rows.drop_last(), key) + if rows.last().0 == key {
            1nat
        } else {
            0nat
        }
    }
}

/// The wallet table after the writes of `p`: the buyer pays the total cost,
/// the seller receives it.
pub open spec fn wallets_after(wallets: Seq<(u128, int)>, p: Purchase) -> Seq<(u128, int)> {
    adjust_rows(adjust_rows(wallets, p.buyer_id, -p.total_cost), p.seller_id, p.total_cost as int)
}

/// The product table after the writes of `p`: the stock of the product drops
/// by the quantity bought.
pub open spec fn products_after(products: Seq<(u128, int)>, p: Purchase) -> Seq<(u128, int)> {
    adjust_rows(products, p.product_id, -p.quantity)
}

proof fn lemma_adjust_total(rows: Seq<(u128, int)>, key: u128, delta: int)
    ensures
        total_amount(adjust_rows(rows, key, delta)) == total_amount(rows) + delta * rows_with(
            rows,
            key,
        ),
        rows_with(adjust_rows(rows, key, delta), key) == rows_with(rows, key),
        forall|other: u128| #[trigger]
            rows_with(adjust_rows(rows, key, delta), other) == rows_with(rows, other),
    decreases rows.len(),
{
    let a = adjust_rows(rows, key, delta);
    if rows.len() == 0 {
        assert(a =~= rows);
        assert(delta * 0 == 0);
    } else {
        let init = rows.drop_last();
        lemma_adjust_total(init, key, delta);
        assert(a.drop_last() =~= adjust_rows(init, key, delta));
        let c = rows_with(init, key);
        assert(delta * (c + 1) == delta * c + delta) by (nonlinear_arith);
        let last = rows.last();
        assert(a.last() == (if last.0 == key {
            (last.0, last.1 + delta)
        } else {
            last
        }));
        assert(total_amount(a) == total_amount(a.drop_last()) + a.last().1);
        assert(total_amount(rows) == total_amount(init) + last.1);
        if last.0 == key {
            assert(rows_with(rows, key) == c + 1);
        } else {
            assert(rows_with(rows, key) == c);
        }
        assert forall|other: u128| #[trigger]
            rows_with(adjust_rows(rows, key, delta), other) == rows_with(rows, other) by {
            assert(rows_with(adjust_rows(init, key, delta), other) == rows_with(init, other));
        }
    }
}

/// Money is conserved by a purchase: the writes of a committed purchase
/// change the sum of all balances by the total cost times the seller's wallet
/// rows minus the buyer's, so not at all when buyer and seller have as many
/// wallet rows (one each, in a table with one wallet per user); they take the total cost from the buyer and give it to the
/// seller (when they differ), and lower the stock of the product, and of no
/// other, by the quantity bought.
pub proof fn law_purchase_conserves_money(
    wallets: Seq<(u128, int)>,
    products: Seq<(u128, int)>,
    p: Purchase,
)
    ensures
        total_amount(wallets_after(wallets, p)) == total_amount(wallets) + p.total_cost * (
        rows_with(wallets, p.seller_id) - rows_with(wallets, p.buyer_id)),
        rows_with(wallets, p.buyer_id) == rows_with(wallets, p.seller_id) ==> total_amount(
            wallets_after(wallets, p),
        ) == total_amount(wallets),
        wallets_after(wallets, p).len() == wallets.len(),
        forall|i: int|
            0 <= i < wallets.len() ==> {
                let before = wallets[i];
                let after = #[trigger] wallets_after(wallets, p)[i];
                &&& after.0 == before.0
                &&& p.buyer_id != p.seller_id && before.0 == p.buyer_id ==> after.1 == before.1
                    - p.total_cost
                &&& p.buyer_id != p.seller_id && before.0 == p.seller_id ==> after.1 == before.1
                    + p.total_cost
                &&& (p.buyer_id == p.seller_id || (before.0 != p.buyer_id && before.0
                    != p.seller_id)) ==> after.1 == before.1
            },
        products_after(products, p).len() == products.len(),
        forall|i: int|
            0 <= i < products.len() ==> {
                let before = products[i];
                let after = #[trigger] products_after(products, p)[i];
                &&& after.0 == before.0
                &&& before.0 == p.product_id ==> before.1 - after.1 == p.quantity
                &&& before.0 != p.product_id ==> after.1 == before.1
            },
{
    let mid = adjust_rows(wallets, p.buyer_id, -p.total_cost);
    lemma_adjust_total(wallets, p.buyer_id, -p.total_cost);
    lemma_adjust_total(mid, p.seller_id, p.total_cost as int);
    assert(rows_with(mid, p.seller_id) == rows_with(wallets, p.seller_id));
    let t = p.total_cost as int;
    let b = rows_with(wallets, p.buyer_id) as int;
    let e = rows_with(wallets, p.seller_id) as int;
    assert((-t) * b + t * e == t * (e - b)) by (nonlinear_arith);
    assert(t * 0 == 0);
}

} // verus!
