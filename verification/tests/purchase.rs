use marketplace::error::AppError;
use marketplace::purchase::{
    start_purchase, step_purchase, BuyAction, BuyError, BuyEvent, BuyRequest, BuyState,
    ProductListing,
};

fn listing(price: i32, stock: i32) -> ProductListing {
    ProductListing { seller_id: 77, price, stock, name: "Lamp".to_string() }
}

fn run(request: BuyRequest, product: Option<ProductListing>, balance: i32) -> (BuyAction, Option<BuyAction>) {
    let (state, first) = start_purchase(11, request);
    match first {
        BuyAction::LoadProduct { product_id } => assert_eq!(product_id, request.product_id),
        other => panic!("unexpected first action {:?}", other),
    }
    let (state, second) = step_purchase(state, BuyEvent::ProductLoaded(product));
    match second {
        BuyAction::LoadBalance { user_id } => {
            assert_eq!(user_id, 11);
            let (state, third) = step_purchase(state, BuyEvent::BalanceLoaded(balance));
            assert!(matches!(state, BuyState::Finished));
            (second, Some(third))
        }
        _ => {
            assert!(matches!(state, BuyState::Finished));
            (second, None)
        }
    }
}

#[test]
fn purchase_commits_and_moves_total_cost() {
    let request = BuyRequest { product_id: 5, quantity: 3 };
    let (_, third) = run(request, Some(listing(40, 3)), 120);
    match third {
        Some(BuyAction::Commit(p)) => {
            assert_eq!(p.buyer_id, 11);
            assert_eq!(p.seller_id, 77);
            assert_eq!(p.product_id, 5);
            assert_eq!(p.quantity, 3);
            assert_eq!(p.total_cost, 120);
            assert_eq!(p.product_name, "Lamp");
            assert_eq!(p.receipt(), "Successfully bought 3 x Lamp");
        }
        other => panic!("expected a commit, got {:?}", other),
    }
}

#[test]
fn unknown_product_is_not_found() {
    let (second, third) = run(BuyRequest { product_id: 5, quantity: 1 }, None, 100);
    assert!(matches!(second, BuyAction::Refuse(BuyError::NotFound)));
    assert!(third.is_none());
}

#[test]
fn short_stock_is_refused() {
    let (second, _) = run(BuyRequest { product_id: 5, quantity: 4 }, Some(listing(1, 3)), 100);
    assert!(matches!(second, BuyAction::Refuse(BuyError::OutOfStock)));
}

#[test]
fn short_balance_is_refused() {
    let (_, third) = run(BuyRequest { product_id: 5, quantity: 2 }, Some(listing(50, 9)), 99);
    assert!(matches!(third, Some(BuyAction::Refuse(BuyError::InsufficientFunds))));
}

#[test]
fn exact_balance_is_enough() {
    let (_, third) = run(BuyRequest { product_id: 5, quantity: 2 }, Some(listing(50, 2)), 100);
    assert!(matches!(third, Some(BuyAction::Commit(_))));
}

#[test]
fn refusals_map_to_app_errors() {
    assert!(matches!(BuyError::NotFound.to_app_error(), AppError::NotFound));
    match BuyError::OutOfStock.to_app_error() {
        AppError::BadRequest(m) => assert_eq!(m, "Out of stock"),
        other => panic!("{:?}", other),
    }
    match BuyError::InsufficientFunds.to_app_error() {
        AppError::BadRequest(m) => assert_eq!(m, "Insufficient in-house currency"),
        other => panic!("{:?}", other),
    }
}

#[test]
fn receipt_of_negative_quantity() {
    // Nothing refuses a negative quantity: the stock check passes and the
    // total cost is negative.
    let (_, third) = run(BuyRequest { product_id: 5, quantity: -2 }, Some(listing(10, 0)), 0);
    match third {
        Some(BuyAction::Commit(p)) => {
            assert_eq!(p.total_cost, -20);
            assert_eq!(p.receipt(), "Successfully bought -2 x Lamp");
        }
        other => panic!("expected a commit, got {:?}", other),
    }
}

#[test]
fn purchase_writes_conserve_money() {
    let (_, third) = run(BuyRequest { product_id: 5, quantity: 3 }, Some(listing(40, 10)), 500);
    let p = match third {
        Some(BuyAction::Commit(p)) => p,
        other => panic!("expected a commit, got {:?}", other),
    };
    // Wallet table: (user, balance); product table: (product, stock).
    let mut wallets: Vec<(u128, i64)> = vec![(11, 500), (77, 20), (99, 7)];
    let mut products: Vec<(u128, i64)> = vec![(5, 10), (6, 4)];
    let before: i64 = wallets.iter().map(|w| w.1).sum();
    for w in wallets.iter_mut() {
        if w.0 == p.buyer_id {
            w.1 -= p.total_cost as i64;
        }
    }
    for w in wallets.iter_mut() {
        if w.0 == p.seller_id {
            w.1 += p.total_cost as i64;
        }
    }
    for r in products.iter_mut() {
        if r.0 == p.product_id {
            r.1 -= p.quantity as i64;
        }
    }
    let after: i64 = wallets.iter().map(|w| w.1).sum();
    assert_eq!(before, after);
    assert_eq!(wallets, vec![(11, 380), (77, 140), (99, 7)]);
    assert_eq!(products, vec![(5, 7), (6, 4)]);
}
