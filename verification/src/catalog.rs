//! Product listings: what their writes must touch and how a new one is confirmed.

use crate::error::AppError;
use crate::text::{uuid_string, uuid_text};
use vstd::prelude::*;

verus! {

/// Requires that a write touched at least one row: none means the row was
/// missing or belonged to someone else.
pub fn require_affected(rows_affected: u64) -> (res: Result<(), AppError>)
    ensures
        rows_affected == 0 ==> res matches Err(AppError::NotFound),
        rows_affected > 0 ==> res is Ok,
{
    if rows_affected == 0 {
        return Err(AppError::NotFound);
    }
    Ok(())
}

/// The confirmation text for a new product listing.
pub fn product_created_message(name: &str, product_id: u128) -> (text: String)
    ensures
        text@ == "Product '"@ + name@ + "' created (ID: "@ + uuid_text(product_id) + ")"@,
{
    let mut text = String::from_str("Product '");
    text.append(name);
    text.append("' created (ID: ");
    let id = uuid_string(product_id);
    text.append(id.as_str());
    text.append(")");
    text
}

} // verus!
