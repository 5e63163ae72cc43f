use vstd::prelude::*;

use crate::api::types::{
    spec_db_order, ApiResponse, ApiResponseList, Limit, PaginationQuery,
};
use crate::db::packages::{
    spec_package_page, spec_package_page_next, spec_package_selection, PackageStore,
};
use crate::error::{spec_public_message, Error};
use crate::ids::{id_to_string, parse_u128, spec_dec_digits, spec_parse_u128};
use crate::models::package::Package;

verus! {

/// One page of the packages listing: validates the limit, queries one
/// row of headroom, and derives the next cursor from the last retained
/// row.
pub fn get_packages(packages: &PackageStore, query: PaginationQuery) -> (r: Result<
    ApiResponseList<Package>,
    Error,
>)
    ensures
        ({
            let lv = match query.limit {
                Some(l) => l,
                None => 100,
            };
            &&& lv > 100 ==> (r matches Err(e) && e is InvalidInput)
            &&& lv <= 100 ==> (r matches Ok(list) && {
                &&& list.data@ == spec_package_page(
                    packages.rows(),
                    lv as int,
                    query.after,
                    spec_db_order(query.order),
                )
                &&& match spec_package_page_next(
                    packages.rows(),
                    lv as int,
                    query.after,
                    spec_db_order(query.order),
                ) {
                    Some(c) => list.next_cursor matches Some(s) && s@ == spec_dec_digits(
                        c as nat,
                    ),
                    None => list.next_cursor is None,
                }
            })
        }),
{
    let requested = match query.limit {
        Some(l) => l,
        None => 100,
    };
    let limit = match Limit::try_from(requested) {
        Ok(l) => l,
        Err(e) => {
            return Err(e);
        },
    };
    let order = crate::db::types::Order::from(query.order);
    let items = packages.get_packages(limit.as_u64() + 1, query.after, order);
    let list = ApiResponseList::new(items, limit);
    proof {
        let lv = limit.spec_value() as int;
        let sel = spec_package_selection(packages.rows(), query.after, spec_db_order(query.order));
        if sel.len() > lv + 1 {
            assert(sel.take(lv + 1).take(lv) =~= sel.take(lv));
        }
        if sel.len() > lv && lv > 0 {
            assert(sel.take(lv)[lv - 1] == sel[lv - 1]);
        }
    }
    Ok(list)
}

/// Looks one package up by the textual form of its id: a malformed id
/// is `InvalidInput`, a well-formed id without a row is `NotFound`,
/// each with its fixed message — the latter naming the id it missed.
pub fn get_package_by_id(packages: &PackageStore, id: &str) -> (r: Result<
    ApiResponse<Package>,
    Error,
>)
    ensures
        spec_parse_u128(id@) is None ==> (r matches Err(e) && e is InvalidInput
            && spec_public_message(&e) == "Invalid package ID"@),
        spec_parse_u128(id@) is Some ==> ({
            let v = spec_parse_u128(id@).unwrap();
            &&& !packages.spec_contains_id(v) ==> (r matches Err(e) && e is NotFound
                && spec_public_message(&e) == "Package with id "@ + spec_dec_digits(v as nat)
                + " not found"@)
            &&& packages.spec_contains_id(v) ==> exists|i: int|
                {
                    &&& 0 <= i < packages.rows().len()
                    &&& (#[trigger] packages.rows()[i]).id == v
                    &&& r matches Ok(resp) && resp.data == packages.rows()[i]
                }
        }),
{
    let parsed = match parse_u128(id) {
        Some(v) => v,
        None => {
            return Err(Error::InvalidInput(String::from_str("Invalid package ID")));
        },
    };
    match packages.get_package_by_id(parsed) {
        Some(package) => Ok(ApiResponse::new(package)),
        None => {
            let mut message = String::from_str("Package with id ");
            let id_text = id_to_string(parsed);
            message.append(id_text.as_str());
            message.append(" not found");
            Err(Error::NotFound(message))
        },
    }
}

} // verus!
