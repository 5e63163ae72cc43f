use vstd::prelude::*;

use crate::db;
use crate::error::{spec_public_message, Error};
use crate::types::Cursor;

verus! {

/// The largest page size a listing accepts.
pub const MAX_LIMIT: u64 = 100;

/// A validated page size, at most `MAX_LIMIT`.
#[derive(Debug)]
pub struct Limit(u64);

impl Limit {
    /// The page size this limit stands for.
    pub closed spec fn spec_value(&self) -> u64 {
        self.0
    }

    /// A limit is never above `MAX_LIMIT`.
    pub open spec fn wf(&self) -> bool {
        self.spec_value() <= MAX_LIMIT
    }

    pub fn as_u64(&self) -> (r: u64)
        ensures
            r == self.spec_value(),
    {
        self.0
    }

    /// Validates a requested page size: a value above `MAX_LIMIT` is
    /// rejected as `InvalidInput` with its fixed message, anything else
    /// is accepted.
    pub fn try_from(value: u64) -> (r: Result<Limit, Error>)
        ensures
            value <= MAX_LIMIT ==> (r matches Ok(l) && l.spec_value() == value && l.wf()),
            value > MAX_LIMIT ==> (r matches Err(e) && e is InvalidInput && spec_public_message(
                &e,
            ) == "Limit must be less than 100"@),
    {
        if value > MAX_LIMIT {
            Err(Error::InvalidInput(String::from_str("Limit must be less than 100")))
        } else {
            Ok(Limit(value))
        }
    }
}

/// Direction of a listing at the API level.
#[derive(Debug, PartialEq, Eq, Structural, Copy, Clone)]
pub enum Order {
    Asc,
    Desc,
}

impl Default for Order {
    /// API listings default to newest first.
    fn default() -> (r: Self)
        ensures
            r == Order::Desc,
    {
        Order::Desc
    }
}

/// The store-level direction each API direction maps to.
pub open spec fn spec_db_order(o: Order) -> db::Order {
    match o {
        Order::Asc => db::Order::Asc,
        Order::Desc => db::Order::Desc,
    }
}

impl core::convert::From<Order> for db::Order {
    fn from(order: Order) -> Self {
        match order {
            Order::Asc => db::Order::Asc,
            Order::Desc => db::Order::Desc,
        }
    }
}

impl vstd::std_specs::convert::FromSpecImpl<Order> for db::Order {
    open spec fn obeys_from_spec() -> bool {
        true
    }

    open spec fn from_spec(order: Order) -> db::Order {
        spec_db_order(order)
    }
}

/// The pagination parameters of a listing request, as they arrive: an
/// optional page size, an optional cursor and a direction.
#[derive(Debug, Clone, Copy)]
pub struct PaginationQuery {
    pub limit: Option<u64>,
    pub after: Option<u128>,
    pub order: Order,
}

/// The body of a job submission: which registry to scrape for which
/// package.
#[derive(Debug)]
pub struct CreateJobPayload {
    pub registry: String,
    pub package_name: String,
}

/// A single-entity response body.
#[derive(Debug)]
pub struct ApiResponse<T> {
    pub data: T,
}

impl<T> ApiResponse<T> {
    pub fn new(data: T) -> (r: Self)
        ensures
            r.data == data,
    {
        ApiResponse { data }
    }
}

/// A paginated listing body: one page of rows and the cursor to resume
/// from, absent on the last page.
#[derive(Debug)]
pub struct ApiResponseList<T> {
    pub data: Vec<T>,
    pub next_cursor: Option<String>,
}

impl<T: Cursor> ApiResponseList<T> {
    /// Builds one page from the rows a store query returned, which were
    /// requested with one row of headroom: more rows than the limit
    /// means another page exists, and the cursor of the last retained
    /// row is where it starts.
    pub fn new(items: Vec<T>, limit: Limit) -> (r: Self)
        ensures
            r.data@ == spec_limited_items(items@, limit.spec_value() as int),
            (items@.len() > limit.spec_value() && limit.spec_value() > 0) ==> (r.next_cursor
                matches Some(c) && c@ == items@[limit.spec_value() - 1].spec_cursor()),
            !(items@.len() > limit.spec_value() && limit.spec_value() > 0) ==> r.next_cursor
                is None,
    {
        let mut data = items;
        let limit_value = limit.as_u64();
        let has_more = (data.len() as u64) > limit_value;

        if has_more {
            data.truncate(limit_value as usize);
        }

        let next_cursor = if has_more {
            if data.len() > 0 {
                Some(data[data.len() - 1].cursor())
            } else {
                None
            }
        } else {
            None
        };

        ApiResponseList { data, next_cursor }
    }
}

/// The rows a page retains: everything the query returned, capped at the
/// limit.
pub open spec fn spec_limited_items<T>(items: Seq<T>, limit: int) -> Seq<T> {
    if items.len() > limit {
        items.take(limit)
    } else {
        items
    }
}

} // verus!
