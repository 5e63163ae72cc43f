use vstd::prelude::*;

verus! {

/// Direction of a keyset-paginated listing at the store level.
#[derive(Debug, PartialEq, Eq, Structural, Copy, Clone)]
pub enum Order {
    Asc,
    Desc,
}

/// The SQL keyword each direction renders as.
pub open spec fn spec_order_sql(o: Order) -> Seq<char> {
    match o {
        Order::Asc => "ASC"@,
        Order::Desc => "DESC"@,
    }
}

impl Order {
    /// Renders the direction as its SQL keyword.
    pub fn to_string(&self) -> (r: String)
        ensures
            r@ == spec_order_sql(*self),
    {
        match self {
            Order::Asc => String::from_str("ASC"),
            Order::Desc => String::from_str("DESC"),
        }
    }
}

impl Default for Order {
    /// Store-level listings default to ascending order.
    fn default() -> (r: Self)
        ensures
            r == Order::Asc,
    {
        Order::Asc
    }
}

} // verus!
