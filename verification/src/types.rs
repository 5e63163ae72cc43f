use vstd::prelude::*;

verus! {

/// One unit of work on the wire: enough for the consumer to fetch the
/// artifact and close the loop on the originating job without re-querying
/// the job store first.
#[derive(Debug, PartialEq, Eq)]
pub struct JobMessage {
    pub job_id: u128,
    pub registry: String,
    pub package_name: String,
}

/// An entity exposed through a paginated listing produces an opaque cursor
/// string from itself; the listing's ordering key must be the field the
/// cursor encodes, so "rows after cursor X" is a range predicate on the
/// ordering column.
pub trait Cursor {
    spec fn spec_cursor(&self) -> Seq<char>;

    fn cursor(&self) -> (r: String)
        ensures
            r@ == self.spec_cursor(),
    ;
}

} // verus!
