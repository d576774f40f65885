//! The Easy-to-Read Version: its verses come as a generated table of records.
use vstd::prelude::*;
use crate::bible::{books_model, record_model, slug_order, Bible, VerseRecord};

verus! {

/// The Bible of the ERV verse table.
pub fn load(records: &[VerseRecord<'_>]) -> (b: Bible)
    ensures
        b.wf(),
        b.order_view() == slug_order(records@.map_values(|r: VerseRecord<'_>| record_model(r))),
        b.books_view() == books_model(records@.map_values(|r: VerseRecord<'_>| record_model(r))),
{
    Bible::from_records(records)
}

} // verus!
