//! Declarations of the embedded engine's types the adapter carries around,
//! and the name of the table they stand before. Verus treats the declared
//! types as opaque values; every claim about them lives in the trusted
//! wrappers of the adapter.

use crate::model::Row;
use vstd::prelude::*;

verus! {

#[verifier::external_type_specification]
#[verifier::external_body]
pub struct ExConnection(sqlite::Connection);

#[verifier::external_type_specification]
#[verifier::external_body]
pub struct ExEngineFault(sqlite::Error);

#[verifier::external_type_specification]
pub struct ExPage(kv_crud_core::Page);

#[verifier::external_type_specification]
#[verifier::external_body]
pub struct ExSort(kv_crud_core::Sort);

/// The rows of the `data` table behind a connection, in the engine's scan
/// order: the order rows come back when none is asked for. The contracts
/// written over this name assume the adapter's connection is the only writer,
/// the single-owner model this adapter is built for: two adapters open on one
/// file-backed locator fall outside the model, as does a locator whose prior
/// contents were written by anything but this adapter.
pub uninterp spec fn table_of(c: sqlite::Connection) -> Seq<Row>;

} // verus!
