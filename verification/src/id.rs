//! Identifiers of tenants and timelines.

use vstd::prelude::*;

verus! {

/// Identifies a tenant: sixteen opaque bytes, held as one number.
#[derive(Clone, Copy, Debug, PartialEq, Eq, Structural, Hash)]
pub struct TenantId(pub u128);

/// Identifies a timeline within a tenant: sixteen opaque bytes, held as one
/// number.
#[derive(Clone, Copy, Debug, PartialEq, Eq, Structural, Hash)]
pub struct TimelineId(pub u128);

} // verus!
