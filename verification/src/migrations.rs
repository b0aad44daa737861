//! Storage format migrations. The format version is an exact compatibility
//! gate: no implicit migration exists.
use vstd::prelude::*;

use crate::world::{WorldMeta, CURRENT_FORMAT_VERSION};

verus! {

/// Whether a world's metadata is in a format other than the current one.
pub fn needs_migration(meta: &WorldMeta) -> (r: bool)
    ensures
        r == (meta.format_version != CURRENT_FORMAT_VERSION),
{
    meta.format_version != CURRENT_FORMAT_VERSION
}

/// Migrates metadata to the current format and reports whether a migration
/// was needed. No migration exists: the metadata is left as it is.
pub fn migrate_meta(meta: &mut WorldMeta) -> (r: bool)
    ensures
        r == (old(meta).format_version != CURRENT_FORMAT_VERSION),
        *final(meta) == *old(meta),
{
    needs_migration(meta)
}

} // verus!
