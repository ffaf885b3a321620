//! Forward-pass orchestration on the host: the reverse block index that
//! KV-outer execution and the backward passes read.
use vstd::prelude::*;

use crate::config::{BlockSelection, ReverseBlockIndex};
use crate::error::FerrioxError;
use crate::routing::{build_reverse_view, is_reverse_view, reverse_view_input_ok};

verus! {

/// Build the reverse block index for KV-outer execution and backward.
///
/// Wraps [`build_reverse_view`].
pub fn build_reverse_index(selection: &BlockSelection, num_routing_blocks: u32) -> (res: Result<
    ReverseBlockIndex,
    FerrioxError,
>)
    requires
        reverse_view_input_ok(selection, num_routing_blocks),
    ensures
        res matches Ok(rev) && is_reverse_view(
            rev,
            selection.block_ids@,
            selection.spec_kappa(),
            selection.num_queries() * selection.spec_kappa(),
            num_routing_blocks as nat,
        ),
{
    build_reverse_view(selection, num_routing_blocks)
}

} // verus!
