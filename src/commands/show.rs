//! Showing the current time across zones.

use crate::commands::{choose_zone_source, config_zones, is_rendering_of, opt_str_view, render, source_of};
use crate::cli::Listing;
use crate::config::{alias_map, merged_entries, Config};
use crate::zone::now_instant;
use vstd::prelude::*;

verus! {

/// Lays the current time out across the zones of the command line's list,
/// else of the configuration's list, else of the whole database.
pub fn run(zones_arg: Option<&str>, use_alias_labels: bool, config: &Config) -> (r: Listing)
    ensures
        is_rendering_of(
            r,
            merged_entries(config.alias_pairs()),
            source_of(opt_str_view(zones_arg), config_zones(config)),
            use_alias_labels,
        ),
{
    let now = now_instant();
    let table = alias_map(config);
    let source = choose_zone_source(zones_arg, config);
    render(&now, &source, &table, use_alias_labels)
}

} // verus!
