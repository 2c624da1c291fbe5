//! Showing a given local time of a base zone across zones.

use crate::cli::{
    convert_valid_time_to_timezone_utc, invalid_time_message, is_conversion_of, parse_time,
    resolve_zone_name, text_hour, text_minute, valid_time_text, Listing, Time,
};
use crate::commands::{choose_zone_source, config_zones, is_rendering_of, opt_str_view, render, source_of};
use crate::config::{alias_map, merged_entries, Config};
use crate::zone::{lookup_zone, ConvertError, Instant};
use vstd::prelude::*;

verus! {

/// Why a base time could not be shown.
pub enum RunError {
    /// The time is not written `H:MM` or `HH:MM`; the message quotes it.
    InvalidTime(String),
    /// The base zone, as given, is neither an alias nor a known zone.
    UnknownBaseZone(String),
    /// The local time could not be turned into an instant.
    Conversion(ConvertError),
}

/// Lays out, across the chosen zones, the instant at which the base zone's
/// clocks show `time_str` today. The time is checked first, then the base
/// zone (an alias or a canonical name); a time that the base zone's clocks
/// skip is an error, and nothing is laid out for it: what is laid out is
/// the conversion of the requested time.
pub fn run(
    base_tz_raw: &str,
    time_str: &str,
    zones_arg: Option<&str>,
    use_alias_labels: bool,
    config: &Config,
) -> (r: Result<Listing, RunError>)
    ensures
        (r matches Err(RunError::InvalidTime(_))) <==> !valid_time_text(time_str@),
        r matches Err(RunError::InvalidTime(m)) ==> m@ == invalid_time_message(time_str@),
        r matches Err(RunError::UnknownBaseZone(name)) ==> name@ == base_tz_raw@,
        r matches Ok(l) ==> is_conversion_of(
            Ok::<Instant, ConvertError>(l.instant),
            Time { hour: text_hour(time_str@) as u8, minute: text_minute(time_str@) as u8 },
        ),
        r matches Ok(l) ==> is_rendering_of(
            l,
            merged_entries(config.alias_pairs()),
            source_of(opt_str_view(zones_arg), config_zones(config)),
            use_alias_labels,
        ),
{
    let time = match parse_time(time_str) {
        Ok(t) => t,
        Err(m) => return Err(RunError::InvalidTime(m)),
    };
    let table = alias_map(config);
    let canonical = resolve_zone_name(base_tz_raw, &table);
    let tz = match lookup_zone(canonical.as_str()) {
        Some(tz) => tz,
        None => return Err(RunError::UnknownBaseZone(String::from_str(base_tz_raw))),
    };
    let base_time = match convert_valid_time_to_timezone_utc(&time, &tz) {
        Ok(i) => i,
        Err(e) => return Err(RunError::Conversion(e)),
    };
    let source = choose_zone_source(zones_arg, config);
    assert(time == Time { hour: text_hour(time_str@) as u8, minute: text_minute(time_str@) as u8 });
    Ok(render(&base_time, &source, &table, use_alias_labels))
}

} // verus!
