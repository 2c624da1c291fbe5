//! Reading a time of day, turning it into an instant in a zone, and laying
//! an instant out across zones.

use crate::config::{alias_for_canonical, normalize_zone_name, opt_view, resolve_alias, smallest_alias, AliasTable};
use crate::zone::{
    available_zone_names, chosen_offset, format_local, instant_result_view, local_offsets, lookup_zone, resolve_local_time, resolve_spec,
    today_in, utc_seconds, utc_seconds_of, CivilDate, ConvertError, Instant, LocalOffsets,
};
use jiff::tz::TimeZone;
use vstd::prelude::*;

verus! {

/// A time of day on the 24-hour clock.
#[derive(Clone, Copy, Debug, PartialEq, Eq, Structural)]
pub struct Time {
    pub hour: u8,
    pub minute: u8,
}

impl Time {
    pub open spec fn wf(&self) -> bool {
        self.hour < 24 && self.minute < 60
    }
}

pub open spec fn is_digit(c: char) -> bool {
    '0' <= c && c <= '9'
}

pub open spec fn digit(c: char) -> int {
    c as int - '0' as int
}

/// `H:MM` or `HH:MM`: an hour 0..=23 written with one or two digits, and a
/// minute 00..=59 written with two.
pub open spec fn valid_time_text(s: Seq<char>) -> bool {
    ||| s.len() == 4 && is_digit(s[0]) && s[1] == ':' && is_digit(s[2]) && digit(s[2]) <= 5
        && is_digit(s[3])
    ||| s.len() == 5 && is_digit(s[0]) && is_digit(s[1]) && 10 * digit(s[0]) + digit(s[1]) <= 23
        && s[2] == ':' && is_digit(s[3]) && digit(s[3]) <= 5 && is_digit(s[4])
}

/// The hour that a valid time text gives.
pub open spec fn text_hour(s: Seq<char>) -> int {
    if s.len() == 4 {
        digit(s[0])
    } else {
        10 * digit(s[0]) + digit(s[1])
    }
}

/// The minute that a valid time text gives.
pub open spec fn text_minute(s: Seq<char>) -> int {
    10 * digit(s[s.len() - 2]) + digit(s[s.len() - 1])
}

/// The message with which a malformed time text is rejected.
pub open spec fn invalid_time_message(s: Seq<char>) -> Seq<char> {
    "invalid time format: '"@ + s + "'. expected H:MM or HH:MM (00-23:00-59)"@
}

fn digit_at(s: &str, i: usize) -> (r: Option<u8>)
    requires
        i < s@.len(),
    ensures
        r is Some <==> is_digit(s@[i as int]),
        r matches Some(d) ==> d == digit(s@[i as int]),
{
    let c = s.get_char(i);
    if '0' <= c && c <= '9' {
        Some((c as u32 - '0' as u32) as u8)
    } else {
        None
    }
}

fn hour_minute(input: &str) -> (r: Option<(u8, u8)>)
    ensures
        r is Some <==> valid_time_text(input@),
        r matches Some(p) ==> p.0 == text_hour(input@) && p.1 == text_minute(input@),
{
    let n = input.unicode_len();
    if n != 4 && n != 5 {
        return None;
    }
    let colon = n - 3;
    if input.get_char(colon) != ':' {
        return None;
    }
    let hour = if n == 4 {
        match digit_at(input, 0) {
            Some(d) => d,
            None => return None,
        }
    } else {
        match (digit_at(input, 0), digit_at(input, 1)) {
            (Some(a), Some(b)) => {
                if 10 * a + b > 23 {
                    return None;
                }
                10 * a + b
            },
            _ => return None,
        }
    };
    match (digit_at(input, n - 2), digit_at(input, n - 1)) {
        (Some(a), Some(b)) => {
            if a > 5 {
                None
            } else {
                Some((hour, 10 * a + b))
            }
        },
        _ => None,
    }
}

/// Whether `input` is a time of day written `H:MM` or `HH:MM`.
pub fn is_valid_time(input: &str) -> (r: bool)
    ensures
        r == valid_time_text(input@),
{
    hour_minute(input).is_some()
}

/// Reads a time of day written `H:MM` or `HH:MM`; any other text is
/// rejected with one message that quotes it.
pub fn parse_time(s: &str) -> (r: Result<Time, String>)
    ensures
        r is Ok <==> valid_time_text(s@),
        r matches Ok(t) ==> t.wf() && t.hour == text_hour(s@) && t.minute == text_minute(s@),
        r matches Err(m) ==> m@ == invalid_time_message(s@),
{
    match hour_minute(s) {
        Some((hour, minute)) => Ok(Time { hour, minute }),
        None => {
            let mut m = String::from_str("invalid time format: '");
            m.append(s);
            m.append("'. expected H:MM or HH:MM (00-23:00-59)");
            Err(m)
        },
    }
}


/// The hour that a clock shows at `seconds` past a midnight-aligned epoch.
pub open spec fn clock_hour(seconds: int) -> int {
    (seconds % 86400) / 3600
}

/// The minute that a clock shows at `seconds` past a midnight-aligned epoch.
pub open spec fn clock_minute(seconds: int) -> int {
    (seconds % 3600) / 60
}

/// `local_seconds` is the given time of day on some date, read as UTC.
pub open spec fn is_time_of_day(local_seconds: int, time: Time) -> bool {
    (local_seconds - time.hour * 3600 - time.minute * 60) % 86400 == 0
}

/// What a conversion may give: the local time `time` on the zone's current
/// date, resolved against the offsets the zone gives it; or `OutOfRange`.
pub open spec fn is_conversion_of(r: Result<Instant, ConvertError>, time: Time) -> bool {
    ||| r == Err::<Instant, ConvertError>(ConvertError::OutOfRange)
    ||| exists|date: CivilDate, offsets: LocalOffsets|
        {
            &&& date.wf()
            &&& offsets.wf()
            &&& is_time_of_day(
                utc_seconds_of(date.year as int, date.month as int, date.day as int, time.hour as int, time.minute as int),
                time,
            )
            &&& #[trigger] instant_result_view(r) == resolve_spec(
                utc_seconds_of(date.year as int, date.month as int, date.day as int, time.hour as int, time.minute as int),
                offsets,
            )
        }
}

/// The instant at which the zone's clocks show `time` today (today as the
/// zone sees it). In a repeated hour the earlier instant is taken; a time
/// that the clocks skip is `NonexistentLocalTime`.
pub fn convert_valid_time_to_timezone_utc(time: &Time, tz: &TimeZone) -> (r: Result<Instant, ConvertError>)
    requires
        time.wf(),
    ensures
        is_conversion_of(r, *time),
{
    let today = today_in(tz);
    match utc_seconds(today, time.hour, time.minute) {
        Some(local) => {
            let offsets = local_offsets(tz, today, time.hour, time.minute);
            let r = resolve_local_time(local, offsets);
            assert(instant_result_view(r) == resolve_spec(local as int, offsets));
            r
        },
        None => Err(ConvertError::OutOfRange),
    }
}

/// Round trip: when a time of day exists in the zone, the instant it
/// resolves to, shifted by the offset in force there, shows that same hour
/// and minute again.
pub proof fn lemma_round_trip(time: Time, local_seconds: int, offsets: LocalOffsets)
    requires
        time.wf(),
        offsets.wf(),
        is_time_of_day(local_seconds, time),
        !(offsets is Gap),
    ensures
        resolve_spec(local_seconds, offsets) matches Ok(i) && clock_hour(i + chosen_offset(offsets))
            == time.hour && clock_minute(i + chosen_offset(offsets)) == time.minute,
{
    let h = time.hour as int;
    let m = time.minute as int;
    let k = (local_seconds - h * 3600 - m * 60) / 86400;
    assert(local_seconds == k * 86400 + (h * 3600 + m * 60));
    assert(local_seconds % 86400 == h * 3600 + m * 60) by {
        vstd::arithmetic::div_mod::lemma_mod_multiples_vanish(k, h * 3600 + m * 60, 86400);
        vstd::arithmetic::div_mod::lemma_small_mod((h * 3600 + m * 60) as nat, 86400);
    }
    assert((h * 3600 + m * 60) / 3600 == h) by {
        vstd::arithmetic::div_mod::lemma_fundamental_div_mod_converse(h * 3600 + m * 60, 3600, h, m * 60);
    }
    assert(local_seconds == (k * 24 + h) * 3600 + m * 60);
    assert(local_seconds % 3600 == m * 60) by {
        vstd::arithmetic::div_mod::lemma_mod_multiples_vanish(k * 24 + h, m * 60, 3600);
        vstd::arithmetic::div_mod::lemma_small_mod((m * 60) as nat, 3600);
    }
    assert((m * 60) / 60 == m) by {
        vstd::arithmetic::div_mod::lemma_fundamental_div_mod_converse(m * 60, 60, m, 0);
    }
}


/// A successful conversion came from a local time that exists in the zone
/// (never from a gap), and shifted by the offset the zone gives that local
/// time it shows the requested hour and minute again.
pub proof fn lemma_conversion_round_trip(r: Result<Instant, ConvertError>, time: Time)
    requires
        time.wf(),
        is_conversion_of(r, time),
        r is Ok,
    ensures
        exists|offsets: LocalOffsets|
            {
                &&& offsets.wf()
                &&& !(offsets is Gap)
                &&& clock_hour(r->Ok_0.seconds + #[trigger] chosen_offset(offsets)) == time.hour
                &&& clock_minute(r->Ok_0.seconds + chosen_offset(offsets)) == time.minute
            },
{
    let (date, offsets) = choose|date: CivilDate, offsets: LocalOffsets|
        {
            &&& date.wf()
            &&& offsets.wf()
            &&& is_time_of_day(
                utc_seconds_of(date.year as int, date.month as int, date.day as int, time.hour as int, time.minute as int),
                time,
            )
            &&& #[trigger] instant_result_view(r) == resolve_spec(
                utc_seconds_of(date.year as int, date.month as int, date.day as int, time.hour as int, time.minute as int),
                offsets,
            )
        };
    let local = utc_seconds_of(date.year as int, date.month as int, date.day as int, time.hour as int, time.minute as int);
    assert(!(offsets is Gap));
    lemma_round_trip(time, local, offsets);
}

/// The zone name that a user-supplied name stands for: the zone of the
/// alias, or the name itself when it is no alias.
pub open spec fn canonical_name_of(table: Seq<(Seq<char>, Seq<char>)>, raw: Seq<char>) -> Seq<char> {
    match resolve_alias(table, raw) {
        Some(c) => c,
        None => raw,
    }
}

/// The label of a user-supplied name: with alias labels, a name that is no
/// alias is shown by the alias of the zone it names, if there is one;
/// otherwise the name is shown as given.
pub open spec fn label_of_selected(table: Seq<(Seq<char>, Seq<char>)>, raw: Seq<char>, use_alias: bool) -> Seq<
    char,
> {
    if use_alias && resolve_alias(table, raw) is None && smallest_alias(table, raw) is Some {
        smallest_alias(table, raw)->0
    } else {
        raw
    }
}

/// The label of a canonical zone: its alias when alias labels are asked
/// for and it has one, else its canonical name.
pub open spec fn label_of_zone(table: Seq<(Seq<char>, Seq<char>)>, canonical: Seq<char>, use_alias: bool) -> Seq<
    char,
> {
    if use_alias && smallest_alias(table, canonical) is Some {
        smallest_alias(table, canonical)->0
    } else {
        canonical
    }
}

/// The zone name that `raw` stands for.
pub fn resolve_zone_name(raw: &str, table: &AliasTable) -> (r: String)
    ensures
        r@ == canonical_name_of(table@, raw@),
{
    match normalize_zone_name(raw, table) {
        Some(c) => c,
        None => String::from_str(raw),
    }
}

/// The label shown for a user-supplied name.
pub fn choose_selected_label(raw: &str, table: &AliasTable, use_alias: bool) -> (r: String)
    ensures
        r@ == label_of_selected(table@, raw@, use_alias),
{
    if use_alias && normalize_zone_name(raw, table).is_none() {
        match alias_for_canonical(raw, table) {
            Some(a) => a,
            None => String::from_str(raw),
        }
    } else {
        String::from_str(raw)
    }
}

/// The label shown for a canonical zone.
pub fn choose_zone_label(canonical: &str, table: &AliasTable, use_alias: bool) -> (r: String)
    ensures
        r@ == label_of_zone(table@, canonical@, use_alias),
{
    if use_alias {
        match alias_for_canonical(canonical, table) {
            Some(a) => a,
            None => String::from_str(canonical),
        }
    } else {
        String::from_str(canonical)
    }
}

/// One line of a listing: a label and the local date and time it shows.
pub struct ZoneRow {
    pub label: String,
    pub local_time: String,
}

/// An instant laid out across zones: the instant, the rows in order, the
/// labels of the entries that could not be shown (each one a warning), and
/// the width of the label column.
pub struct Listing {
    pub instant: Instant,
    pub rows: Vec<ZoneRow>,
    pub skipped: Vec<String>,
    pub width: usize,
}

impl Listing {
    pub open spec fn rows_view(&self) -> Seq<(Seq<char>, Seq<char>)> {
        self.rows@.map_values(|r: ZoneRow| (r.label@, r.local_time@))
    }

    pub open spec fn skipped_view(&self) -> Seq<Seq<char>> {
        self.skipped@.map_values(|s: String| s@)
    }
}

/// The rows of the entries that have a local time, in order.
pub open spec fn rows_of(entries: Seq<(Seq<char>, Option<Seq<char>>)>) -> Seq<(Seq<char>, Seq<char>)>
    decreases entries.len(),
{
    if entries.len() == 0 {
        seq![]
    } else {
        match entries.last().1 {
            Some(t) => rows_of(entries.drop_last()).push((entries.last().0, t)),
            None => rows_of(entries.drop_last()),
        }
    }
}

/// The labels of the entries without a local time, in order.
pub open spec fn skipped_of(entries: Seq<(Seq<char>, Option<Seq<char>>)>) -> Seq<Seq<char>>
    decreases entries.len(),
{
    if entries.len() == 0 {
        seq![]
    } else {
        match entries.last().1 {
            Some(_) => skipped_of(entries.drop_last()),
            None => skipped_of(entries.drop_last()).push(entries.last().0),
        }
    }
}

/// The length of the longest label among the entries that are shown.
pub open spec fn width_of(entries: Seq<(Seq<char>, Option<Seq<char>>)>) -> nat
    decreases entries.len(),
{
    if entries.len() == 0 {
        0
    } else {
        let w = width_of(entries.drop_last());
        if entries.last().1 is Some && entries.last().0.len() > w {
            entries.last().0.len()
        } else {
            w
        }
    }
}

pub open spec fn is_listing_of(l: Listing, entries: Seq<(Seq<char>, Option<Seq<char>>)>) -> bool {
    &&& l.rows_view() == rows_of(entries)
    &&& l.skipped_view() == skipped_of(entries)
    &&& l.width == width_of(entries)
}

pub open spec fn entries_view(v: Seq<(String, Option<String>)>) -> Seq<(Seq<char>, Option<Seq<char>>)> {
    v.map_values(|e: (String, Option<String>)| (e.0@, opt_view(e.1)))
}

/// Pairs each label with the local time of its entry, if it has one.
pub open spec fn labelled(labels: Seq<Seq<char>>, texts: Seq<Option<Seq<char>>>) -> Seq<
    (Seq<char>, Option<Seq<char>>),
> {
    Seq::new(labels.len(), |i: int| (labels[i], texts[i]))
}

/// Lays out labelled entries of `instant`: those with a local time become
/// rows, the others are reported as skipped, and the label column is as
/// wide as the longest label shown.
pub fn build_listing(instant: Instant, entries: &Vec<(String, Option<String>)>) -> (r: Listing)
    ensures
        r.instant == instant,
        is_listing_of(r, entries_view(entries@)),
{
    let ghost all = entries_view(entries@);
    let mut rows: Vec<ZoneRow> = Vec::new();
    let mut skipped: Vec<String> = Vec::new();
    let mut width: usize = 0;
    let mut i: usize = 0;
    let n = entries.len();
    while i < n
        invariant
            i <= n,
            n == entries.len(),
            all == entries_view(entries@),
            (Listing { instant, rows, skipped, width }).rows_view() == rows_of(all.take(i as int)),
            (Listing { instant, rows, skipped, width }).skipped_view() == skipped_of(all.take(i as int)),
            width == width_of(all.take(i as int)),
        decreases n - i,
    {
        let ghost prev = all.take(i as int);
        assert(all.take(i + 1).drop_last() =~= prev);
        let label = entries[i].0.clone();
        let ghost rows0 = rows@;
        let ghost skipped0 = skipped@;
        match &entries[i].1 {
            Some(t) => {
                let len = label.as_str().unicode_len();
                if len > width {
                    width = len;
                }
                rows.push(ZoneRow { label, local_time: t.clone() });
                assert(rows@.map_values(|r: ZoneRow| (r.label@, r.local_time@)) =~= rows0.map_values(
                    |r: ZoneRow| (r.label@, r.local_time@),
                ).push((all[i as int].0, all[i as int].1->0)));
            },
            None => {
                skipped.push(label);
                assert(skipped@.map_values(|s: String| s@) =~= skipped0.map_values(|s: String| s@).push(
                    all[i as int].0,
                ));
            },
        }
        i = i + 1;
    }
    assert(all.take(n as int) =~= all);
    Listing { instant, rows, skipped, width }
}


/// The labels of user-supplied names, in order.
pub open spec fn selected_labels(table: Seq<(Seq<char>, Seq<char>)>, zones: Seq<Seq<char>>, use_alias: bool) -> Seq<
    Seq<char>,
> {
    zones.map_values(|z: Seq<char>| label_of_selected(table, z, use_alias))
}

/// The texts of a list of strings.
pub open spec fn names_view(v: Seq<String>) -> Seq<Seq<char>> {
    v.map_values(|s: String| s@)
}

/// The labels of canonical zones, in order.
pub open spec fn zone_labels(table: Seq<(Seq<char>, Seq<char>)>, names: Seq<Seq<char>>, use_alias: bool) -> Seq<
    Seq<char>,
> {
    names.map_values(|z: Seq<char>| label_of_zone(table, z, use_alias))
}

/// `l` shows the named zones, each under its label, in order; the local
/// times are those the time zone database gave.
pub open spec fn shows_selected(
    l: Listing,
    table: Seq<(Seq<char>, Seq<char>)>,
    zones: Seq<Seq<char>>,
    use_alias: bool,
) -> bool {
    exists|texts: Seq<Option<Seq<char>>>|
        texts.len() == zones.len() && #[trigger] is_listing_of(
            l,
            labelled(selected_labels(table, zones, use_alias), texts),
        )
}

/// `l` shows the zones of `names`, one entry each in order, each under its
/// label; the local times are those the time zone database gave.
pub open spec fn shows_zones(
    l: Listing,
    table: Seq<(Seq<char>, Seq<char>)>,
    names: Seq<Seq<char>>,
    use_alias: bool,
) -> bool {
    exists|texts: Seq<Option<Seq<char>>>|
        texts.len() == names.len() && #[trigger] is_listing_of(
            l,
            labelled(zone_labels(table, names, use_alias), texts),
        )
}

/// `l` shows every zone of a non-empty list of database zones.
pub open spec fn shows_all(l: Listing, table: Seq<(Seq<char>, Seq<char>)>, use_alias: bool) -> bool {
    exists|names: Seq<Seq<char>>| names.len() > 0 && #[trigger] shows_zones(l, table, names, use_alias)
}

/// The local time of an instant in the zone a name stands for, if the zone
/// is known.
fn local_time_in(base_time: &Instant, canonical: &str) -> (r: Option<String>) {
    match lookup_zone(canonical) {
        Some(tz) => format_local(*base_time, &tz),
        None => None,
    }
}

/// Lays `base_time` out across the zones the user named, in their order.
/// Each name is resolved as an alias first, then as a canonical zone name;
/// a name that resolves to no known zone is skipped and reported, and the
/// others are still shown. The label column fits every label, shown or not.
pub fn display_selected_zones(base_time: &Instant, zones: &Vec<String>, table: &AliasTable, use_alias_labels: bool) -> (r: Listing)
    ensures
        r.instant == *base_time,
        shows_selected(r, table@, names_view(zones@), use_alias_labels),
{
    let mut entries: Vec<(String, Option<String>)> = Vec::new();
    let mut i: usize = 0;
    while i < zones.len()
        invariant
            i <= zones.len(),
            entries.len() == i,
            forall|j: int| 0 <= j < i ==> (#[trigger] entries@[j]).0@ == label_of_selected(
                table@,
                zones@[j]@,
                use_alias_labels,
            ),
        decreases zones.len() - i,
    {
        let raw = zones[i].as_str();
        let canonical = resolve_zone_name(raw, table);
        let label = choose_selected_label(raw, table, use_alias_labels);
        let text = local_time_in(base_time, canonical.as_str());
        entries.push((label, text));
        i = i + 1;
    }
    let r = build_listing(*base_time, &entries);
    let ghost texts = entries_view(entries@).map_values(|e: (Seq<char>, Option<Seq<char>>)| e.1);
    assert(entries_view(entries@) =~= labelled(selected_labels(table@, names_view(zones@), use_alias_labels), texts));
    assert(is_listing_of(r, labelled(selected_labels(table@, names_view(zones@), use_alias_labels), texts)));
    r
}

/// Lays `base_time` out across the canonical zones `names`, in order, each
/// labelled by its canonical name or, with alias labels, by its alias when
/// it has one. A name the database does not know is skipped and reported.
pub fn display_zones(base_time: &Instant, names: &Vec<String>, table: &AliasTable, use_alias_labels: bool) -> (r: Listing)
    ensures
        r.instant == *base_time,
        shows_zones(r, table@, names_view(names@), use_alias_labels),
{
    let mut entries: Vec<(String, Option<String>)> = Vec::new();
    let mut i: usize = 0;
    while i < names.len()
        invariant
            i <= names.len(),
            entries.len() == i,
            forall|j: int| 0 <= j < i ==> (#[trigger] entries@[j]).0@ == label_of_zone(
                table@,
                names@[j]@,
                use_alias_labels,
            ),
        decreases names.len() - i,
    {
        let name = names[i].as_str();
        let label = choose_zone_label(name, table, use_alias_labels);
        let text = local_time_in(base_time, name);
        entries.push((label, text));
        i = i + 1;
    }
    let r = build_listing(*base_time, &entries);
    let ghost texts = entries_view(entries@).map_values(|e: (Seq<char>, Option<Seq<char>>)| e.1);
    assert(entries_view(entries@) =~= labelled(zone_labels(table@, names_view(names@), use_alias_labels), texts));
    assert(is_listing_of(r, labelled(zone_labels(table@, names_view(names@), use_alias_labels), texts)));
    r
}

/// Lays `base_time` out across every zone of the time zone database, in
/// the order the database lists them.
pub fn display_all_zones(base_time: &Instant, table: &AliasTable, use_alias_labels: bool) -> (r: Listing)
    ensures
        r.instant == *base_time,
        shows_all(r, table@, use_alias_labels),
{
    let names = available_zone_names();
    let r = display_zones(base_time, &names, table, use_alias_labels);
    assert(shows_zones(r, table@, names_view(names@), use_alias_labels));
    r
}

/// An entry that cannot be shown does not stop the others: every entry
/// with a local time has its row, every entry without one is reported, and
/// nothing else is.
pub proof fn lemma_skipped_entries_do_not_abort(entries: Seq<(Seq<char>, Option<Seq<char>>)>)
    ensures
        rows_of(entries).len() + skipped_of(entries).len() == entries.len(),
        forall|i: int|
            0 <= i < entries.len() && (#[trigger] entries[i]).1 is Some ==> rows_of(entries).contains(
                (entries[i].0, entries[i].1->0),
            ),
        forall|i: int|
            0 <= i < entries.len() && (#[trigger] entries[i]).1 is None ==> skipped_of(entries).contains(
                entries[i].0,
            ),
    decreases entries.len(),
{
    if entries.len() > 0 {
        let prev = entries.drop_last();
        lemma_skipped_entries_do_not_abort(prev);
        let last = entries.len() - 1;
        assert forall|i: int|
            0 <= i < entries.len() && (#[trigger] entries[i]).1 is Some implies rows_of(entries).contains(
                (entries[i].0, entries[i].1->0),
            ) by {
            if i < last {
                assert(prev[i] == entries[i]);
                let k = choose|k: int| 0 <= k < rows_of(prev).len() && rows_of(prev)[k] == (entries[i].0, entries[i].1->0);
                if entries.last().1 is Some {
                    assert(rows_of(entries)[k] == rows_of(prev)[k]);
                }
            } else {
                assert(rows_of(entries)[rows_of(entries).len() - 1] == (entries[i].0, entries[i].1->0));
            }
        }
        assert forall|i: int|
            0 <= i < entries.len() && (#[trigger] entries[i]).1 is None implies skipped_of(entries).contains(
                entries[i].0,
            ) by {
            if i < last {
                assert(prev[i] == entries[i]);
                let k = choose|k: int| 0 <= k < skipped_of(prev).len() && skipped_of(prev)[k] == entries[i].0;
                if entries.last().1 is None {
                    assert(skipped_of(entries)[k] == skipped_of(prev)[k]);
                }
            } else {
                assert(skipped_of(entries)[skipped_of(entries).len() - 1] == entries[i].0);
            }
        }
    }
}

/// With selected zones, a name that cannot be shown does not stop the
/// others: each named zone gives, in order, either a row under its label or
/// a reported label, and nothing else is listed.
pub proof fn lemma_selected_listing_keeps_every_entry(
    l: Listing,
    table: Seq<(Seq<char>, Seq<char>)>,
    zones: Seq<Seq<char>>,
    use_alias: bool,
)
    requires
        shows_selected(l, table, zones, use_alias),
    ensures
        exists|texts: Seq<Option<Seq<char>>>|
            {
                &&& texts.len() == zones.len()
                &&& l.rows.len() + l.skipped.len() == zones.len()
                &&& forall|i: int|
                    0 <= i < zones.len() && (#[trigger] texts[i]) is Some ==> l.rows_view().contains(
                        (label_of_selected(table, zones[i], use_alias), texts[i]->0),
                    )
                &&& forall|i: int|
                    0 <= i < zones.len() && (#[trigger] texts[i]) is None ==> l.skipped_view().contains(
                        label_of_selected(table, zones[i], use_alias),
                    )
            },
{
    let texts = choose|texts: Seq<Option<Seq<char>>>|
        texts.len() == zones.len() && #[trigger] is_listing_of(
            l,
            labelled(selected_labels(table, zones, use_alias), texts),
        );
    let e = labelled(selected_labels(table, zones, use_alias), texts);
    lemma_skipped_entries_do_not_abort(e);
    assert(l.rows.len() == l.rows_view().len());
    assert(l.skipped.len() == l.skipped_view().len());
    assert forall|i: int| 0 <= i < zones.len() && (#[trigger] texts[i]) is Some implies l.rows_view().contains(
        (label_of_selected(table, zones[i], use_alias), texts[i]->0),
    ) by {
        assert(e[i] == (label_of_selected(table, zones[i], use_alias), texts[i]));
    }
    assert forall|i: int| 0 <= i < zones.len() && (#[trigger] texts[i]) is None implies l.skipped_view().contains(
        label_of_selected(table, zones[i], use_alias),
    ) by {
        assert(e[i] == (label_of_selected(table, zones[i], use_alias), texts[i]));
    }
}

/// The decimal digit of a value 0..=9.
pub open spec fn digit_char(d: int) -> char {
    ((d + 48) as u32) as char
}

/// Hour `h` and minute `m` written as a clock shows them: the hour with no
/// leading zero (`9:05`) or zero-padded to two digits (`09:05`), a colon,
/// and the minute with two digits.
pub open spec fn clock_text(h: int, m: int, padded: bool) -> Seq<char> {
    let hh = if padded || h >= 10 {
        seq![digit_char(h / 10), digit_char(h % 10)]
    } else {
        seq![digit_char(h)]
    };
    hh + seq![':', digit_char(m / 10), digit_char(m % 10)]
}

proof fn lemma_digit_char(d: int)
    requires
        0 <= d <= 9,
    ensures
        is_digit(digit_char(d)),
        digit(digit_char(d)) == d,
{
}

proof fn lemma_char_of_digit(c: char)
    requires
        is_digit(c),
    ensures
        digit_char(digit(c)) == c,
{
}

proof fn lemma_two_digits(a: int, b: int)
    requires
        0 <= a <= 9,
        0 <= b <= 9,
    ensures
        (10 * a + b) / 10 == a,
        (10 * a + b) % 10 == b,
{
    vstd::arithmetic::div_mod::lemma_fundamental_div_mod_converse(10 * a + b, 10, a, b);
}

/// The accepted time texts are exactly the clock renderings of the hours
/// 0..=23 and minutes 0..=59, with or without a leading zero on the hour.
pub proof fn lemma_valid_time_is_clock_text(s: Seq<char>)
    ensures
        valid_time_text(s) <==> exists|h: int, m: int, padded: bool|
            0 <= h <= 23 && 0 <= m <= 59 && s == #[trigger] clock_text(h, m, padded),
{
    if valid_time_text(s) {
        let n = s.len();
        let h = text_hour(s);
        let m = text_minute(s);
        let padded = n == 5;
        lemma_two_digits(digit(s[n - 2]), digit(s[n - 1]));
        lemma_char_of_digit(s[n - 2]);
        lemma_char_of_digit(s[n - 1]);
        lemma_char_of_digit(s[0]);
        if n == 5 {
            lemma_char_of_digit(s[1]);
            lemma_two_digits(digit(s[0]), digit(s[1]));
        }
        assert(s =~= clock_text(h, m, padded));
    }
    if exists|h: int, m: int, padded: bool| 0 <= h <= 23 && 0 <= m <= 59 && s == #[trigger] clock_text(h, m, padded) {
        let (h, m, padded) = choose|h: int, m: int, padded: bool|
            0 <= h <= 23 && 0 <= m <= 59 && s == #[trigger] clock_text(h, m, padded);
        assert(0 <= h / 10 <= 2 && 0 <= h % 10 <= 9) by (nonlinear_arith)
            requires 0 <= h <= 23;
        assert(0 <= m / 10 <= 5 && 0 <= m % 10 <= 9) by (nonlinear_arith)
            requires 0 <= m <= 59;
        assert(10 * (h / 10) + h % 10 == h) by (nonlinear_arith)
            requires 0 <= h;
        assert(10 * (m / 10) + m % 10 == m) by (nonlinear_arith)
            requires 0 <= m;
        lemma_digit_char(h / 10);
        lemma_digit_char(h % 10);
        lemma_digit_char(m / 10);
        lemma_digit_char(m % 10);
        if !(padded || h >= 10) {
            lemma_digit_char(h);
        }
    }
}

} // verus!
