//! What one invocation shows: the zones to lay out, chosen from the
//! command line, the configuration, or the whole database, in that order.

pub mod base;
pub mod show;

use crate::cli::{
    display_all_zones, display_selected_zones, names_view, shows_all, shows_selected, Listing,
};
use crate::config::{AliasTable, Config};
use crate::zone::Instant;
use vstd::prelude::*;

verus! {

/// The text with leading and trailing whitespace removed.
pub uninterp spec fn trimmed(s: Seq<char>) -> Seq<char>;

/// Relies on `str::trim`: the text without its leading and trailing
/// whitespace.
#[verifier::external_body]
fn trim_text(s: &str) -> (r: String)
    ensures
        r@ == trimmed(s@),
{
    s.trim().to_string()
}

/// The pieces of a text between its commas, empty pieces included.
pub open spec fn split_commas(s: Seq<char>) -> Seq<Seq<char>>
    decreases s.len(),
{
    if s.len() == 0 {
        seq![seq![]]
    } else {
        let p = split_commas(s.drop_last());
        if s.last() == ',' {
            p.push(seq![])
        } else {
            p.update(p.len() - 1, p.last().push(s.last()))
        }
    }
}

/// The pieces, trimmed, without those that are left empty.
pub open spec fn nonempty_trimmed(pieces: Seq<Seq<char>>) -> Seq<Seq<char>>
    decreases pieces.len(),
{
    if pieces.len() == 0 {
        seq![]
    } else {
        let r = nonempty_trimmed(pieces.drop_last());
        let t = trimmed(pieces.last());
        if t.len() > 0 {
            r.push(t)
        } else {
            r
        }
    }
}

/// The zone names of a comma-separated list.
pub open spec fn zone_list(s: Seq<char>) -> Seq<Seq<char>> {
    nonempty_trimmed(split_commas(s))
}

fn split_on_commas(s: &str) -> (r: Vec<String>)
    ensures
        names_view(r@) == split_commas(s@),
{
    let n = s.unicode_len();
    let mut pieces: Vec<String> = Vec::new();
    let mut start: usize = 0;
    let mut i: usize = 0;
    assert(s@.take(0) =~= seq![]);
    assert(s@.subrange(0, 0) =~= seq![]);
    while i < n
        invariant
            n == s@.len(),
            start <= i <= n,
            split_commas(s@.take(i as int)) == names_view(pieces@).push(s@.subrange(start as int, i as int)),
        decreases n - i,
    {
        assert(s@.take(i + 1).drop_last() =~= s@.take(i as int));
        assert(s@.take(i + 1).last() == s@[i as int]);
        let ghost before = names_view(pieces@);
        if s.get_char(i) == ',' {
            let piece = s.substring_char(start, i);
            pieces.push(String::from_str(piece));
            assert(names_view(pieces@) =~= before.push(s@.subrange(start as int, i as int)));
            start = i + 1;
            assert(s@.subrange(start as int, i + 1) =~= seq![]);
        } else {
            assert(s@.subrange(start as int, i + 1) =~= s@.subrange(start as int, i as int).push(s@[i as int]));
            assert(names_view(pieces@).push(s@.subrange(start as int, i + 1)) =~= before.push(
                s@.subrange(start as int, i as int),
            ).update(before.len() as int, s@.subrange(start as int, i as int).push(s@[i as int])));
        }
        i = i + 1;
    }
    assert(s@.take(n as int) =~= s@);
    let last = s.substring_char(start, n);
    pieces.push(String::from_str(last));
    assert(names_view(pieces@) =~= split_commas(s@));
    pieces
}


/// The zone names of a comma-separated list: each piece trimmed, empty
/// pieces dropped, order kept.
pub fn parse_zone_list(s: &str) -> (r: Vec<String>)
    ensures
        names_view(r@) == zone_list(s@),
{
    let pieces = split_on_commas(s);
    let ghost all = names_view(pieces@);
    let mut r: Vec<String> = Vec::new();
    let mut i: usize = 0;
    assert(all.take(0) =~= seq![]);
    while i < pieces.len()
        invariant
            i <= pieces.len(),
            all == names_view(pieces@),
            all == split_commas(s@),
            names_view(r@) == nonempty_trimmed(all.take(i as int)),
        decreases pieces.len() - i,
    {
        assert(all.take(i + 1).drop_last() =~= all.take(i as int));
        let t = trim_text(pieces[i].as_str());
        if t.as_str().unicode_len() > 0 {
            let ghost before = names_view(r@);
            r.push(t);
            assert(names_view(r@) =~= before.push(t@));
        }
        i = i + 1;
    }
    assert(all.take(pieces.len() as int) =~= all);
    r
}

/// Where the zones to show come from.
pub enum ZoneSource {
    /// These names, in this order.
    Selected(Vec<String>),
    /// Every zone of the database.
    All,
}

impl ZoneSource {
    /// The names to show; none stands for every zone.
    pub open spec fn view_names(&self) -> Option<Seq<Seq<char>>> {
        match self {
            ZoneSource::Selected(v) => Some(names_view(v@)),
            ZoneSource::All => None,
        }
    }
}

/// The configuration's zone list, when it has one.
pub open spec fn config_zones(config: &Config) -> Option<Seq<Seq<char>>> {
    match config.zones {
        Some(v) => Some(names_view(v@)),
        None => None,
    }
}

/// The first source that names any zone: the command line's list, then the
/// configuration's list; none (every zone) if neither does.
pub open spec fn source_of(command_line: Option<Seq<char>>, config: Option<Seq<Seq<char>>>) -> Option<
    Seq<Seq<char>>,
> {
    if command_line is Some && zone_list(command_line->0).len() > 0 {
        Some(zone_list(command_line->0))
    } else if config is Some && config->0.len() > 0 {
        config
    } else {
        None
    }
}

pub open spec fn opt_str_view(o: Option<&str>) -> Option<Seq<char>> {
    match o {
        Some(s) => Some(s@),
        None => None,
    }
}

fn copy_names(v: &Vec<String>) -> (r: Vec<String>)
    ensures
        names_view(r@) == names_view(v@),
{
    let mut r: Vec<String> = Vec::new();
    let mut i: usize = 0;
    while i < v.len()
        invariant
            i <= v.len(),
            r@.len() == i,
            forall|j: int| 0 <= j < i ==> (#[trigger] r@[j])@ == v@[j]@,
        decreases v.len() - i,
    {
        r.push(v[i].clone());
        i = i + 1;
    }
    assert(names_view(r@) =~= names_view(v@));
    r
}

/// Chooses the zones to show: the command line's list if it names any,
/// else the configuration's list if it names any, else every zone.
pub fn choose_zone_source(zones_arg: Option<&str>, config: &Config) -> (r: ZoneSource)
    ensures
        r.view_names() == source_of(opt_str_view(zones_arg), config_zones(config)),
{
    if let Some(zs) = zones_arg {
        let zones = parse_zone_list(zs);
        if zones.len() > 0 {
            return ZoneSource::Selected(zones);
        }
    }
    if let Some(zones) = &config.zones {
        if zones.len() > 0 {
            return ZoneSource::Selected(copy_names(zones));
        }
    }
    ZoneSource::All
}

/// A command-line zone list that names any zone is the one shown, whatever
/// the configuration lists.
pub proof fn lemma_command_line_zones_win(command_line: Seq<char>, config: Option<Seq<Seq<char>>>)
    requires
        zone_list(command_line).len() > 0,
    ensures
        source_of(Some(command_line), config) == Some(zone_list(command_line)),
{
}

/// `l` lays an instant out across the zones of `source`.
pub open spec fn is_rendering_of(
    l: Listing,
    table: Seq<(Seq<char>, Seq<char>)>,
    source: Option<Seq<Seq<char>>>,
    use_alias: bool,
) -> bool {
    match source {
        Some(zones) => shows_selected(l, table, zones, use_alias),
        None => shows_all(l, table, use_alias),
    }
}

/// Lays `base_time` out across the zones of `source`.
pub fn render(base_time: &Instant, source: &ZoneSource, table: &AliasTable, use_alias_labels: bool) -> (r: Listing)
    ensures
        r.instant == *base_time,
        is_rendering_of(r, table@, source.view_names(), use_alias_labels),
{
    match source {
        ZoneSource::Selected(zones) => display_selected_zones(base_time, zones, table, use_alias_labels),
        ZoneSource::All => display_all_zones(base_time, table, use_alias_labels),
    }
}

} // verus!
