//! Alias resolution: a built-in table of friendly zone names, overlaid with
//! the user's own aliases, looked up without regard to ASCII case.

use vstd::prelude::*;

verus! {

/// ASCII case folding of one character.
pub open spec fn fold_char(c: char) -> char {
    if 'A' <= c && c <= 'Z' {
        ((c as u32) + 32) as char
    } else {
        c
    }
}

/// ASCII case folding of a whole text.
pub open spec fn fold_case(s: Seq<char>) -> Seq<char> {
    s.map_values(|c: char| fold_char(c))
}

/// Relies on `str::to_ascii_lowercase`: ASCII letters 'A'..='Z' become
/// 'a'..='z', every other character is kept as it is.
#[verifier::external_body]
fn ascii_lowercase(s: &str) -> (r: String)
    ensures
        r@ == fold_case(s@),
{
    s.to_ascii_lowercase()
}


/// Strict lexicographic order of two texts, character by character.
pub open spec fn lex_lt(a: Seq<char>, b: Seq<char>) -> bool
    decreases a.len(),
{
    if a.len() == 0 {
        b.len() > 0
    } else if b.len() == 0 {
        false
    } else if a[0] != b[0] {
        (a[0] as int) < (b[0] as int)
    } else {
        lex_lt(a.drop_first(), b.drop_first())
    }
}

/// Lexicographic order, equality included.
pub open spec fn lex_le(a: Seq<char>, b: Seq<char>) -> bool {
    a == b || lex_lt(a, b)
}

pub proof fn lemma_lex_irreflexive(a: Seq<char>)
    ensures
        !lex_lt(a, a),
    decreases a.len(),
{
    if a.len() > 0 {
        lemma_lex_irreflexive(a.drop_first());
    }
}

pub proof fn lemma_lex_transitive(a: Seq<char>, b: Seq<char>, c: Seq<char>)
    requires
        lex_lt(a, b),
        lex_lt(b, c),
    ensures
        lex_lt(a, c),
    decreases a.len(),
{
    if a.len() > 0 && b.len() > 0 && c.len() > 0 && a[0] == b[0] && b[0] == c[0] {
        lemma_lex_transitive(a.drop_first(), b.drop_first(), c.drop_first());
    }
}

pub proof fn lemma_lex_total(a: Seq<char>, b: Seq<char>)
    ensures
        a == b || lex_lt(a, b) || lex_lt(b, a),
    decreases a.len(),
{
    if a.len() > 0 && b.len() > 0 {
        if a[0] == b[0] {
            lemma_lex_total(a.drop_first(), b.drop_first());
            if a.drop_first() == b.drop_first() {
                assert(a =~= seq![a[0]] + a.drop_first());
                assert(b =~= seq![b[0]] + b.drop_first());
            }
        } else {
            assert((a[0] as int) != (b[0] as int));
        }
    } else if a.len() == 0 && b.len() == 0 {
        assert(a =~= b);
    }
}

pub proof fn lemma_lex_antisymmetric(a: Seq<char>, b: Seq<char>)
    requires
        lex_lt(a, b),
    ensures
        !lex_lt(b, a),
{
    if lex_lt(b, a) {
        lemma_lex_transitive(a, b, a);
        lemma_lex_irreflexive(a);
    }
}

/// Compares two texts in lexicographic order of their characters.
fn lex_less(a: &str, b: &str) -> (r: bool)
    ensures
        r == lex_lt(a@, b@),
{
    let alen = a.unicode_len();
    let blen = b.unicode_len();
    let mut i: usize = 0;
    assert(a@.skip(0) =~= a@);
    assert(b@.skip(0) =~= b@);
    while i < alen && i < blen && a.get_char(i) == b.get_char(i)
        invariant
            i <= alen,
            i <= blen,
            alen == a@.len(),
            blen == b@.len(),
            lex_lt(a@, b@) == lex_lt(a@.skip(i as int), b@.skip(i as int)),
        decreases alen - i,
    {
        assert(a@.skip(i as int).drop_first() =~= a@.skip(i + 1));
        assert(b@.skip(i as int).drop_first() =~= b@.skip(i + 1));
        i = i + 1;
    }
    if i == alen {
        i < blen
    } else if i == blen {
        false
    } else {
        (a.get_char(i) as u32) < (b.get_char(i) as u32)
    }
}


/// The value that a list of (key, value) insertions leaves under `key`:
/// a later insertion of the same key replaces an earlier one.
pub open spec fn lookup(entries: Seq<(Seq<char>, Seq<char>)>, key: Seq<char>) -> Option<Seq<char>>
    decreases entries.len(),
{
    if entries.len() == 0 {
        None
    } else if entries.last().0 == key {
        Some(entries.last().1)
    } else {
        lookup(entries.drop_last(), key)
    }
}

/// The texts held by a list of pairs of strings.
pub open spec fn pairs_view(v: Seq<(String, String)>) -> Seq<(Seq<char>, Seq<char>)> {
    v.map_values(|p: (String, String)| (p.0@, p.1@))
}

pub open spec fn opt_view(o: Option<String>) -> Option<Seq<char>> {
    match o {
        Some(s) => Some(s@),
        None => None,
    }
}

/// The aliases known without any configuration.
pub open spec fn builtin_entries() -> Seq<(Seq<char>, Seq<char>)> {
    seq![
        ("tokyo"@, "Asia/Tokyo"@),
        ("dallas"@, "America/Chicago"@),
        ("california"@, "America/Los_Angeles"@),
        ("losangeles"@, "America/Los_Angeles"@),
        ("los_angeles"@, "America/Los_Angeles"@),
        ("la"@, "America/Los_Angeles"@),
        ("newyork"@, "America/New_York"@),
        ("new_york"@, "America/New_York"@),
        ("ny"@, "America/New_York"@),
    ]
}

/// User aliases with their keys case-folded; values are kept verbatim.
pub open spec fn folded_keys(user: Seq<(Seq<char>, Seq<char>)>) -> Seq<(Seq<char>, Seq<char>)> {
    user.map_values(|p: (Seq<char>, Seq<char>)| (fold_case(p.0), p.1))
}

/// The insertions that build the merged table: built-ins first, then the
/// user's entries, so that a user entry wins on a key collision.
pub open spec fn merged_entries(user: Seq<(Seq<char>, Seq<char>)>) -> Seq<(Seq<char>, Seq<char>)> {
    builtin_entries() + folded_keys(user)
}

/// `key` names `canonical` in the table.
pub open spec fn is_alias_of(entries: Seq<(Seq<char>, Seq<char>)>, key: Seq<char>, canonical: Seq<char>) -> bool {
    lookup(entries, key) == Some(canonical)
}

/// `key` is the lexicographically smallest of the keys that name `canonical`.
pub open spec fn is_smallest_alias(
    entries: Seq<(Seq<char>, Seq<char>)>,
    key: Seq<char>,
    canonical: Seq<char>,
) -> bool {
    &&& is_alias_of(entries, key, canonical)
    &&& forall|k: Seq<char>| #[trigger] is_alias_of(entries, k, canonical) ==> lex_le(key, k)
}

/// The label of a canonical zone: its smallest alias, if it has any.
pub open spec fn smallest_alias(entries: Seq<(Seq<char>, Seq<char>)>, canonical: Seq<char>) -> Option<
    Seq<char>,
> {
    if exists|k: Seq<char>| is_smallest_alias(entries, k, canonical) {
        Some(choose|k: Seq<char>| is_smallest_alias(entries, k, canonical))
    } else {
        None
    }
}

/// An insertion that no later insertion of the same key replaces is what
/// the table holds under that key.
pub proof fn lemma_lookup_last(entries: Seq<(Seq<char>, Seq<char>)>, j: int)
    requires
        0 <= j < entries.len(),
        forall|l: int| j < l < entries.len() ==> entries[l].0 != entries[j].0,
    ensures
        lookup(entries, entries[j].0) == Some(entries[j].1),
    decreases entries.len(),
{
    if j < entries.len() - 1 {
        lemma_lookup_last(entries.drop_last(), j);
    }
}

/// What the table holds under a key comes from its last insertion.
pub proof fn lemma_lookup_found(entries: Seq<(Seq<char>, Seq<char>)>, key: Seq<char>)
    requires
        lookup(entries, key) is Some,
    ensures
        exists|j: int|
            0 <= j < entries.len() && entries[j].0 == key && Some(entries[j].1) == lookup(entries, key)
                && forall|l: int| j < l < entries.len() ==> entries[l].0 != key,
    decreases entries.len(),
{
    if entries.last().0 == key {
        assert(entries[entries.len() - 1].0 == key);
    } else {
        lemma_lookup_found(entries.drop_last(), key);
        let j = choose|j: int|
            0 <= j < entries.drop_last().len() && entries.drop_last()[j].0 == key && Some(
                entries.drop_last()[j].1,
            ) == lookup(entries.drop_last(), key) && forall|l: int|
                j < l < entries.drop_last().len() ==> entries.drop_last()[l].0 != key;
        assert(entries[j].0 == key);
        assert forall|l: int| j < l < entries.len() implies entries[l].0 != key by {
            if l < entries.len() - 1 {
                assert(entries.drop_last()[l] == entries[l]);
            }
        }
    }
}

/// Case-insensitive lookup of a raw name among the table's keys.
pub open spec fn resolve_alias(entries: Seq<(Seq<char>, Seq<char>)>, raw: Seq<char>) -> Option<Seq<char>> {
    lookup(entries, fold_case(raw))
}

/// The configuration: an optional ordered list of zones to show, and
/// optional alias overrides (alias to canonical zone name), in the order in
/// which they are applied.
pub struct Config {
    pub zones: Option<Vec<String>>,
    pub aliases: Option<Vec<(String, String)>>,
}

impl Config {
    /// The user's alias pairs, none when the configuration gives none.
    pub open spec fn alias_pairs(&self) -> Seq<(Seq<char>, Seq<char>)> {
        match self.aliases {
            Some(v) => pairs_view(v@),
            None => seq![],
        }
    }
}

/// The merged alias table: the insertions that built it, in order.
pub struct AliasTable {
    entries: Vec<(String, String)>,
}

impl View for AliasTable {
    type V = Seq<(Seq<char>, Seq<char>)>;

    closed spec fn view(&self) -> Seq<(Seq<char>, Seq<char>)> {
        pairs_view(self.entries@)
    }
}

/// The built-in aliases.
pub fn default_aliases() -> (r: Vec<(String, String)>)
    ensures
        pairs_view(r@) == builtin_entries(),
{
    let r = vec![
        (String::from_str("tokyo"), String::from_str("Asia/Tokyo")),
        (String::from_str("dallas"), String::from_str("America/Chicago")),
        (String::from_str("california"), String::from_str("America/Los_Angeles")),
        (String::from_str("losangeles"), String::from_str("America/Los_Angeles")),
        (String::from_str("los_angeles"), String::from_str("America/Los_Angeles")),
        (String::from_str("la"), String::from_str("America/Los_Angeles")),
        (String::from_str("newyork"), String::from_str("America/New_York")),
        (String::from_str("new_york"), String::from_str("America/New_York")),
        (String::from_str("ny"), String::from_str("America/New_York")),
    ];
    assert(pairs_view(r@) =~= builtin_entries());
    r
}

/// Builds the merged alias table: the built-in aliases, overlaid with the
/// configuration's aliases (keys case-folded, user entries winning).
pub fn alias_map(config: &Config) -> (r: AliasTable)
    ensures
        r@ == merged_entries(config.alias_pairs()),
{
    let mut entries = default_aliases();
    match &config.aliases {
        Some(user) => {
            let mut i: usize = 0;
            while i < user.len()
                invariant
                    i <= user.len(),
                    pairs_view(entries@) == builtin_entries() + folded_keys(
                        pairs_view(user@).take(i as int),
                    ),
                decreases user.len() - i,
            {
                let key = ascii_lowercase(user[i].0.as_str());
                let value = user[i].1.clone();
                let ghost before = entries@;
                entries.push((key, value));
                assert(entries@ =~= before.push((key, value)));
                assert(pairs_view(entries@) =~= pairs_view(before).push((key@, value@)));
                assert(pairs_view(user@).take(i + 1) =~= pairs_view(user@).take(i as int).push(
                    pairs_view(user@)[i as int],
                ));
                assert(pairs_view(entries@) =~= builtin_entries() + folded_keys(
                    pairs_view(user@).take(i + 1),
                ));
                i = i + 1;
            }
            assert(pairs_view(user@).take(user.len() as int) =~= pairs_view(user@));
        },
        None => {
            assert(folded_keys(seq![]) =~= seq![]);
            assert(pairs_view(entries@) =~= builtin_entries() + folded_keys(seq![]));
        },
    }
    AliasTable { entries }
}

/// If `raw` is an alias (in any ASCII case), the canonical zone it names;
/// otherwise none, and the caller may try `raw` as a canonical name.
pub fn normalize_zone_name(raw: &str, table: &AliasTable) -> (r: Option<String>)
    ensures
        opt_view(r) == resolve_alias(table@, raw@),
{
    let key = ascii_lowercase(raw);
    let ghost v = table@;
    let mut i: usize = table.entries.len();
    assert(v.subrange(0, i as int) =~= v);
    while i > 0
        invariant
            i <= table.entries.len(),
            v == table@,
            key@ == fold_case(raw@),
            lookup(v, key@) == lookup(v.subrange(0, i as int), key@),
        decreases i,
    {
        assert(v.subrange(0, i as int).drop_last() =~= v.subrange(0, i - 1));
        i = i - 1;
        assert(v[i as int] == (table.entries@[i as int].0@, table.entries@[i as int].1@));
        assert(v.subrange(0, i + 1).last() == v[i as int]);
        if table.entries[i].0 == key {
            let found = table.entries[i].1.clone();
            assert(lookup(v.subrange(0, i + 1), key@) == Some(found@));
            return Some(found);
        }
    }
    None
}


/// The insertion at `i` is replaced by a later insertion of the same key.
pub open spec fn is_replaced(entries: Seq<(Seq<char>, Seq<char>)>, i: int) -> bool {
    exists|l: int| i < l < entries.len() && #[trigger] entries[l].0 == entries[i].0
}

impl AliasTable {
    fn replaced_later(&self, i: usize) -> (r: bool)
        requires
            i < self@.len(),
        ensures
            r == is_replaced(self@, i as int),
    {
        let n = self.entries.len();
        let mut l: usize = i + 1;
        while l < n
            invariant
                i < l <= n,
                n == self.entries.len(),
                forall|m: int| i < m < l ==> self@[m].0 != self@[i as int].0,
            decreases n - l,
        {
            if self.entries[l].0 == self.entries[i].0 {
                assert(self@[l as int].0 == self@[i as int].0);
                return true;
            }
            l = l + 1;
        }
        false
    }
}

/// The label for a canonical zone: the lexicographically smallest alias
/// that names it in the merged table, or none if no alias names it.
pub fn alias_for_canonical(canonical: &str, table: &AliasTable) -> (r: Option<String>)
    ensures
        opt_view(r) == smallest_alias(table@, canonical@),
{
    let c = String::from_str(canonical);
    let ghost v = table@;
    let n = table.entries.len();
    let mut best: Option<String> = None;
    let mut i: usize = 0;
    while i < n
        invariant
            i <= n,
            n == table.entries.len(),
            v == table@,
            c@ == canonical@,
            forall|j: int|
                0 <= j < i && v[j].1 == c@ && !is_replaced(v, j) ==> (best is Some && lex_le(
                    best->0@,
                    #[trigger] v[j].0,
                )),
            best is Some ==> is_alias_of(v, best->0@, c@),
        decreases n - i,
    {
        assert(v[i as int] == (table.entries@[i as int].0@, table.entries@[i as int].1@));
        if table.entries[i].1 == c && !table.replaced_later(i) {
            proof {
                assert forall|l: int| i < l < v.len() implies v[l].0 != v[i as int].0 by {
                    if v[l].0 == v[i as int].0 {
                        assert(is_replaced(v, i as int));
                    }
                }
                lemma_lookup_last(v, i as int);
            }
            let key = &table.entries[i].0;
            match &best {
                None => {
                    best = Some(key.clone());
                },
                Some(b) => {
                    if lex_less(key.as_str(), b.as_str()) {
                        let ghost old_best = b@;
                        best = Some(key.clone());
                        proof {
                            assert forall|j: int|
                                0 <= j < i + 1 && v[j].1 == c@ && !is_replaced(v, j) implies lex_le(
                                best->0@,
                                #[trigger] v[j].0,
                            ) by {
                                if j < i && v[j].0 != old_best {
                                    lemma_lex_transitive(key@, old_best, v[j].0);
                                }
                            }
                        }
                    } else {
                        proof {
                            lemma_lex_total(key@, b@);
                        }
                    }
                },
            }
        }
        i = i + 1;
    }
    proof {
        if best is Some {
            let b = best->0@;
            assert forall|k: Seq<char>| #[trigger] is_alias_of(v, k, c@) implies lex_le(b, k) by {
                lemma_lookup_found(v, k);
                let j = choose|j: int|
                    0 <= j < v.len() && v[j].0 == k && Some(v[j].1) == lookup(v, k) && forall|l: int|
                        j < l < v.len() ==> v[l].0 != k;
                if is_replaced(v, j) {
                    let l = choose|l: int| j < l < v.len() && #[trigger] v[l].0 == v[j].0;
                    assert(v[l].0 == k);
                }
            }
            assert(is_smallest_alias(v, b, canonical@));
            let k2 = choose|k: Seq<char>| is_smallest_alias(v, k, canonical@);
            assert(lex_le(k2, b));
            if k2 != b {
                lemma_lex_antisymmetric(k2, b);
            }
        } else {
            if exists|k: Seq<char>| is_smallest_alias(v, k, canonical@) {
                let k = choose|k: Seq<char>| is_smallest_alias(v, k, canonical@);
                lemma_lookup_found(v, k);
                let j = choose|j: int|
                    0 <= j < v.len() && v[j].0 == k && Some(v[j].1) == lookup(v, k) && forall|l: int|
                        j < l < v.len() ==> v[l].0 != k;
                if is_replaced(v, j) {
                    let l = choose|l: int| j < l < v.len() && #[trigger] v[l].0 == v[j].0;
                    assert(v[l].0 == k);
                }
                assert(v[j].1 == c@);
            }
        }
    }
    best
}


/// A key inserted into the table resolves to some value.
pub proof fn lemma_lookup_present(entries: Seq<(Seq<char>, Seq<char>)>, i: int)
    requires
        0 <= i < entries.len(),
    ensures
        lookup(entries, entries[i].0) is Some,
    decreases entries.len(),
{
    if entries.last().0 != entries[i].0 {
        lemma_lookup_present(entries.drop_last(), i);
    }
}

/// Alias resolution ignores ASCII case: two names that differ only in the
/// case of ASCII letters resolve to the same canonical zone, and a name
/// whose case-folded form is a key of the table always resolves.
pub proof fn lemma_resolution_ignores_case(
    entries: Seq<(Seq<char>, Seq<char>)>,
    a: Seq<char>,
    b: Seq<char>,
)
    requires
        fold_case(a) == fold_case(b),
    ensures
        resolve_alias(entries, a) == resolve_alias(entries, b),
        (exists|i: int| 0 <= i < entries.len() && entries[i].0 == fold_case(a)) ==> resolve_alias(
            entries,
            b,
        ) is Some,
{
    if exists|i: int| 0 <= i < entries.len() && entries[i].0 == fold_case(a) {
        let i = choose|i: int| 0 <= i < entries.len() && entries[i].0 == fold_case(a);
        lemma_lookup_present(entries, i);
    }
}

/// The label chosen for a canonical zone names it, and no other alias that
/// names it comes before it in lexicographic order; without a label, no
/// alias names it. The choice depends on the table and the zone alone.
pub proof fn lemma_label_is_least_alias(entries: Seq<(Seq<char>, Seq<char>)>, canonical: Seq<char>)
    ensures
        smallest_alias(entries, canonical) matches Some(k) ==> {
            &&& is_alias_of(entries, k, canonical)
            &&& forall|k2: Seq<char>| is_alias_of(entries, k2, canonical) ==> !lex_lt(k2, k)
        },
        smallest_alias(entries, canonical) is None ==> forall|k: Seq<char>|
            !#[trigger] is_alias_of(entries, k, canonical),
{
    assert forall|k: Seq<char>| #[trigger] is_alias_of(entries, k, canonical) implies smallest_alias(
        entries,
        canonical,
    ) is Some by {
        lemma_named_zone_has_label(entries, canonical, k);
    }
    if let Some(k) = smallest_alias(entries, canonical) {
        assert forall|k2: Seq<char>| is_alias_of(entries, k2, canonical) implies !lex_lt(k2, k) by {
            assert(lex_le(k, k2));
            if k != k2 {
                lemma_lex_antisymmetric(k, k2);
            } else {
                lemma_lex_irreflexive(k);
            }
        }
    }
}

pub proof fn lemma_fold_char_idempotent(c: char)
    ensures
        fold_char(fold_char(c)) == fold_char(c),
{
    if 'A' <= c && c <= 'Z' {
        let d = ((c as u32) + 32) as char;
        assert(d as u32 == (c as u32) + 32);
        assert(!('A' <= d && d <= 'Z'));
    }
}

pub proof fn lemma_fold_case_idempotent(s: Seq<char>)
    ensures
        fold_case(fold_case(s)) == fold_case(s),
{
    assert forall|i: int| 0 <= i < s.len() implies fold_case(fold_case(s))[i] == fold_case(s)[i] by {
        lemma_fold_char_idempotent(s[i]);
    }
    assert(fold_case(fold_case(s)) =~= fold_case(s));
}

/// Text with no ASCII capital letter is its own case folding.
pub proof fn lemma_fold_case_of_lowercase(s: Seq<char>)
    requires
        forall|j: int| 0 <= j < s.len() ==> !('A' <= #[trigger] s[j] && s[j] <= 'Z'),
    ensures
        fold_case(s) == s,
{
    assert(fold_case(s) =~= s);
}

/// The built-in keys are written in lower case.
pub proof fn lemma_builtin_keys_folded(i: int)
    requires
        0 <= i < builtin_entries().len(),
    ensures
        fold_case(builtin_entries()[i].0) == builtin_entries()[i].0,
{
    reveal_strlit("tokyo");
    reveal_strlit("dallas");
    reveal_strlit("california");
    reveal_strlit("losangeles");
    reveal_strlit("los_angeles");
    reveal_strlit("la");
    reveal_strlit("newyork");
    reveal_strlit("new_york");
    reveal_strlit("ny");
    lemma_fold_case_of_lowercase(builtin_entries()[i].0);
}

/// Every key of the merged table resolves, to the one canonical zone that
/// the table holds under it.
pub proof fn lemma_merged_keys_resolve(user: Seq<(Seq<char>, Seq<char>)>, i: int)
    requires
        0 <= i < merged_entries(user).len(),
    ensures
        resolve_alias(merged_entries(user), merged_entries(user)[i].0) is Some,
        resolve_alias(merged_entries(user), merged_entries(user)[i].0) == lookup(
            merged_entries(user),
            merged_entries(user)[i].0,
        ),
{
    let m = merged_entries(user);
    let k = builtin_entries().len();
    if i < k {
        assert(m[i] == builtin_entries()[i]);
        lemma_builtin_keys_folded(i);
    } else {
        assert(m[i] == folded_keys(user)[i - k]);
        lemma_fold_case_idempotent(user[i - k].0);
    }
    lemma_lookup_present(m, i);
}

/// Among the keys `keys`, one that names `canonical` and comes first in
/// lexicographic order among those that do.
proof fn lemma_least_among(
    entries: Seq<(Seq<char>, Seq<char>)>,
    canonical: Seq<char>,
    keys: Seq<Seq<char>>,
)
    requires
        exists|j: int| 0 <= j < keys.len() && is_alias_of(entries, #[trigger] keys[j], canonical),
    ensures
        exists|k: Seq<char>|
            is_alias_of(entries, k, canonical) && forall|j: int|
                0 <= j < keys.len() && is_alias_of(entries, #[trigger] keys[j], canonical) ==> lex_le(
                    k,
                    keys[j],
                ),
    decreases keys.len(),
{
    let last = keys.last();
    let init = keys.drop_last();
    if exists|j: int| 0 <= j < init.len() && is_alias_of(entries, #[trigger] init[j], canonical) {
        lemma_least_among(entries, canonical, init);
        let k = choose|k: Seq<char>|
            is_alias_of(entries, k, canonical) && forall|j: int|
                0 <= j < init.len() && is_alias_of(entries, #[trigger] init[j], canonical) ==> lex_le(
                    k,
                    init[j],
                );
        if is_alias_of(entries, last, canonical) && lex_lt(last, k) {
            assert forall|j: int|
                0 <= j < keys.len() && is_alias_of(entries, #[trigger] keys[j], canonical) implies lex_le(
                last,
                keys[j],
            ) by {
                if j < init.len() {
                    assert(init[j] == keys[j]);
                    if k != keys[j] {
                        lemma_lex_transitive(last, k, keys[j]);
                    }
                }
            }
        } else {
            assert forall|j: int|
                0 <= j < keys.len() && is_alias_of(entries, #[trigger] keys[j], canonical) implies lex_le(
                k,
                keys[j],
            ) by {
                if j < init.len() {
                    assert(init[j] == keys[j]);
                } else {
                    lemma_lex_total(k, last);
                }
            }
        }
    } else {
        assert forall|j: int|
            0 <= j < keys.len() && is_alias_of(entries, #[trigger] keys[j], canonical) implies lex_le(
            last,
            keys[j],
        ) by {
            if j < init.len() {
                assert(init[j] == keys[j]);
            }
        }
        let j = choose|j: int| 0 <= j < keys.len() && is_alias_of(entries, #[trigger] keys[j], canonical);
        if j < init.len() {
            assert(init[j] == keys[j]);
        }
        assert(is_alias_of(entries, keys[keys.len() - 1], canonical));
    }
}

/// A zone that some alias names always has a label: the smallest such
/// alias exists.
pub proof fn lemma_named_zone_has_label(entries: Seq<(Seq<char>, Seq<char>)>, canonical: Seq<char>, key: Seq<char>)
    requires
        is_alias_of(entries, key, canonical),
    ensures
        smallest_alias(entries, canonical) is Some,
{
    let keys = entries.map_values(|e: (Seq<char>, Seq<char>)| e.0);
    lemma_lookup_found(entries, key);
    let j0 = choose|j: int|
        0 <= j < entries.len() && entries[j].0 == key && Some(entries[j].1) == lookup(entries, key)
            && forall|l: int| j < l < entries.len() ==> entries[l].0 != key;
    assert(keys[j0] == key);
    lemma_least_among(entries, canonical, keys);
    let k = choose|k: Seq<char>|
        is_alias_of(entries, k, canonical) && forall|j: int|
            0 <= j < keys.len() && is_alias_of(entries, #[trigger] keys[j], canonical) ==> lex_le(k, keys[j]);
    assert forall|k2: Seq<char>| #[trigger] is_alias_of(entries, k2, canonical) implies lex_le(k, k2) by {
        lemma_lookup_found(entries, k2);
        let j = choose|j: int|
            0 <= j < entries.len() && entries[j].0 == k2 && Some(entries[j].1) == lookup(entries, k2)
                && forall|l: int| j < l < entries.len() ==> entries[l].0 != k2;
        assert(keys[j] == k2);
    }
    assert(is_smallest_alias(entries, k, canonical));
}

} // verus!
