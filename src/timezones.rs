use crate::timezone_impl::Tz;
use vstd::prelude::*;

verus! {

#[verifier::external_type_specification]
#[verifier::external_body]
#[verifier::reject_recursive_types(K)]
#[verifier::reject_recursive_types(V)]
pub struct ExPhfMap<K: 'static, V: 'static>(phf::Map<K, V>);

/// The zones that a lookup by name finds in a table of canonical zones.
pub uninterp spec fn zone_table(m: phf::Map<&'static str, &'static Tz>) -> Map<Seq<char>, &'static Tz>;

/// The entries of a table of canonical zones, in the table's stored order.
pub uninterp spec fn zone_entries(m: phf::Map<&'static str, &'static Tz>) -> Seq<(Seq<char>, &'static Tz)>;

/// The lists of zones that a lookup by name finds in a table of aliases.
pub uninterp spec fn alias_table(m: phf::Map<&'static str, &'static [&'static Tz]>) -> Map<
    Seq<char>,
    Seq<&'static Tz>,
>;

/// The entries of a table of aliases, in the table's stored order.
pub uninterp spec fn alias_entries(m: phf::Map<&'static str, &'static [&'static Tz]>) -> Seq<
    (Seq<char>, Seq<&'static Tz>),
>;

/// Relies on `phf::Map::is_empty`: whether the table of canonical zones stores
/// no entry.
#[verifier::external_body]
fn zones_is_empty(m: &phf::Map<&'static str, &'static Tz>) -> (r: bool)
    ensures
        r == (zone_entries(*m).len() == 0),
{
    m.is_empty()
}

/// Relies on `phf::Map::is_empty`: whether the table of aliases stores no
/// entry.
#[verifier::external_body]
fn aliases_is_empty(m: &phf::Map<&'static str, &'static [&'static Tz]>) -> (r: bool)
    ensures
        r == (alias_entries(*m).len() == 0),
{
    m.is_empty()
}

/// Relies on `phf::Map::get`: it finds the zone stored under `name`, if any,
/// and what it finds is one of the stored entries.
#[verifier::external_body]
fn lookup_zone(m: &phf::Map<&'static str, &'static Tz>, name: &str) -> (r: Option<&'static Tz>)
    requires
        zone_entries(*m).len() > 0,
    ensures
        match r {
            Some(z) => {
                &&& zone_table(*m).contains_key(name@)
                &&& zone_table(*m)[name@] == z
                &&& exists|i: int|
                    0 <= i < zone_entries(*m).len() && #[trigger] zone_entries(*m)[i] == (name@, z)
            },
            None => !zone_table(*m).contains_key(name@),
        },
{
    m.get(name).map(|z| *z)
}

/// Relies on `phf::Map::get`: it finds the list of zones stored under `name`,
/// if any, and what it finds is one of the stored entries.
#[verifier::external_body]
fn lookup_aliases(m: &phf::Map<&'static str, &'static [&'static Tz]>, name: &str) -> (r: Option<
    &'static [&'static Tz],
>)
    requires
        alias_entries(*m).len() > 0,
    ensures
        match r {
            Some(l) => {
                &&& alias_table(*m).contains_key(name@)
                &&& alias_table(*m)[name@] == l@
                &&& exists|i: int|
                    0 <= i < alias_entries(*m).len() && #[trigger] alias_entries(*m)[i] == (name@, l@)
            },
            None => !alias_table(*m).contains_key(name@),
        },
{
    m.get(name).map(|l| *l)
}

/// Relies on `phf::Map::entries`: it hands out every stored entry, in the
/// table's fixed order.
#[verifier::external_body]
fn list_entries(m: &phf::Map<&'static str, &'static Tz>) -> (r: Vec<(&'static str, &'static Tz)>)
    ensures
        r@.len() == zone_entries(*m).len(),
        forall|i: int|
            0 <= i < r@.len() ==> (#[trigger] r@[i]).0@ == zone_entries(*m)[i].0 && r@[i].1
                == zone_entries(*m)[i].1,
{
    m.entries().map(|(k, v)| (*k, *v)).collect()
}

/// `needle` occurs in `haystack` as a contiguous run of characters.
pub open spec fn contains_substring(haystack: Seq<char>, needle: Seq<char>) -> bool {
    exists|i: int|
        0 <= i && i + needle.len() <= haystack.len() && #[trigger] haystack.subrange(
            i,
            i + needle.len(),
        ) == needle
}

/// The characters of `s`, in order.
fn chars_of(s: &str) -> (r: Vec<char>)
    ensures
        r@ == s@,
{
    let len = s.unicode_len();
    let mut out: Vec<char> = Vec::new();
    let mut i: usize = 0;
    while i < len
        invariant
            len == s@.len(),
            0 <= i <= len,
            out@ == s@.subrange(0, i as int),
        decreases len - i,
    {
        out.push(s.get_char(i));
        i = i + 1;
        assert(out@ =~= s@.subrange(0, i as int));
    }
    assert(out@ =~= s@);
    out
}

/// Whether `needle` occurs in `haystack`.
fn str_contains(haystack: &str, needle: &str) -> (r: bool)
    ensures
        r == contains_substring(haystack@, needle@),
{
    let h = chars_of(haystack);
    let n = chars_of(needle);
    if n.len() > h.len() {
        return false;
    }
    let last = h.len() - n.len();
    let mut i: usize = 0;
    while i <= last
        invariant
            last == h@.len() - n@.len(),
            h@.len() <= usize::MAX,
            i <= last + 1,
            h@ == haystack@,
            n@ == needle@,
            n@.len() <= h@.len(),
            forall|k: int| 0 <= k < i ==> #[trigger] h@.subrange(k, k + n@.len()) != n@,
        decreases h@.len() - i,
    {
        let mut j: usize = 0;
        let mut same = true;
        while j < n.len() && same
            invariant
                i + n@.len() <= h@.len(),
                h@.len() <= usize::MAX,
                0 <= j <= n@.len(),
                same ==> forall|m: int| 0 <= m < j ==> h@[i + m] == n@[m],
                !same ==> exists|m: int| 0 <= m < n@.len() && h@[i + m] != n@[m],
            decreases n@.len() - j + (if same { 1int } else { 0int }),
        {
            if h[i + j] != n[j] {
                same = false;
            } else {
                j = j + 1;
            }
        }
        if same {
            assert(h@.subrange(i as int, i + n@.len()) =~= n@);
            return true;
        }
        proof {
            let m = choose|m: int| 0 <= m < n@.len() && h@[i + m] != n@[m];
            assert(h@.subrange(i as int, i + n@.len())[m] != n@[m]);
        }
        i = i + 1;
    }
    assert forall|k: int| 0 <= k && k + needle@.len() <= haystack@.len() implies #[trigger] haystack@.subrange(
        k,
        k + needle@.len(),
    ) != needle@ by {
        assert(k < i);
    }
    false
}

/// The zones of `entries` whose name holds `name`, in order.
pub open spec fn zones_matching(entries: Seq<(Seq<char>, &'static Tz)>, name: Seq<char>) -> Seq<
    &'static Tz,
>
    decreases entries.len(),
{
    if entries.len() == 0 {
        Seq::empty()
    } else {
        let rest = zones_matching(entries.drop_last(), name);
        if contains_substring(entries.last().0, name) {
            rest.push(entries.last().1)
        } else {
            rest
        }
    }
}

/// The tables that zones are looked up in: the canonical zones by identifier,
/// and alias names (such as platform-specific ones) that stand for one or more
/// canonical zones.
pub struct ZoneRegistry {
    pub timezones: &'static phf::Map<&'static str, &'static Tz>,
    pub win_timezones: &'static phf::Map<&'static str, &'static [&'static Tz]>,
}

impl ZoneRegistry {
    /// The alias table holds at least one entry, so it can be looked up.
    pub open spec fn has_aliases(&self) -> bool {
        alias_entries(*self.win_timezones).len() > 0
    }

    /// The canonical table holds at least one entry, so it can be looked up.
    pub open spec fn has_zones(&self) -> bool {
        zone_entries(*self.timezones).len() > 0
    }

    /// The tables were built as intended: a lookup finds every stored
    /// canonical entry and finds nothing else, every canonical zone is stored
    /// under its own identifier, and no alias shadows a canonical identifier.
    pub open spec fn wf(&self) -> bool {
        let entries = zone_entries(*self.timezones);
        let table = zone_table(*self.timezones);
        &&& forall|i: int|
            0 <= i < entries.len() ==> {
                let k = (#[trigger] entries[i]).0;
                &&& table.contains_key(k)
                &&& table[k] == entries[i].1
                &&& entries[i].1.timespans().name@ == k
                &&& !alias_table(*self.win_timezones).contains_key(k)
            }
        &&& forall|k: Seq<char>|
            #[trigger] table.contains_key(k) ==> exists|i: int|
                0 <= i < entries.len() && #[trigger] entries[i] == (k, table[k])
    }

    /// What an exact lookup of `name` gives: the first zone of a matching
    /// alias, else the canonical zone of that identifier.
    pub open spec fn lookup(&self, name: Seq<char>) -> Option<&'static Tz> {
        let aliases = alias_table(*self.win_timezones);
        if self.has_aliases() && aliases.contains_key(name) {
            if aliases[name].len() > 0 {
                Some(aliases[name][0])
            } else {
                None
            }
        } else if self.has_zones() {
            zone_table(*self.timezones).get(name)
        } else {
            None
        }
    }

    /// What a search for `name` gives: the zones of a matching alias, else
    /// every canonical zone whose identifier holds `name`.
    pub open spec fn search(&self, name: Seq<char>) -> Seq<&'static Tz> {
        let aliases = alias_table(*self.win_timezones);
        if self.has_aliases() && aliases.contains_key(name) {
            aliases[name]
        } else {
            zones_matching(zone_entries(*self.timezones), name)
        }
    }
}

/// Zones that `name` names: the zones of the alias `name` if there is one,
/// else every canonical zone whose identifier contains `name`.
pub fn find_by_name(registry: &ZoneRegistry, name: &str) -> (r: Vec<&'static Tz>)
    ensures
        r@ == registry.search(name@),
{
    let aliased = if aliases_is_empty(registry.win_timezones) {
        None
    } else {
        lookup_aliases(registry.win_timezones, name)
    };
    match aliased {
        Some(list) => {
            let mut out: Vec<&'static Tz> = Vec::new();
            let mut i: usize = 0;
            while i < list.len()
                invariant
                    0 <= i <= list@.len(),
                    out@ == list@.subrange(0, i as int),
                decreases list@.len() - i,
            {
                out.push(list[i]);
                i = i + 1;
                assert(out@ =~= list@.subrange(0, i as int));
            }
            assert(out@ =~= list@);
            out
        },
        None => {
            let entries = list_entries(registry.timezones);
            let ghost all = zone_entries(*registry.timezones);
            let mut out: Vec<&'static Tz> = Vec::new();
            let mut i: usize = 0;
            while i < entries.len()
                invariant
                    0 <= i <= entries@.len(),
                    entries@.len() == all.len(),
                    forall|j: int|
                        0 <= j < entries@.len() ==> (#[trigger] entries@[j]).0@ == all[j].0
                            && entries@[j].1 == all[j].1,
                    out@ == zones_matching(all.take(i as int), name@),
                decreases entries@.len() - i,
            {
                let (key, zone) = entries[i];
                let hit = str_contains(key, name);
                proof {
                    let next = all.take(i + 1);
                    assert(next.drop_last() =~= all.take(i as int));
                    assert(next.last() == all[i as int]);
                }
                if hit {
                    out.push(zone);
                }
                i = i + 1;
            }
            assert(all.take(all.len() as int) =~= all);
            out
        },
    }
}

/// Every canonical zone, in the table's stored order.
pub fn iter(registry: &ZoneRegistry) -> (r: Vec<&'static Tz>)
    ensures
        r@ == zone_entries(*registry.timezones).map_values(|e: (Seq<char>, &'static Tz)| e.1),
{
    let entries = list_entries(registry.timezones);
    let ghost all = zone_entries(*registry.timezones);
    let mut out: Vec<&'static Tz> = Vec::new();
    let mut i: usize = 0;
    while i < entries.len()
        invariant
            0 <= i <= entries@.len(),
            entries@.len() == all.len(),
            forall|j: int|
                0 <= j < entries@.len() ==> (#[trigger] entries@[j]).0@ == all[j].0 && entries@[j].1
                    == all[j].1,
            out@ == all.take(i as int).map_values(|e: (Seq<char>, &'static Tz)| e.1),
        decreases entries@.len() - i,
    {
        out.push(entries[i].1);
        i = i + 1;
        assert(out@ =~= all.take(i as int).map_values(|e: (Seq<char>, &'static Tz)| e.1));
    }
    assert(all.take(all.len() as int) =~= all);
    out
}

/// The zone that `name` names exactly: the first zone of the alias `name` if
/// there is one, else the canonical zone with that identifier.
pub fn get_by_name(registry: &ZoneRegistry, name: &str) -> (r: Option<&'static Tz>)
    ensures
        r == registry.lookup(name@),
{
    let aliased = if aliases_is_empty(registry.win_timezones) {
        None
    } else {
        lookup_aliases(registry.win_timezones, name)
    };
    match aliased {
        Some(list) => {
            if list.len() > 0 {
                Some(list[0])
            } else {
                None
            }
        },
        None => {
            if zones_is_empty(registry.timezones) {
                None
            } else {
                lookup_zone(registry.timezones, name)
            }
        },
    }
}

/// Looking any zone that the registry lists up by its own identifier gives
/// that zone back.
pub proof fn lemma_registry_round_trip(registry: &ZoneRegistry, i: int)
    requires
        registry.wf(),
        0 <= i < zone_entries(*registry.timezones).len(),
    ensures
        ({
            let z = zone_entries(*registry.timezones)[i].1;
            registry.lookup(z.timespans().name@) == Some(z)
        }),
{
    let e = zone_entries(*registry.timezones)[i];
    assert(zone_table(*registry.timezones).contains_key(e.0));
}

proof fn lemma_substring_of_itself(s: Seq<char>)
    ensures
        contains_substring(s, s),
{
    let i: int = 0;
    assert(s.subrange(i, i + s.len()) =~= s);
}

proof fn lemma_matching_holds(entries: Seq<(Seq<char>, &'static Tz)>, name: Seq<char>, i: int)
    requires
        0 <= i < entries.len(),
        contains_substring(entries[i].0, name),
    ensures
        zones_matching(entries, name).contains(entries[i].1),
    decreases entries.len(),
{
    let rest = zones_matching(entries.drop_last(), name);
    if i == entries.len() - 1 {
        assert(zones_matching(entries, name) == rest.push(entries[i].1));
        assert(rest.push(entries[i].1)[rest.len() as int] == entries[i].1);
    } else {
        assert(entries.drop_last()[i] == entries[i]);
        lemma_matching_holds(entries.drop_last(), name, i);
        let j = choose|j: int| 0 <= j < rest.len() && rest[j] == entries[i].1;
        if contains_substring(entries.last().0, name) {
            assert(rest.push(entries.last().1)[j] == entries[i].1);
        }
    }
}

/// A zone that an exact lookup of `name` finds is among the zones that a
/// search for `name` gives.
pub proof fn lemma_exact_hit_in_search(registry: &ZoneRegistry, name: Seq<char>)
    requires
        registry.wf(),
        registry.lookup(name) is Some,
    ensures
        registry.search(name).contains(registry.lookup(name)->Some_0),
{
    let z = registry.lookup(name)->Some_0;
    let aliases = alias_table(*registry.win_timezones);
    if registry.has_aliases() && aliases.contains_key(name) {
        assert(registry.search(name)[0] == z);
    } else {
        let entries = zone_entries(*registry.timezones);
        let table = zone_table(*registry.timezones);
        assert(table.contains_key(name));
        let i = choose|i: int| 0 <= i < entries.len() && #[trigger] entries[i] == (name, table[name]);
        lemma_substring_of_itself(name);
        lemma_matching_holds(entries, name, i);
    }
}

} // verus!
