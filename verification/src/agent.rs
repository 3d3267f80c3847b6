use vstd::prelude::*;

use crate::key::Key;
use crate::yaml::{
    entries_view, lemma_entries_view, lemma_map_find_bound, map_find, map_get, map_insert,
    map_remove, yaml_view, Yaml, YamlMap, YamlV,
};

verus! {

/// The proxy core the keymap is read for.
#[derive(Clone, Copy, Debug, PartialEq, Eq, Structural)]
pub enum CoreType {
    Mihomo,
    Singbox,
}

/// Why a section of the keymap could not be taken.
#[derive(Debug, PartialEq, Eq)]
pub enum SectionError {
    /// The keymap has no such section.
    Missing(String),
    /// The section is not a mapping.
    NotMapping(String),
}

/// What taking key `key` out of a mapping yields: its value when that is a mapping.
pub open spec fn taken_mapping(m: Seq<(YamlV, YamlV)>, key: Seq<char>) -> Option<Seq<(YamlV, YamlV)>> {
    match map_get(m, YamlV::Str(key)) {
        Some(YamlV::Dict(inner)) => Some(inner),
        _ => None,
    }
}

/// Removes `key` from the mapping and returns its value if that is a mapping.
pub fn take_mapping(value: &mut YamlMap, key: &str) -> (r: Option<YamlMap>)
    ensures
        final(value)@ == map_remove(old(value)@, YamlV::Str(key@)),
        match r {
            Some(m) => taken_mapping(old(value)@, key@) == Some(m@),
            None => taken_mapping(old(value)@, key@) is None,
        },
{
    match value.remove(key) {
        Some(Yaml::Mapping(m)) => Some(m),
        _ => None,
    }
}

/// Takes the section `idx` out of the keymap: an error when it is missing or
/// is not a mapping.
pub fn get(value: &mut YamlMap, idx: &str) -> (r: Result<YamlMap, SectionError>)
    ensures
        final(value)@ == map_remove(old(value)@, YamlV::Str(idx@)),
        match map_get(old(value)@, YamlV::Str(idx@)) {
            None => r matches Err(SectionError::Missing(s)) && s@ == idx@,
            Some(YamlV::Dict(inner)) => r matches Ok(m) && m@ == inner,
            Some(_) => r matches Err(SectionError::NotMapping(s)) && s@ == idx@,
        },
{
    match value.remove(idx) {
        None => Err(SectionError::Missing(crate::text::text_to_string(idx))),
        Some(Yaml::Mapping(m)) => Ok(m),
        Some(_) => Err(SectionError::NotMapping(crate::text::text_to_string(idx))),
    }
}

pub open spec fn opt_map_view(r: Option<YamlMap>) -> Option<Seq<(YamlV, YamlV)>> {
    match r {
        Some(m) => Some(m@),
        None => None,
    }
}

/// The section of `core` in a keymap (`mihomo` is taken out before `sing-box`).
pub open spec fn core_section(m: Seq<(YamlV, YamlV)>, core: CoreType) -> Option<Seq<(YamlV, YamlV)>> {
    match core {
        CoreType::Mihomo => taken_mapping(m, "mihomo"@),
        CoreType::Singbox => taken_mapping(map_remove(m, YamlV::Str("mihomo"@)), "sing-box"@),
    }
}

/// Splits a keymap into its common part and the section of the given core:
/// both core sections (`mihomo`, `sing-box`) are taken out, and the one of
/// `core` is returned beside what remains.
pub fn split_sections(value: &mut YamlMap, core: CoreType) -> (r: (YamlMap, Option<YamlMap>))
    ensures
        final(value)@ == map_remove(map_remove(old(value)@, YamlV::Str("mihomo"@)), YamlV::Str("sing-box"@)),
        r.0@ == final(value)@,
        opt_map_view(r.1) == core_section(old(value)@, core),
{
    let mihomo = take_mapping(value, "mihomo");
    let singbox = take_mapping(value, "sing-box");
    let core_specific = match core {
        CoreType::Mihomo => mihomo,
        CoreType::Singbox => singbox,
    };
    (value.dup(), core_specific)
}

/// Merging `over` into `base`, entry by entry in order: where both hold a
/// mapping under a key, the two are merged; otherwise the entry of `over` is inserted.
pub open spec fn merge_entries(base: Seq<(YamlV, YamlV)>, over: Seq<(YamlV, YamlV)>) -> Seq<(YamlV, YamlV)>
    decreases over,
{
    if over.len() == 0 {
        base
    } else {
        let b = merge_entries(base, over.drop_last());
        let k = over.last().0;
        let v = over.last().1;
        match map_find(b, k, 0) {
            Some(i) => if b[i].1 is Dict && v is Dict {
                proof {
                    assert(decreases_to!(over => over[over.len() - 1]));
                }
                b.update(i, (b[i].0, YamlV::Dict(merge_entries(b[i].1->Dict_0, v->Dict_0))))
            } else {
                map_insert(b, k, v)
            },
            None => map_insert(b, k, v),
        }
    }
}

/// Merges `over` into `base`: nested mappings are merged key by key, other
/// values of `over` replace or extend those of `base`.
pub fn merge_mappings(base: &mut YamlMap, over: &YamlMap)
    ensures
        final(base)@ == merge_entries(old(base)@, over@),
    decreases over,
{
    proof {
        lemma_entries_view(over.entries@);
    }
    let n = over.entries.len();
    let mut j: usize = 0;
    while j < n
        invariant
            n == over.entries@.len(),
            0 <= j <= n,
            entries_view(over.entries@).len() == n,
            forall|t: int|
                0 <= t < n ==> #[trigger] entries_view(over.entries@)[t] == (
                    yaml_view(over.entries@[t].0),
                    yaml_view(over.entries@[t].1),
                ),
            base@ == merge_entries(old(base)@, entries_view(over.entries@).take(j as int)),
        decreases n - j,
    {
        let ghost ov = entries_view(over.entries@);
        let ghost pre = ov.take(j as int);
        let ghost b0 = base@;
        assert(ov.take(j + 1).drop_last() =~= pre);
        assert(ov.take(j + 1).last() == ov[j as int]);
        let k = &over.entries[j].0;
        let v = &over.entries[j].1;
        proof {
            lemma_entries_view(base.entries@);
            lemma_map_find_bound(b0, k@, 0);
        }
        match base.find(k) {
            Some(i) => {
                let both = match (&base.entries[i].1, v) {
                    (Yaml::Mapping(_), Yaml::Mapping(_)) => true,
                    _ => false,
                };
                assert(b0[i as int].1 == yaml_view(base.entries@[i as int].1));
                if both {
                    let (bk, bv) = base.entries.remove(i);
                    match (bv, v) {
                        (Yaml::Mapping(mut bm), Yaml::Mapping(om)) => {
                            assert(decreases_to!(*over => over.entries));
                            assert(decreases_to!(over.entries => over.entries@));
                            assert(decreases_to!(over.entries@ => over.entries@[j as int]));
                            assert(decreases_to!(over.entries@[j as int] => over.entries@[j as int].1));
                            assert(decreases_to!(over.entries@[j as int].1 => over.entries@[j as int].1->Mapping_0));
                            merge_mappings(&mut bm, om);
                            let ghost mid = base.entries@;
                            base.entries.insert(i, (bk, Yaml::Mapping(bm)));
                            proof {
                                lemma_entries_view(base.entries@);
                                assert(base@ =~= b0.update(
                                    i as int,
                                    (b0[i as int].0, YamlV::Dict(merge_entries(b0[i as int].1->Dict_0, yaml_view(*v)->Dict_0))),
                                ));
                            }
                        },
                        _ => {
                            assert(false);
                        },
                    }
                } else {
                    base.insert(k.dup(), v.dup());
                }
            },
            None => {
                base.insert(k.dup(), v.dup());
            },
        }
        j = j + 1;
    }
    assert(entries_view(over.entries@).take(n as int) =~= entries_view(over.entries@));
}

/// The keys that repeat an earlier key, in the order in which the repeats occur.
pub open spec fn repeated_keys(keys: Seq<Key>, n: int) -> Seq<Key>
    decreases n,
{
    if n <= 0 {
        seq![]
    } else if keys.take(n - 1).contains(keys[n - 1]) {
        repeated_keys(keys, n - 1).push(keys[n - 1])
    } else {
        repeated_keys(keys, n - 1)
    }
}

/// The keys of a keymap section that are bound more than once (each repeat
/// listed once per repeat): a later binding overwrites an earlier one.
pub fn duplicate_keys(keys: &Vec<Key>) -> (r: Vec<Key>)
    ensures
        r@ == repeated_keys(keys@, keys@.len() as int),
{
    let mut out: Vec<Key> = Vec::new();
    let mut i: usize = 0;
    while i < keys.len()
        invariant
            0 <= i <= keys@.len(),
            out@ == repeated_keys(keys@, i as int),
        decreases keys@.len() - i,
    {
        let mut j: usize = 0;
        let mut seen = false;
        while j < i
            invariant
                0 <= j <= i < keys@.len(),
                seen == exists|t: int| 0 <= t < j && keys@[t] == keys@[i as int],
            decreases i - j,
        {
            if keys[j] == keys[i] {
                seen = true;
            }
            j = j + 1;
        }
        proof {
            if seen {
                let t = choose|t: int| 0 <= t < i && keys@[t] == keys@[i as int];
                assert(keys@.take(i as int)[t] == keys@[i as int]);
            }
            if keys@.take(i as int).contains(keys@[i as int]) {
                let t = choose|t: int| 0 <= t < i && keys@.take(i as int)[t] == keys@[i as int];
                assert(keys@[t] == keys@[i as int]);
            }
        }
        if seen {
            out.push(keys[i]);
        }
        i = i + 1;
    }
    out
}

/// What a keymap entry binds a key to: an action alone, or an action with a
/// description for the help screen.
pub enum KeyValue<K> {
    Simple(K),
    WithDesc { action: K, desc: String },
}

/// The action of a keymap entry.
pub open spec fn kv_action<K>(v: KeyValue<K>) -> K {
    match v {
        KeyValue::Simple(a) => a,
        KeyValue::WithDesc { action, .. } => action,
    }
}

/// The map that an association list stands for: a later pair for a key
/// replaces an earlier one.
pub open spec fn assoc_map<V>(s: Seq<(Key, V)>) -> Map<Key, V>
    decreases s.len(),
{
    if s.len() == 0 {
        Map::empty()
    } else {
        assoc_map(s.drop_last()).insert(s.last().0, s.last().1)
    }
}

/// No key occurs twice in the list.
pub open spec fn keys_unique<V>(s: Seq<(Key, V)>) -> bool {
    forall|i: int, j: int| 0 <= i < j < s.len() ==> #[trigger] s[i].0 != #[trigger] s[j].0
}

/// Each key of the entries bound to the action of its last entry.
pub open spec fn actions_of<K>(e: Seq<(Key, KeyValue<K>)>) -> Map<Key, K>
    decreases e.len(),
{
    if e.len() == 0 {
        Map::empty()
    } else {
        actions_of(e.drop_last()).insert(e.last().0, kv_action(e.last().1))
    }
}

/// Each key of the entries that carry a description bound to the description
/// of the last such entry; an entry without one leaves an earlier one in place.
pub open spec fn descs_of<K>(e: Seq<(Key, KeyValue<K>)>) -> Map<Key, Seq<char>>
    decreases e.len(),
{
    if e.len() == 0 {
        Map::empty()
    } else {
        match e.last().1 {
            KeyValue::WithDesc { desc, .. } => descs_of(e.drop_last()).insert(e.last().0, desc@),
            KeyValue::Simple(_) => descs_of(e.drop_last()),
        }
    }
}

pub open spec fn desc_pairs_view(s: Seq<(Key, String)>) -> Seq<(Key, Seq<char>)> {
    s.map_values(|p: (Key, String)| (p.0, p.1@))
}

proof fn lemma_assoc_update<V>(s: Seq<(Key, V)>, i: int, x: V)
    requires
        keys_unique(s),
        0 <= i < s.len(),
    ensures
        assoc_map(s.update(i, (s[i].0, x))) == assoc_map(s).insert(s[i].0, x),
    decreases s.len(),
{
    let u = s.update(i, (s[i].0, x));
    if i == s.len() - 1 {
        assert(u.drop_last() =~= s.drop_last());
        assert(assoc_map(u) =~= assoc_map(s).insert(s[i].0, x));
    } else {
        let d = s.drop_last();
        assert(u.drop_last() =~= d.update(i, (d[i].0, x)));
        assert(keys_unique(d));
        lemma_assoc_update(d, i, x);
        assert(s.last().0 != s[i].0);
        assert(assoc_map(u) =~= assoc_map(s).insert(s[i].0, x));
    }
}

proof fn lemma_assoc_absent<V>(s: Seq<(Key, V)>, k: Key)
    requires
        forall|j: int| 0 <= j < s.len() ==> #[trigger] s[j].0 != k,
    ensures
        !assoc_map(s).dom().contains(k),
    decreases s.len(),
{
    if s.len() > 0 {
        let d = s.drop_last();
        assert forall|j: int| 0 <= j < d.len() implies #[trigger] d[j].0 != k by {
            assert(d[j] == s[j]);
        }
        lemma_assoc_absent(d, k);
    }
}

/// Binds `k` to `x` in the list: replaces the pair for `k` if there is one,
/// else appends one.
fn upsert<V>(v: &mut Vec<(Key, V)>, k: Key, x: V)
    requires
        keys_unique(old(v)@),
    ensures
        keys_unique(final(v)@),
        assoc_map(final(v)@) == assoc_map(old(v)@).insert(k, x),
{
    let n = v.len();
    let mut i: usize = 0;
    while i < n
        invariant
            n == v@.len(),
            v@ == old(v)@,
            0 <= i <= n,
            keys_unique(v@),
            forall|j: int| 0 <= j < i ==> #[trigger] v@[j].0 != k,
        decreases n - i,
    {
        if v[i].0 == k {
            proof {
                lemma_assoc_update(v@, i as int, x);
            }
            let ghost prev = v@;
            v.set(i, (k, x));
            proof {
                assert forall|a: int| 0 <= a < v@.len() implies #[trigger] v@[a].0 == prev[a].0 by {}
            }
            return;
        }
        i = i + 1;
    }
    proof {
        lemma_assoc_absent(v@, k);
        assert(v@.push((k, x)).drop_last() =~= v@);
    }
    v.push((k, x));
}

/// Collects the bindings of a keymap section, given its entries read in
/// order: the actions of all entries and the descriptions of those that carry
/// one, each as a list in which no key repeats; a later entry for a key
/// overrides an earlier one.
pub fn extract_keymap_with_descs<K>(entries: Vec<(Key, KeyValue<K>)>) -> (r: (
    Vec<(Key, K)>,
    Vec<(Key, String)>,
))
    ensures
        keys_unique(r.0@),
        keys_unique(desc_pairs_view(r.1@)),
        assoc_map(r.0@) == actions_of(entries@),
        assoc_map(desc_pairs_view(r.1@)) == descs_of(entries@),
{
    let mut agent: Vec<(Key, K)> = Vec::new();
    let mut descs: Vec<(Key, String)> = Vec::new();
    let ghost all = entries@;
    let ghost total = all.len();
    let mut rest = entries;
    proof {
        assert(desc_pairs_view(descs@) =~= Seq::<(Key, Seq<char>)>::empty());
        assert(all.take(0) =~= Seq::<(Key, KeyValue<K>)>::empty());
        assert(rest@ =~= all.subrange(0, total as int));
    }
    while rest.len() > 0
        invariant
            rest@.len() <= total,
            total == all.len(),
            rest@ == all.subrange(total - rest@.len(), total as int),
            keys_unique(agent@),
            keys_unique(desc_pairs_view(descs@)),
            assoc_map(agent@) == actions_of(all.take(total - rest@.len())),
            assoc_map(desc_pairs_view(descs@)) == descs_of(all.take(total - rest@.len())),
        decreases rest@.len(),
    {
        let ghost done = total - rest@.len();
        let ghost before = rest@;
        let (key, value) = rest.remove(0);
        proof {
            assert((key, value) == before[0]);
            assert(all[done] == (key, value));
            assert(all.take(done + 1).drop_last() =~= all.take(done));
            assert(all.take(done + 1).last() == all[done]);
            assert(rest@ =~= all.subrange(total - rest@.len(), total as int));
        }
        match value {
            KeyValue::Simple(action) => {
                upsert(&mut agent, key, action);
            },
            KeyValue::WithDesc { action, desc } => {
                upsert(&mut agent, key, action);
                upsert_desc(&mut descs, key, desc);
            },
        }
    }
    proof {
        assert(all.take(total as int) =~= all);
    }
    (agent, descs)
}

/// `upsert` for descriptions, stated over their text.
fn upsert_desc(v: &mut Vec<(Key, String)>, k: Key, x: String)
    requires
        keys_unique(desc_pairs_view(old(v)@)),
    ensures
        keys_unique(desc_pairs_view(final(v)@)),
        assoc_map(desc_pairs_view(final(v)@)) == assoc_map(desc_pairs_view(old(v)@)).insert(k, x@),
{
    let ghost xv = x@;
    let n = v.len();
    let mut i: usize = 0;
    while i < n
        invariant
            n == v@.len(),
            v@ == old(v)@,
            0 <= i <= n,
            keys_unique(desc_pairs_view(v@)),
            xv == x@,
            forall|j: int| 0 <= j < i ==> #[trigger] v@[j].0 != k,
        decreases n - i,
    {
        if v[i].0 == k {
            let ghost d = desc_pairs_view(v@);
            proof {
                assert(d[i as int].0 == k);
                lemma_assoc_update(d, i as int, xv);
            }
            v.set(i, (k, x));
            proof {
                assert(desc_pairs_view(v@) =~= d.update(i as int, (k, xv)));
                assert forall|a: int| 0 <= a < d.len() implies #[trigger] desc_pairs_view(v@)[a].0 == d[a].0 by {}
            }
            return;
        }
        i = i + 1;
    }
    proof {
        let d = desc_pairs_view(v@);
        assert forall|j: int| 0 <= j < d.len() implies #[trigger] d[j].0 != k by {
            assert(d[j].0 == v@[j].0);
        }
        lemma_assoc_absent(d, k);
        assert(desc_pairs_view(v@.push((k, x))) =~= d.push((k, xv)));
        assert(d.push((k, xv)).drop_last() =~= d);
        assert forall|a: int, b: int| 0 <= a < b < d.push((k, xv)).len() implies #[trigger] d.push((k, xv))[a].0 != #[trigger] d.push((k, xv))[b].0 by {
            if b == d.len() {
                assert(d[a].0 == v@[a].0);
            }
        }
    }
    v.push((k, x));
}

} // verus!
