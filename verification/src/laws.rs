use vstd::prelude::*;

use crate::demo::egg_expects;
use crate::key::KeyCode;
use crate::settings::{move_down, move_up, sel_or_first};
use crate::singbox::{digits_value, duration_text, is_digit};
use crate::template::expand_spec;
use crate::text::{decimal, digit_char};
use crate::agent::merge_entries;
use crate::json::{jget, member_find, member_get, member_set, JsonV};
use crate::singbox::{all_proxies, singbox_spec, tag_proxy, ProviderInput};
use crate::yaml::{lemma_map_find_bound, map_find, map_get, map_insert, map_remove, YamlV};

verus! {

/// No key occurs twice in the entries, as in any YAML mapping.
pub open spec fn keys_unique(m: Seq<(YamlV, YamlV)>) -> bool {
    forall|i: int, j: int| 0 <= i < j < m.len() ==> m[i].0 != m[j].0
}

proof fn lemma_map_find_none(m: Seq<(YamlV, YamlV)>, k: YamlV, i: int)
    requires
        0 <= i,
    ensures
        map_find(m, k, i) is None <==> forall|j: int| i <= j < m.len() ==> m[j].0 != k,
    decreases m.len() - i,
{
    if i < m.len() && m[i].0 != k {
        lemma_map_find_none(m, k, i + 1);
    }
}

proof fn lemma_map_find_first(m: Seq<(YamlV, YamlV)>, k: YamlV, i: int, j: int)
    requires
        0 <= i <= j < m.len(),
        m[j].0 == k,
        forall|x: int| i <= x < j ==> m[x].0 != k,
    ensures
        map_find(m, k, i) == Some(j),
    decreases j - i,
{
    if i < j {
        lemma_map_find_first(m, k, i + 1, j);
    }
}

/// Reading a key just written gives the value written, and writing one key
/// leaves every other key as it was.
pub proof fn law_map_insert_get(m: Seq<(YamlV, YamlV)>, k: YamlV, v: YamlV, k2: YamlV)
    ensures
        map_get(map_insert(m, k, v), k) == Some(v),
        k2 != k ==> map_get(map_insert(m, k, v), k2) == map_get(m, k2),
{
    lemma_map_find_bound(m, k, 0);
    lemma_map_find_bound(m, k2, 0);
    let m2 = map_insert(m, k, v);
    match map_find(m, k, 0) {
        Some(i) => {
            lemma_map_find_none(m, k, 0);
            assert forall|x: int| 0 <= x < i implies m[x].0 != k by {
                if m[x].0 == k {
                    lemma_map_find_first_any(m, k, 0, x);
                }
            }
            lemma_map_find_first(m2, k, 0, i);
            if k2 != k {
                match map_find(m, k2, 0) {
                    Some(j) => {
                        assert forall|x: int| 0 <= x < j implies m2[x].0 != k2 by {
                            if m[x].0 == k2 {
                                lemma_map_find_first_any(m, k2, 0, x);
                            }
                        }
                        lemma_map_find_first(m2, k2, 0, j);
                    },
                    None => {
                        lemma_map_find_none(m, k2, 0);
                        lemma_map_find_none(m2, k2, 0);
                    },
                }
            }
        },
        None => {
            lemma_map_find_none(m, k, 0);
            lemma_map_find_first(m2, k, 0, m.len() as int);
            if k2 != k {
                match map_find(m, k2, 0) {
                    Some(j) => {
                        assert forall|x: int| 0 <= x < j implies m2[x].0 != k2 by {
                            if m[x].0 == k2 {
                                lemma_map_find_first_any(m, k2, 0, x);
                            }
                        }
                        lemma_map_find_first(m2, k2, 0, j);
                    },
                    None => {
                        lemma_map_find_none(m, k2, 0);
                        lemma_map_find_none(m2, k2, 0);
                    },
                }
            }
        },
    }
}

proof fn lemma_map_find_first_any(m: Seq<(YamlV, YamlV)>, k: YamlV, i: int, x: int)
    requires
        0 <= i <= x < m.len(),
        m[x].0 == k,
    ensures
        map_find(m, k, i) matches Some(j) && j <= x,
    decreases x - i,
{
    if i < x && m[i].0 != k {
        lemma_map_find_first_any(m, k, i + 1, x);
    }
}

/// In a mapping without repeated keys, a removed key is gone.
pub proof fn law_map_remove_get(m: Seq<(YamlV, YamlV)>, k: YamlV)
    requires
        keys_unique(m),
    ensures
        map_get(map_remove(m, k), k) is None,
{
    lemma_map_find_bound(m, k, 0);
    let m2 = map_remove(m, k);
    match map_find(m, k, 0) {
        Some(i) => {
            assert forall|j: int| 0 <= j < m2.len() implies m2[j].0 != k by {
                if j == i {
                    assert(m2[j] == m.last());
                    assert(i != m.len() - 1 ==> m[m.len() - 1].0 != k);
                } else {
                    assert(m2[j] == m[j]);
                }
            }
            lemma_map_find_none(m2, k, 0);
        },
        None => {
            lemma_map_find_none(m, k, 0);
        },
    }
}

/// An expanded template always carries the `clashtui` marker, set to null.
pub proof fn law_template_marker(
    tpl: Seq<(YamlV, YamlV)>,
    stem: Seq<char>,
    pairs: Seq<(Seq<char>, Seq<char>)>,
)
    ensures
        expand_spec(tpl, stem, pairs) matches Ok(out) ==> map_get(out, YamlV::Str("clashtui"@)) == Some(
            YamlV::Null,
        ),
{
    match expand_spec(tpl, stem, pairs) {
        Ok(out) => {
            let m = choose|m: Seq<(YamlV, YamlV)>| out == map_insert(m, YamlV::Str("clashtui"@), YamlV::Null);
            assert(exists|m: Seq<(YamlV, YamlV)>| out == map_insert(m, YamlV::Str("clashtui"@), YamlV::Null));
            law_map_insert_get(m, YamlV::Str("clashtui"@), YamlV::Null, YamlV::Null);
        },
        Err(_) => {},
    }
}

proof fn lemma_digit_char(d: int)
    requires
        0 <= d < 10,
    ensures
        is_digit(digit_char(d)),
        (digit_char(d) as u32) - ('0' as u32) == d,
{
}

proof fn lemma_digits_of_decimal(n: nat)
    ensures
        digits_value(decimal(n)) == n,
        decimal(n).len() > 0,
        forall|i: int| 0 <= i < decimal(n).len() ==> #[trigger] is_digit(decimal(n)[i]),
    decreases n,
{
    if n >= 10 {
        lemma_digits_of_decimal(n / 10);
    }
    let d = decimal(n);
    lemma_digit_char((n % 10) as int);
    assert(d.last() == digit_char((n % 10) as int));
    if n < 10 {
        assert(d.drop_last() =~= Seq::<char>::empty());
    } else {
        assert(d.drop_last() =~= decimal(n / 10));
    }
    assert(digits_value(d) == digits_value(d.drop_last()) * 10 + ((d.last() as u32) - ('0' as u32)) as nat);
}

/// What a sing-box duration stands for, in seconds: its number times the unit.
pub open spec fn duration_seconds(t: Seq<char>) -> int {
    let unit: int = if t.last() == 'h' {
        3600
    } else if t.last() == 'm' {
        60
    } else {
        1
    };
    digits_value(t.drop_last()) * unit
}

/// A converted interval stands for exactly as many seconds as it was given,
/// in the largest whole unit.
pub proof fn law_duration_round_trip(seconds: nat)
    ensures
        duration_seconds(duration_text(seconds)) == seconds,
        duration_text(seconds).last() == 'h' <==> (seconds >= 3600 && seconds % 3600 == 0),
{
    if seconds >= 3600 && seconds % 3600 == 0 {
        lemma_digits_of_decimal(seconds / 3600);
        assert(decimal(seconds / 3600).push('h').drop_last() =~= decimal(seconds / 3600));
    } else if seconds >= 60 && seconds % 60 == 0 {
        lemma_digits_of_decimal(seconds / 60);
        assert(decimal(seconds / 60).push('m').drop_last() =~= decimal(seconds / 60));
    } else {
        lemma_digits_of_decimal(seconds);
        assert(decimal(seconds).push('s').drop_last() =~= decimal(seconds));
    }
}

/// Moving in a list of `n` items never leaves it: from a selection inside the
/// list (or none), up and down keep the selection inside.
pub proof fn law_selection_in_range(s: Option<usize>, n: int)
    requires
        n > 0,
        sel_or_first(s) < n,
    ensures
        sel_or_first(move_up(s)) < n,
        sel_or_first(move_down(s, n)) < n,
{
}

/// The keys of the hidden sequence, in order.
pub open spec fn egg_keys() -> Seq<KeyCode> {
    seq![
        KeyCode::Up,
        KeyCode::Up,
        KeyCode::Down,
        KeyCode::Down,
        KeyCode::Left,
        KeyCode::Right,
        KeyCode::Left,
        KeyCode::Right,
        KeyCode::Char('b'),
        KeyCode::Char('a'),
        KeyCode::Char('b'),
        KeyCode::Char('a'),
    ]
}

/// Each step of the hidden sequence expects the key at that place of it, and
/// after its twelfth key no key continues it.
pub proof fn law_egg_sequence(n: u8, key: KeyCode)
    ensures
        n < 12 ==> egg_expects(n, egg_keys()[n as int]),
        egg_expects(n, key) ==> n < 12,
{
}

/// Replacing the value of the entry at `i` (keeping its key) leaves every
/// other key as it was.
proof fn lemma_update_other_key(m: Seq<(YamlV, YamlV)>, i: int, v: YamlV, k2: YamlV)
    requires
        0 <= i < m.len(),
        m[i].0 != k2,
    ensures
        map_get(m.update(i, (m[i].0, v)), k2) == map_get(m, k2),
{
    let m2 = m.update(i, (m[i].0, v));
    lemma_map_find_bound(m, k2, 0);
    match map_find(m, k2, 0) {
        Some(j) => {
            assert forall|x: int| 0 <= x < j implies m2[x].0 != k2 by {
                if m[x].0 == k2 {
                    lemma_map_find_first_any(m, k2, 0, x);
                }
            }
            lemma_map_find_first(m2, k2, 0, j);
        },
        None => {
            lemma_map_find_none(m, k2, 0);
            lemma_map_find_none(m2, k2, 0);
        },
    }
}

/// Whether `k` is the key of one of the entries.
pub open spec fn has_key(m: Seq<(YamlV, YamlV)>, k: YamlV) -> bool {
    exists|j: int| 0 <= j < m.len() && #[trigger] m[j].0 == k
}

/// Merging one entry of `over` leaves the other keys alone.
proof fn lemma_merge_step_other(b: Seq<(YamlV, YamlV)>, k: YamlV, v: YamlV, k2: YamlV, merged: YamlV)
    requires
        k != k2,
    ensures
        ({
            let r = match map_find(b, k, 0) {
                Some(i) => if b[i].1 is Dict && v is Dict {
                    b.update(i, (b[i].0, merged))
                } else {
                    map_insert(b, k, v)
                },
                None => map_insert(b, k, v),
            };
            map_get(r, k2) == map_get(b, k2)
        }),
{
    lemma_map_find_bound(b, k, 0);
    law_map_insert_get(b, k, v, k2);
    match map_find(b, k, 0) {
        Some(i) => {
            lemma_update_other_key(b, i, merged, k2);
        },
        None => {},
    }
}

/// Merging a keymap section into another keeps every key that the overriding
/// section does not name, with its value.
pub proof fn law_merge_keeps_other_keys(base: Seq<(YamlV, YamlV)>, over: Seq<(YamlV, YamlV)>, k2: YamlV)
    requires
        !has_key(over, k2),
    ensures
        map_get(merge_entries(base, over), k2) == map_get(base, k2),
    decreases over.len(),
{
    if over.len() > 0 {
        let rest = over.drop_last();
        assert(!has_key(rest, k2)) by {
            if has_key(rest, k2) {
                let j = choose|j: int| 0 <= j < rest.len() && #[trigger] rest[j].0 == k2;
                assert(over[j].0 == k2);
            }
        }
        law_merge_keeps_other_keys(base, rest, k2);
        let b = merge_entries(base, rest);
        let k = over.last().0;
        let v = over.last().1;
        assert(over[over.len() - 1].0 != k2);
        lemma_map_find_bound(b, k, 0);
        let merged = match map_find(b, k, 0) {
            Some(i) => if b[i].1 is Dict && v is Dict {
                YamlV::Dict(merge_entries(b[i].1->Dict_0, v->Dict_0))
            } else {
                v
            },
            None => v,
        };
        lemma_merge_step_other(b, k, v, k2, merged);
    }
}

/// An entry of the overriding section whose value is not itself a mapping
/// replaces (or adds) the value under its key, when that section names each key once.
pub proof fn law_merge_overrides(base: Seq<(YamlV, YamlV)>, over: Seq<(YamlV, YamlV)>, j: int)
    requires
        keys_unique(over),
        0 <= j < over.len(),
        !(over[j].1 is Dict),
    ensures
        map_get(merge_entries(base, over), over[j].0) == Some(over[j].1),
    decreases over.len(),
{
    let rest = over.drop_last();
    let b = merge_entries(base, rest);
    let k = over.last().0;
    let v = over.last().1;
    lemma_map_find_bound(b, k, 0);
    if j == over.len() - 1 {
        law_map_insert_get(b, k, v, k);
    } else {
        assert(keys_unique(rest)) by {
            assert forall|a: int, c: int| 0 <= a < c < rest.len() implies rest[a].0 != rest[c].0 by {
                assert(rest[a] == over[a] && rest[c] == over[c]);
            }
        }
        assert(rest[j] == over[j]);
        law_merge_overrides(base, rest, j);
        assert(over[j].0 != k);
        let merged = match map_find(b, k, 0) {
            Some(i) => if b[i].1 is Dict && v is Dict {
                YamlV::Dict(merge_entries(b[i].1->Dict_0, v->Dict_0))
            } else {
                v
            },
            None => v,
        };
        lemma_merge_step_other(b, k, v, over[j].0, merged);
    }
}

proof fn lemma_member_find_exact(m: Seq<(Seq<char>, JsonV)>, k: Seq<char>, i: int, j: int)
    requires
        0 <= i <= j < m.len(),
        m[j].0 == k,
        forall|x: int| i <= x < j ==> m[x].0 != k,
    ensures
        member_find(m, k, i) == Some(j),
    decreases j - i,
{
    if i < j {
        lemma_member_find_exact(m, k, i + 1, j);
    }
}

proof fn lemma_member_find_skips(m: Seq<(Seq<char>, JsonV)>, k: Seq<char>, i: int)
    requires
        0 <= i,
    ensures
        member_find(m, k, i) matches Some(j) ==> forall|x: int| i <= x < j ==> m[x].0 != k,
        member_find(m, k, i) is None ==> forall|x: int| i <= x < m.len() ==> m[x].0 != k,
    decreases m.len() - i,
{
    if i < m.len() && m[i].0 != k {
        lemma_member_find_skips(m, k, i + 1);
    }
}

/// A member just set can be read back.
proof fn lemma_member_set_get(m: Seq<(Seq<char>, JsonV)>, k: Seq<char>, v: JsonV)
    ensures
        member_get(member_set(m, k, v), k) == Some(v),
{
    crate::json::lemma_member_find_bound(m, k, 0);
    lemma_member_find_skips(m, k, 0);
    let m2 = member_set(m, k, v);
    match member_find(m, k, 0) {
        Some(i) => {
            assert forall|x: int| 0 <= x < i implies m2[x].0 != k by {
                assert(m2[x] == m[x]);
            }
            lemma_member_find_exact(m2, k, 0, i);
        },
        None => {
            assert forall|x: int| 0 <= x < m.len() implies m2[x].0 != k by {
                assert(m2[x] == m[x]);
            }
            lemma_member_find_exact(m2, k, 0, m.len() as int);
        },
    }
}

/// Every downloaded proxy that is an object carries a tag once prepared.
pub proof fn law_proxies_get_tags(pp: Seq<char>, p: JsonV)
    ensures
        p is Object ==> jget(tag_proxy(pp, p), "tag"@) is Some,
        (p is Object && jget(p, "tag"@) is Some) ==> tag_proxy(pp, p) == p,
{
    match p {
        JsonV::Object(m) => {
            if member_get(m, "tag"@) is None {
                lemma_member_set_get(m, "tag"@, JsonV::Str(pp + "-"@ + crate::singbox::server_or_node(m)));
            }
        },
        _ => {},
    }
}

/// A sing-box configuration lists the downloaded proxies first among its
/// outbounds, and ends with the name of the template it came from.
pub proof fn law_singbox_shape(tpl: Seq<(YamlV, YamlV)>, stem: Seq<char>, providers: ProviderInput)
    ensures
        singbox_spec(tpl, stem, providers) matches Ok(j) ==> (j matches JsonV::Object(m) && m.len() >= 2
            && m[0].0 == "outbounds"@ && (m[0].1 matches JsonV::Array(o) && o.len() >= all_proxies(
            providers,
        ).len() && o.subrange(0, all_proxies(providers).len() as int) == all_proxies(providers)) && m.last()
            == ("clashtui_template_name"@, JsonV::Str(stem))),
{
    match singbox_spec(tpl, stem, providers) {
        Ok(j) => {
            let m = j->Object_0;
            let o = m[0].1->Array_0;
            assert(o.subrange(0, all_proxies(providers).len() as int) =~= all_proxies(providers));
        },
        Err(_) => {},
    }
}

} // verus!
