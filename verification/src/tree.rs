use indexmap::IndexMap;
use vstd::hash_map::StringHashMap;
use vstd::prelude::*;

use crate::sort::{
    key_le, sort_by_keys, sort_texts, stable_sort, strings_view, values_of, zip_keys,
};
use crate::text::{lex_le, text_eq, text_to_string};

verus! {

#[verifier::external_type_specification]
#[verifier::external_body]
#[verifier::reject_recursive_types(K)]
#[verifier::reject_recursive_types(V)]
#[verifier::reject_recursive_types(S)]
pub struct ExIndexMap<K, V, S>(IndexMap<K, V, S>);

/// One delay measurement of a proxy, in milliseconds (0: the test failed).
#[derive(Clone, Copy, Debug, PartialEq, Eq, Structural)]
pub struct DelayRecord {
    pub delay: u64,
}

/// Delay history that a group keeps about one of its members.
pub struct ExtraInfo {
    pub name: String,
    pub history: Vec<DelayRecord>,
}

/// A proxy or proxy group as the core reports it.
pub struct Proxy {
    pub proxy_type: String,
    /// Members of a group; `None` for a plain proxy.
    pub all: Option<Vec<String>>,
    /// The member a group currently uses.
    pub now: Option<String>,
    pub hidden: bool,
    pub history: Vec<DelayRecord>,
    pub extra: Vec<ExtraInfo>,
    pub test_url: Option<String>,
}

/// The core's answer to a request for all proxies, keyed by name in the core's order.
pub struct ProxiesResponse {
    pub proxies: IndexMap<String, Proxy>,
}

/// What the logic reads of a proxy.
pub struct ProxyView {
    pub proxy_type: Seq<char>,
    pub all: Option<Seq<Seq<char>>>,
    pub now: Option<Seq<char>>,
    pub hidden: bool,
    pub history: Seq<u64>,
    pub extra: Seq<(Seq<char>, Seq<u64>)>,
    pub test_url: Option<Seq<char>>,
}

pub open spec fn opt_string_view(o: Option<String>) -> Option<Seq<char>> {
    match o {
        Some(s) => Some(s@),
        None => None,
    }
}

pub open spec fn history_view(h: Seq<DelayRecord>) -> Seq<u64> {
    h.map_values(|r: DelayRecord| r.delay)
}

impl View for Proxy {
    type V = ProxyView;

    open spec fn view(&self) -> ProxyView {
        ProxyView {
            proxy_type: self.proxy_type@,
            all: match self.all {
                Some(v) => Some(strings_view(v@)),
                None => None,
            },
            now: opt_string_view(self.now),
            hidden: self.hidden,
            history: history_view(self.history@),
            extra: self.extra@.map_values(
                |e: ExtraInfo| (e.name@, history_view(e.history@)),
            ),
            test_url: opt_string_view(self.test_url),
        }
    }
}

/// The entries of a proxy map, in its order.
pub uninterp spec fn proxy_entries(m: IndexMap<String, Proxy>) -> Seq<(Seq<char>, ProxyView)>;

/// No two entries share a key, as in any `IndexMap`.
pub open spec fn unique_keys(e: Seq<(Seq<char>, ProxyView)>) -> bool {
    forall|i: int, j: int| 0 <= i < e.len() && 0 <= j < e.len() && i != j ==> e[i].0 != e[j].0
}

/// The value of the first entry at or after `i` whose key is `k`.
pub open spec fn lookup_from(e: Seq<(Seq<char>, ProxyView)>, k: Seq<char>, i: int) -> Option<ProxyView>
    decreases e.len() - i,
{
    if i < 0 || i >= e.len() {
        None
    } else if e[i].0 == k {
        Some(e[i].1)
    } else {
        lookup_from(e, k, i + 1)
    }
}

/// The proxy stored under `k`.
pub open spec fn lookup(e: Seq<(Seq<char>, ProxyView)>, k: Seq<char>) -> Option<ProxyView> {
    lookup_from(e, k, 0)
}

pub open spec fn opt_proxy_view(r: Option<&Proxy>) -> Option<ProxyView> {
    match r {
        Some(p) => Some(p@),
        None => None,
    }
}

/// `IndexMap::len`: the number of entries.
#[verifier::external_body]
fn map_len(m: &IndexMap<String, Proxy>) -> (n: usize)
    ensures
        n == proxy_entries(*m).len(),
{
    m.len()
}

pub open spec fn entry_view(r: Option<(&String, &Proxy)>) -> Option<(Seq<char>, ProxyView)> {
    match r {
        Some(kv) => Some((kv.0@, kv.1@)),
        None => None,
    }
}

/// `IndexMap::new`: an empty map.
#[verifier::external_body]
pub(crate) fn new_proxy_map() -> (m: IndexMap<String, Proxy>)
    ensures
        proxy_entries(m) == Seq::<(Seq<char>, ProxyView)>::empty(),
{
    IndexMap::new()
}

/// `IndexMap::get_index`: the entry at a position, if there is one. Keys of
/// an `IndexMap` are unique, so the key handed back is at no other position.
#[verifier::external_body]
fn map_get_index(m: &IndexMap<String, Proxy>, i: usize) -> (r: Option<(&String, &Proxy)>)
    ensures
        entry_view(r) == (if i < proxy_entries(*m).len() {
            Some(proxy_entries(*m)[i as int])
        } else {
            None
        }),
        r matches Some(kv) ==> forall|j: int|
            0 <= j < proxy_entries(*m).len() && j != i ==> #[trigger] proxy_entries(*m)[j].0 != kv.0@,
{
    m.get_index(i)
}

/// `IndexMap::get`: the value stored under a key (keys of an `IndexMap` are unique,
/// so it is the value of the first entry with that key).
#[verifier::external_body]
pub(crate) fn map_get<'a>(m: &'a IndexMap<String, Proxy>, name: &str) -> (r: Option<&'a Proxy>)
    ensures
        opt_proxy_view(r) == lookup(proxy_entries(*m), name@),
{
    m.get(name)
}

/// The position of the first entry at or after `i` whose key is `k`.
pub open spec fn key_index_from(e: Seq<(Seq<char>, ProxyView)>, k: Seq<char>, i: int) -> Option<int>
    decreases e.len() - i,
{
    if i < 0 || i >= e.len() {
        None
    } else if e[i].0 == k {
        Some(i)
    } else {
        key_index_from(e, k, i + 1)
    }
}

/// `IndexMap::get_mut`: the value stored under a key, to change in place.
/// Claimed: `None` (the map unchanged) when no entry has the key; else the
/// value of that entry, and the map afterwards holds the changed value at the
/// same position, every other entry as it was.
#[verifier::external_body]
pub(crate) fn map_get_mut<'a>(m: &'a mut IndexMap<String, Proxy>, name: &str) -> (r: Option<&'a mut Proxy>)
    ensures
        match r {
            None => key_index_from(proxy_entries(*old(m)), name@, 0) is None && proxy_entries(*final(m))
                == proxy_entries(*old(m)),
            Some(p) => key_index_from(proxy_entries(*old(m)), name@, 0) matches Some(i) && (*p)@ == proxy_entries(
                *old(m),
            )[i].1 && proxy_entries(*final(m)) == proxy_entries(*old(m)).update(i, (name@, (*final(p))@)),
        },
{
    m.get_mut(name)
}

/// How an entry of the tree is shown.
#[derive(Clone, Copy, Debug, PartialEq, Eq, Structural)]
pub enum NodeType {
    /// A group, which can be expanded.
    Folder,
    /// A group listed inside another group.
    Link,
    /// A proxy.
    File,
}

/// One line of the proxy tree.
pub struct NodeItem {
    pub name: String,
    pub depth: usize,
    pub node_type: NodeType,
    pub proxy_type: String,
    pub delay: Option<u64>,
    pub parent: Option<String>,
    pub expanded: bool,
    pub is_now: bool,
}

pub struct NodeView {
    pub name: Seq<char>,
    pub depth: usize,
    pub node_type: NodeType,
    pub proxy_type: Seq<char>,
    pub delay: Option<u64>,
    pub parent: Option<Seq<char>>,
    pub expanded: bool,
    pub is_now: bool,
}

impl View for NodeItem {
    type V = NodeView;

    open spec fn view(&self) -> NodeView {
        NodeView {
            name: self.name@,
            depth: self.depth,
            node_type: self.node_type,
            proxy_type: self.proxy_type@,
            delay: self.delay,
            parent: opt_string_view(self.parent),
            expanded: self.expanded,
            is_now: self.is_now,
        }
    }
}

pub open spec fn nodes_view(v: Seq<NodeItem>) -> Seq<NodeView> {
    v.map_values(|n: NodeItem| n@)
}

/// A group with at least one member.
pub open spec fn has_kids(p: ProxyView) -> bool {
    p.all matches Some(a) && a.len() > 0
}

/// Names, in map order, of the first `n` entries that are visible groups.
pub open spec fn top_names(e: Seq<(Seq<char>, ProxyView)>, n: int) -> Seq<Seq<char>>
    decreases n,
{
    if n <= 0 {
        seq![]
    } else if !e[n - 1].1.hidden && has_kids(e[n - 1].1) {
        top_names(e, n - 1).push(e[n - 1].0)
    } else {
        top_names(e, n - 1)
    }
}

/// The first index at or after `i` where `s` holds `x`.
pub open spec fn index_of(s: Seq<Seq<char>>, x: Seq<char>, i: int) -> Option<int>
    decreases s.len() - i,
{
    if i < 0 || i >= s.len() {
        None
    } else if s[i] == x {
        Some(i)
    } else {
        index_of(s, x, i + 1)
    }
}

/// The rank of a group in the order of the `GLOBAL` group's members: `GLOBAL`
/// itself last, groups that `GLOBAL` does not list just before it.
pub open spec fn global_rank(all: Seq<Seq<char>>, name: Seq<char>) -> u64 {
    if name == "GLOBAL"@ {
        usize::MAX as u64
    } else {
        match index_of(all, name, 0) {
            Some(i) => i as u64,
            None => (usize::MAX - 1) as u64,
        }
    }
}

/// The top-level groups in display order: by name when `sorted`, else in the
/// order of the `GLOBAL` group's members if there is such a group, else in map order.
pub open spec fn ordered_top(e: Seq<(Seq<char>, ProxyView)>, sorted: bool) -> Seq<Seq<char>> {
    let t = top_names(e, e.len() as int);
    if sorted {
        stable_sort(t, |a: Seq<char>, b: Seq<char>| lex_le(a, b))
    } else {
        match lookup(e, "GLOBAL"@) {
            Some(g) => match g.all {
                Some(all) => values_of(
                    stable_sort(
                        zip_keys(Seq::new(t.len(), |i: int| global_rank(all, t[i])), t),
                        key_le::<Seq<char>>(),
                    ),
                ),
                None => t,
            },
            None => t,
        }
    }
}

/// The last recorded delay, if any.
pub open spec fn last_delay(h: Seq<u64>) -> Option<u64> {
    if h.len() > 0 {
        Some(h.last())
    } else {
        None
    }
}

/// The history a group keeps about the member `k`.
pub open spec fn extra_lookup(x: Seq<(Seq<char>, Seq<u64>)>, k: Seq<char>, i: int) -> Option<Seq<u64>>
    decreases x.len() - i,
{
    if i < 0 || i >= x.len() {
        None
    } else if x[i].0 == k {
        Some(x[i].1)
    } else {
        extra_lookup(x, k, i + 1)
    }
}

/// Sort key of a member when sorting by delay: its last delay (from its own
/// history, else from the group's), failures and unknowns last.
pub open spec fn delay_key(e: Seq<(Seq<char>, ProxyView)>, p: ProxyView, kid: Seq<char>) -> u64 {
    let own = match lookup(e, kid) {
        Some(kp) => last_delay(kp.history),
        None => None,
    };
    match own {
        Some(d) => if d == 0 {
            u64::MAX
        } else {
            d
        },
        None => match extra_lookup(p.extra, kid, 0) {
            Some(h) => match last_delay(h) {
                Some(d) => if d == 0 {
                    u64::MAX
                } else {
                    d
                },
                None => u64::MAX,
            },
            None => u64::MAX,
        },
    }
}

/// The members of group `p` in display order.
pub open spec fn ordered_kids(
    e: Seq<(Seq<char>, ProxyView)>,
    p: ProxyView,
    by_delay: bool,
) -> Seq<Seq<char>> {
    let all = p.all->0;
    if by_delay {
        values_of(
            stable_sort(
                zip_keys(Seq::new(all.len(), |i: int| delay_key(e, p, all[i])), all),
                key_le::<Seq<char>>(),
            ),
        )
    } else {
        all
    }
}

/// The line shown for member `kid` of the expanded group `parent`.
pub open spec fn kid_node(
    e: Seq<(Seq<char>, ProxyView)>,
    p: ProxyView,
    parent: Seq<char>,
    depth: usize,
    kid: Seq<char>,
) -> NodeView {
    let kp = lookup(e, kid);
    let is_group = kp matches Some(q) && has_kids(q);
    NodeView {
        name: kid,
        depth: (depth + 1) as usize,
        node_type: if is_group {
            NodeType::Link
        } else {
            NodeType::File
        },
        proxy_type: match kp {
            Some(q) => q.proxy_type,
            None => Seq::<char>::empty(),
        },
        delay: if is_group {
            None
        } else {
            match kp {
                Some(q) => last_delay(q.history),
                None => None,
            }
        },
        parent: Some(parent),
        expanded: false,
        is_now: p.now == Some(kid),
    }
}

/// Whether the map of expanded groups marks `name`.
pub open spec fn is_marked(exp: Map<Seq<char>, bool>, name: Seq<char>) -> bool {
    exp.contains_key(name) && exp[name]
}

/// The lines of one entry: nothing for an unknown or hidden proxy; else its
/// own line, followed, when it is an expanded group, by one line per member.
pub open spec fn entry_lines(
    e: Seq<(Seq<char>, ProxyView)>,
    name: Seq<char>,
    parent: Option<Seq<char>>,
    parent_now: Option<Seq<char>>,
    depth: usize,
    exp: Map<Seq<char>, bool>,
    by_delay: bool,
) -> Seq<NodeView> {
    match lookup(e, name) {
        None => seq![],
        Some(p) => if p.hidden {
            seq![]
        } else {
            let node = NodeView {
                name,
                depth,
                node_type: if has_kids(p) {
                    NodeType::Folder
                } else {
                    NodeType::File
                },
                proxy_type: p.proxy_type,
                delay: None,
                parent,
                expanded: is_marked(exp, name),
                is_now: parent_now == Some(name),
            };
            if has_kids(p) && is_marked(exp, name) {
                seq![node] + ordered_kids(e, p, by_delay).map_values(
                    |k: Seq<char>| kid_node(e, p, name, depth, k),
                )
            } else {
                seq![node]
            }
        },
    }
}

/// The lines of the first `n` top-level names.
pub open spec fn top_lines(
    e: Seq<(Seq<char>, ProxyView)>,
    names: Seq<Seq<char>>,
    exp: Map<Seq<char>, bool>,
    by_delay: bool,
    n: int,
) -> Seq<NodeView>
    decreases n,
{
    if n <= 0 {
        seq![]
    } else {
        top_lines(e, names, exp, by_delay, n - 1) + entry_lines(
            e,
            names[n - 1],
            None,
            None,
            0,
            exp,
            by_delay,
        )
    }
}

/// The groups that are shown expanded among `nodes`.
pub open spec fn expanded_map(nodes: Seq<NodeView>) -> Map<Seq<char>, bool> {
    Map::new(
        |k: Seq<char>|
            exists|i: int|
                0 <= i < nodes.len() && #[trigger] nodes[i].name == k && nodes[i].expanded
                    && nodes[i].node_type == NodeType::Folder,
        |k: Seq<char>| true,
    )
}

/// The tree rebuilt from a proxy map, keeping expanded the groups that were expanded.
pub open spec fn rebuilt(
    old_nodes: Seq<NodeView>,
    e: Seq<(Seq<char>, ProxyView)>,
    sorted: bool,
    by_delay: bool,
) -> Seq<NodeView> {
    let names = ordered_top(e, sorted);
    top_lines(e, names, expanded_map(old_nodes), by_delay, names.len() as int)
}

/// Each name mapped to the last position at which it occurs among the first `n` nodes.
pub open spec fn last_index_map(nodes: Seq<NodeView>, n: int) -> Map<Seq<char>, usize>
    decreases n,
{
    if n <= 0 {
        Map::empty()
    } else {
        last_index_map(nodes, n - 1).insert(nodes[n - 1].name, (n - 1) as usize)
    }
}

/// A line with its expanded flag set to `v`.
pub open spec fn with_expanded(n: NodeView, v: bool) -> NodeView {
    NodeView { expanded: v, ..n }
}

/// A line expanded if it is a group line, unchanged otherwise.
pub open spec fn expand_if_folder(n: NodeView) -> NodeView {
    if n.node_type == NodeType::Folder {
        with_expanded(n, true)
    } else {
        n
    }
}

/// The lines after the first group line named `name` is set expanded (`Some(v)`)
/// or flipped (`None`) and the tree rebuilt; unchanged when there is no such line.
pub open spec fn after_set_expanded(
    nodes: Seq<NodeView>,
    name: Seq<char>,
    v: Option<bool>,
    e: Seq<(Seq<char>, ProxyView)>,
    sorted: bool,
    by_delay: bool,
) -> Seq<NodeView> {
    match folder_index_from(nodes, name, 0) {
        Some(idx) => rebuilt(
            nodes.update(
                idx,
                with_expanded(
                    nodes[idx],
                    match v {
                        Some(b) => b,
                        None => !nodes[idx].expanded,
                    },
                ),
            ),
            e,
            sorted,
            by_delay,
        ),
        None => nodes,
    }
}

/// Every line collapsed.
pub open spec fn collapse_lines(nodes: Seq<NodeView>) -> Seq<NodeView> {
    nodes.map_values(|n: NodeView| with_expanded(n, false))
}

/// Every group line expanded.
pub open spec fn expand_lines(nodes: Seq<NodeView>) -> Seq<NodeView> {
    nodes.map_values(|n: NodeView| expand_if_folder(n))
}

/// The first position of a group line with the given name.
pub open spec fn folder_index_from(nodes: Seq<NodeView>, name: Seq<char>, i: int) -> Option<int>
    decreases nodes.len() - i,
{
    if i < 0 || i >= nodes.len() {
        None
    } else if nodes[i].node_type == NodeType::Folder && nodes[i].name == name {
        Some(i)
    } else {
        folder_index_from(nodes, name, i + 1)
    }
}

/// Copies a list of strings.
fn clone_strings(v: &Vec<String>) -> (r: Vec<String>)
    ensures
        strings_view(r@) == strings_view(v@),
{
    let mut r: Vec<String> = Vec::new();
    let mut i: usize = 0;
    while i < v.len()
        invariant
            0 <= i <= v@.len(),
            strings_view(r@) == strings_view(v@).take(i as int),
        decreases v@.len() - i,
    {
        let c = v[i].clone();
        let ghost before = r@;
        r.push(c);
        assert(strings_view(r@) =~= strings_view(before).push(c@));
        assert(strings_view(v@).take(i + 1) =~= strings_view(v@).take(i as int).push(c@));
        i = i + 1;
    }
    assert(strings_view(v@).take(v@.len() as int) =~= strings_view(v@));
    r
}

pub fn clone_opt_string(o: &Option<String>) -> (r: Option<String>)
    ensures
        opt_string_view(r) == opt_string_view(*o),
{
    match o {
        Some(s) => Some(s.clone()),
        None => None,
    }
}

fn last_delay_of(h: &Vec<DelayRecord>) -> (r: Option<u64>)
    ensures
        r == last_delay(history_view(h@)),
{
    if h.len() > 0 {
        Some(h[h.len() - 1].delay)
    } else {
        None
    }
}

fn has_members(p: &Proxy) -> (r: bool)
    ensures
        r == has_kids(p@),
{
    match &p.all {
        Some(a) => a.len() > 0,
        None => false,
    }
}

fn delay_key_of(proxies: &IndexMap<String, Proxy>, p: &Proxy, kid: &str) -> (r: u64)
    ensures
        r == delay_key(proxy_entries(*proxies), p@, kid@),
{
    let own = match map_get(proxies, kid) {
        Some(kp) => last_delay_of(&kp.history),
        None => None,
    };
    match own {
        Some(d) => if d == 0 {
            u64::MAX
        } else {
            d
        },
        None => {
            let ghost x = p@.extra;
            let mut i: usize = 0;
            while i < p.extra.len()
                invariant
                    x == p@.extra,
                    own is None,
                    (match lookup(proxy_entries(*proxies), kid@) {
                        Some(kp) => last_delay(kp.history),
                        None => None::<u64>,
                    }) is None,
                    0 <= i <= p.extra@.len(),
                    extra_lookup(x, kid@, 0) == extra_lookup(x, kid@, i as int),
                decreases p.extra@.len() - i,
            {
                if text_eq(p.extra[i].name.as_str(), kid) {
                    let h = last_delay_of(&p.extra[i].history);
                    assert(x[i as int] == (p.extra@[i as int].name@, history_view(p.extra@[i as int].history@)));
                    assert(extra_lookup(x, kid@, i as int) == Some(x[i as int].1));
                    assert(own is None);
                    return match h {
                        Some(d) => if d == 0 {
                            u64::MAX
                        } else {
                            d
                        },
                        None => u64::MAX,
                    };
                }
                i = i + 1;
            }
            u64::MAX
        },
    }
}

/// The members of a group in display order.
fn kids_in_order(proxies: &IndexMap<String, Proxy>, p: &Proxy, kids: &Vec<String>, by_delay: bool) -> (r: Vec<String>)
    requires
        p@.all == Some(strings_view(kids@)),
    ensures
        strings_view(r@) == ordered_kids(proxy_entries(*proxies), p@, by_delay),
{
    let ghost all = strings_view(kids@);
    if by_delay {
        let mut keys: Vec<u64> = Vec::new();
        let mut i: usize = 0;
        while i < kids.len()
            invariant
                0 <= i <= kids@.len(),
                all == strings_view(kids@),
                keys@ == Seq::new(i as nat, |j: int| delay_key(proxy_entries(*proxies), p@, all[j])),
            decreases kids@.len() - i,
        {
            let k = delay_key_of(proxies, p, kids[i].as_str());
            keys.push(k);
            assert(keys@ =~= Seq::new((i + 1) as nat, |j: int| delay_key(proxy_entries(*proxies), p@, all[j])));
            i = i + 1;
        }
        let cloned = clone_strings(kids);
        assert(strings_view(cloned@).len() == cloned@.len());
        assert(strings_view(kids@).len() == kids@.len());
        sort_by_keys(cloned, keys)
    } else {
        clone_strings(kids)
    }
}

/// A group or proxy tree, as listed in the proxies tab.
pub struct ProxyTree {
    pub nodes: Vec<NodeItem>,
    pub name_index: StringHashMap<usize>,
    pub sorted: bool,
    pub sort_by_delay: bool,
}

impl ProxyTree {
    /// An empty tree in map order.
    pub fn new() -> (r: ProxyTree)
        ensures
            r.nodes@.len() == 0,
            r.name_index@ == Map::<Seq<char>, usize>::empty(),
            !r.sorted,
            !r.sort_by_delay,
    {
        ProxyTree { nodes: Vec::new(), name_index: StringHashMap::new(), sorted: false, sort_by_delay: false }
    }

    /// The tree of the proxies in a response, nothing expanded, in the core's order.
    pub fn build(response: ProxiesResponse) -> (r: ProxyTree)
        ensures
            nodes_view(r.nodes@) == rebuilt(
                Seq::empty(),
                proxy_entries(response.proxies),
                false,
                false,
            ),
            r.name_index@ == last_index_map(nodes_view(r.nodes@), r.nodes@.len() as int),
            !r.sorted,
            !r.sort_by_delay,
            unique_keys(proxy_entries(response.proxies)),
    {
        let mut tree = ProxyTree::new();
        assert(nodes_view(tree.nodes@) =~= Seq::<NodeView>::empty());
        tree.rebuild_from_proxies(&response.proxies);
        tree
    }

    /// Appends the lines of entry `name`: its own line and, if it is an
    /// expanded group, one line per member.
    pub fn push_entry(
        nodes: &mut Vec<NodeItem>,
        name: &str,
        parent: Option<String>,
        parent_now: Option<&str>,
        depth: usize,
        proxies: &IndexMap<String, Proxy>,
        expanded_map: &StringHashMap<bool>,
        sort_by_delay: bool,
    )
        requires
            depth < usize::MAX,
        ensures
            nodes_view(final(nodes)@) == nodes_view(old(nodes)@) + entry_lines(
                proxy_entries(*proxies),
                name@,
                opt_string_view(parent),
                match parent_now {
                    Some(s) => Some(s@),
                    None => None,
                },
                depth,
                expanded_map@,
                sort_by_delay,
            ),
    {
        let ghost e = proxy_entries(*proxies);
        let ghost start = nodes_view(nodes@);
        let proxy = match map_get(proxies, name) {
            Some(p) => p,
            None => {
                assert(nodes_view(nodes@) =~= start + Seq::<NodeView>::empty());
                return ;
            },
        };
        if proxy.hidden {
            assert(nodes_view(nodes@) =~= start + Seq::<NodeView>::empty());
            return ;
        }
        let kids_present = has_members(proxy);
        let expanded = match expanded_map.get(name) {
            Some(b) => *b,
            None => false,
        };
        let is_now = match parent_now {
            Some(pn) => text_eq(pn, name),
            None => false,
        };
        let node = NodeItem {
            name: text_to_string(name),
            depth,
            node_type: if kids_present {
                NodeType::Folder
            } else {
                NodeType::File
            },
            proxy_type: proxy.proxy_type.clone(),
            delay: None,
            parent,
            expanded,
            is_now,
        };
        let ghost nv = node@;
        nodes.push(node);
        assert(nodes_view(nodes@) =~= start + seq![nv]);
        if kids_present && expanded {
            match &proxy.all {
                Some(kids) => {
                    let ordered = kids_in_order(proxies, proxy, kids, sort_by_delay);
                    let ghost kid_lines = ordered_kids(e, proxy@, sort_by_delay).map_values(
                        |k: Seq<char>| kid_node(e, proxy@, name@, depth, k),
                    );
                    let mut i: usize = 0;
                    while i < ordered.len()
                        invariant
                            0 <= i <= ordered@.len(),
                            depth < usize::MAX,
                            e == proxy_entries(*proxies),
                            strings_view(ordered@) == ordered_kids(e, proxy@, sort_by_delay),
                            kid_lines == ordered_kids(e, proxy@, sort_by_delay).map_values(
                                |k: Seq<char>| kid_node(e, proxy@, name@, depth, k),
                            ),
                            nodes_view(nodes@) == start + seq![nv] + kid_lines.take(i as int),
                        decreases ordered@.len() - i,
                    {
                        let kid = &ordered[i];
                        let kp = map_get(proxies, kid.as_str());
                        let is_group = match kp {
                            Some(q) => has_members(q),
                            None => false,
                        };
                        let proxy_type = match kp {
                            Some(q) => q.proxy_type.clone(),
                            None => String::new(),
                        };
                        let delay = if is_group {
                            None
                        } else {
                            match kp {
                                Some(q) => last_delay_of(&q.history),
                                None => None,
                            }
                        };
                        let kid_is_now = match &proxy.now {
                            Some(nw) => text_eq(nw.as_str(), kid.as_str()),
                            None => false,
                        };
                        let item = NodeItem {
                            name: kid.clone(),
                            depth: depth + 1,
                            node_type: if is_group {
                                NodeType::Link
                            } else {
                                NodeType::File
                            },
                            proxy_type,
                            delay,
                            parent: Some(text_to_string(name)),
                            expanded: false,
                            is_now: kid_is_now,
                        };
                        assert(item@ == kid_lines[i as int]);
                        let ghost before = nodes_view(nodes@);
                        nodes.push(item);
                        assert(nodes_view(nodes@) =~= before.push(kid_lines[i as int]));
                        assert(kid_lines.take(i + 1) =~= kid_lines.take(i as int).push(
                            kid_lines[i as int],
                        ));
                        i = i + 1;
                    }
                    assert(kid_lines.take(ordered@.len() as int) =~= kid_lines);
                    assert(seq![nv] + kid_lines =~= (seq![nv] + kid_lines));
                    assert(start + seq![nv] + kid_lines =~= start + (seq![nv] + kid_lines));
                },
                None => {},
            }
        }
    }

    /// The names of the visible groups, in map order.
    fn top_group_names(proxies: &IndexMap<String, Proxy>) -> (r: Vec<String>)
        ensures
            strings_view(r@) == top_names(proxy_entries(*proxies), proxy_entries(*proxies).len() as int),
            unique_keys(proxy_entries(*proxies)),
    {
        let ghost e = proxy_entries(*proxies);
        let n = map_len(proxies);
        let mut r: Vec<String> = Vec::new();
        let mut i: usize = 0;
        while i < n
            invariant
                n == e.len(),
                e == proxy_entries(*proxies),
                0 <= i <= n,
                strings_view(r@) == top_names(e, i as int),
                forall|a: int, b: int| 0 <= a < i && 0 <= b < n && a != b ==> #[trigger] e[a].0 != #[trigger] e[b].0,
            decreases n - i,
        {
            match map_get_index(proxies, i) {
                Some((k, p)) => {
                    if !p.hidden && has_members(p) {
                        let c = k.clone();
                        let ghost before = r@;
                        r.push(c);
                        assert(strings_view(r@) =~= strings_view(before).push(c@));
                    }
                },
                None => {},
            }
            i = i + 1;
        }
        proof {
            assert forall|a: int, b: int| 0 <= a < e.len() && 0 <= b < e.len() && a != b implies e[a].0 != e[b].0 by {
                if a > b {
                    assert(e[b].0 != e[a].0);
                }
            }
        }
        r
    }

    /// The top-level groups in display order.
    fn ordered_top_names(&self, proxies: &IndexMap<String, Proxy>) -> (r: Vec<String>)
        ensures
            strings_view(r@) == ordered_top(proxy_entries(*proxies), self.sorted),
            unique_keys(proxy_entries(*proxies)),
    {
        let ghost e = proxy_entries(*proxies);
        let top = Self::top_group_names(proxies);
        let ghost t = strings_view(top@);
        if self.sorted {
            return sort_texts(top);
        }
        match map_get(proxies, "GLOBAL") {
            Some(global) => match &global.all {
                Some(group_all) => {
                    let ghost all = strings_view(group_all@);
                    let mut keys: Vec<u64> = Vec::new();
                    let mut i: usize = 0;
                    while i < top.len()
                        invariant
                            0 <= i <= top@.len(),
                            t == strings_view(top@),
                            all == strings_view(group_all@),
                            keys@ == Seq::new(i as nat, |j: int| global_rank(all, t[j])),
                        decreases top@.len() - i,
                    {
                        let name = top[i].as_str();
                        let key: u64 = if text_eq(name, "GLOBAL") {
                            usize::MAX as u64
                        } else {
                            let mut j: usize = 0;
                            while j < group_all.len() && !text_eq(group_all[j].as_str(), name)
                                invariant
                                    0 <= j <= group_all@.len(),
                                    all == strings_view(group_all@),
                                    index_of(all, name@, 0) == index_of(all, name@, j as int),
                                decreases group_all@.len() - j,
                            {
                                j = j + 1;
                            }
                            if j < group_all.len() {
                                assert(index_of(all, name@, j as int) == Some(j as int));
                                j as u64
                            } else {
                                (usize::MAX - 1) as u64
                            }
                        };
                        keys.push(key);
                        assert(keys@ =~= Seq::new((i + 1) as nat, |j: int| global_rank(all, t[j])));
                        i = i + 1;
                    }
                    sort_by_keys(top, keys)
                },
                None => top,
            },
            None => top,
        }
    }

    /// Rebuilds the lines from a proxy map, keeping expanded the groups that were expanded,
    /// and refreshes the name index.
    pub fn rebuild_from_proxies(&mut self, proxies: &IndexMap<String, Proxy>)
        ensures
            nodes_view(final(self).nodes@) == rebuilt(
                nodes_view(old(self).nodes@),
                proxy_entries(*proxies),
                old(self).sorted,
                old(self).sort_by_delay,
            ),
            final(self).name_index@ == last_index_map(
                nodes_view(final(self).nodes@),
                final(self).nodes@.len() as int,
            ),
            final(self).sorted == old(self).sorted,
            final(self).sort_by_delay == old(self).sort_by_delay,
            unique_keys(proxy_entries(*proxies)),
    {
        let ghost e = proxy_entries(*proxies);
        let ghost old_nodes = nodes_view(self.nodes@);
        let mut exp: StringHashMap<bool> = StringHashMap::new();
        let mut i: usize = 0;
        while i < self.nodes.len()
            invariant
                0 <= i <= self.nodes@.len(),
                old_nodes == nodes_view(self.nodes@),
                exp@ == expanded_map(old_nodes.take(i as int)),
            decreases self.nodes@.len() - i,
        {
            assert(old_nodes[i as int] == self.nodes@[i as int]@);
            let ghost before = exp@;
            if self.nodes[i].expanded && self.nodes[i].node_type == NodeType::Folder {
                let nm = self.nodes[i].name.clone();
                assert(nm@ == old_nodes[i as int].name);
                exp.insert(nm, true);
                assert(exp@ == before.insert(old_nodes[i as int].name, true));
            }
            proof {
                let a = old_nodes.take(i as int);
                let b = old_nodes.take(i + 1);
                let q = b[i as int].expanded && b[i as int].node_type == NodeType::Folder;
                assert(b[i as int] == old_nodes[i as int]);
                assert forall|k: Seq<char>| #[trigger] expanded_map(b).contains_key(k) == (expanded_map(a).contains_key(k) || (q && k == b[i as int].name)) by {
                    if expanded_map(a).contains_key(k) {
                        let w = choose|w: int|
                            0 <= w < a.len() && #[trigger] a[w].name == k && a[w].expanded
                                && a[w].node_type == NodeType::Folder;
                        assert(b[w] == a[w]);
                        assert(b[w].name == k);
                    }
                    if q && k == b[i as int].name {
                        assert(b[i as int].name == k);
                    }
                    if expanded_map(b).contains_key(k) {
                        let w = choose|w: int|
                            0 <= w < b.len() && #[trigger] b[w].name == k && b[w].expanded
                                && b[w].node_type == NodeType::Folder;
                        if w < i {
                            assert(a[w] == b[w]);
                            assert(a[w].name == k);
                        }
                    }
                }
                assert(exp@ =~= expanded_map(b));
            }
            i = i + 1;
        }
        assert(old_nodes.take(self.nodes@.len() as int) =~= old_nodes);
        let names = self.ordered_top_names(proxies);
        let ghost nm = strings_view(names@);
        let mut nodes: Vec<NodeItem> = Vec::new();
        let mut j: usize = 0;
        assert(nodes_view(nodes@) =~= Seq::<NodeView>::empty());
        while j < names.len()
            invariant
                0 <= j <= names@.len(),
                nm == strings_view(names@),
                e == proxy_entries(*proxies),
                nodes_view(nodes@) == top_lines(e, nm, exp@, self.sort_by_delay, j as int),
            decreases names@.len() - j,
        {
            Self::push_entry(&mut nodes, names[j].as_str(), None, None, 0, proxies, &exp, self.sort_by_delay);
            j = j + 1;
        }
        self.nodes = nodes;
        self.rebuild_index();
    }

    /// Expands or collapses the group line with this name, if there is one, and rebuilds.
    pub fn toggle_expand_at(&mut self, name: &str, proxies: &IndexMap<String, Proxy>)
        ensures
            final(self).sorted == old(self).sorted,
            final(self).sort_by_delay == old(self).sort_by_delay,
            nodes_view(final(self).nodes@) == after_set_expanded(
                nodes_view(old(self).nodes@),
                name@,
                None::<bool>,
                proxy_entries(*proxies),
                old(self).sorted,
                old(self).sort_by_delay,
            ),
            folder_index_from(nodes_view(old(self).nodes@), name@, 0) is Some
                ==> final(self).name_index@ == last_index_map(
                nodes_view(final(self).nodes@),
                final(self).nodes@.len() as int,
            ),
            folder_index_from(nodes_view(old(self).nodes@), name@, 0) is None
                ==> final(self).nodes@ == old(self).nodes@ && final(self).name_index@ == old(self).name_index@,
    {
        if let Some(idx) = self.find_folder_index(name) {
            let v = !self.nodes[idx].expanded;
            self.set_expanded_at(idx, v);
            self.rebuild_from_proxies(proxies);
        }
    }

    /// Expands the group line with this name, if there is one, and rebuilds.
    pub fn expand_at(&mut self, name: &str, proxies: &IndexMap<String, Proxy>)
        ensures
            final(self).sorted == old(self).sorted,
            final(self).sort_by_delay == old(self).sort_by_delay,
            nodes_view(final(self).nodes@) == after_set_expanded(
                nodes_view(old(self).nodes@),
                name@,
                Some(true),
                proxy_entries(*proxies),
                old(self).sorted,
                old(self).sort_by_delay,
            ),
            folder_index_from(nodes_view(old(self).nodes@), name@, 0) is Some
                ==> final(self).name_index@ == last_index_map(
                nodes_view(final(self).nodes@),
                final(self).nodes@.len() as int,
            ),
            folder_index_from(nodes_view(old(self).nodes@), name@, 0) is None
                ==> final(self).nodes@ == old(self).nodes@ && final(self).name_index@ == old(self).name_index@,
    {
        if let Some(idx) = self.find_folder_index(name) {
            self.set_expanded_at(idx, true);
            self.rebuild_from_proxies(proxies);
        }
    }

    /// Collapses the group line with this name, if there is one, and rebuilds.
    pub fn collapse_at(&mut self, name: &str, proxies: &IndexMap<String, Proxy>)
        ensures
            final(self).sorted == old(self).sorted,
            final(self).sort_by_delay == old(self).sort_by_delay,
            nodes_view(final(self).nodes@) == after_set_expanded(
                nodes_view(old(self).nodes@),
                name@,
                Some(false),
                proxy_entries(*proxies),
                old(self).sorted,
                old(self).sort_by_delay,
            ),
            folder_index_from(nodes_view(old(self).nodes@), name@, 0) is Some
                ==> final(self).name_index@ == last_index_map(
                nodes_view(final(self).nodes@),
                final(self).nodes@.len() as int,
            ),
            folder_index_from(nodes_view(old(self).nodes@), name@, 0) is None
                ==> final(self).nodes@ == old(self).nodes@ && final(self).name_index@ == old(self).name_index@,
    {
        if let Some(idx) = self.find_folder_index(name) {
            self.set_expanded_at(idx, false);
            self.rebuild_from_proxies(proxies);
        }
    }

    /// Collapses every line and rebuilds.
    pub fn collapse_all(&mut self, proxies: &IndexMap<String, Proxy>)
        ensures
            final(self).sorted == old(self).sorted,
            final(self).sort_by_delay == old(self).sort_by_delay,
            final(self).name_index@ == last_index_map(
                nodes_view(final(self).nodes@),
                final(self).nodes@.len() as int,
            ),
            nodes_view(final(self).nodes@) == rebuilt(
                collapse_lines(nodes_view(old(self).nodes@)),
                proxy_entries(*proxies),
                old(self).sorted,
                old(self).sort_by_delay,
            ),
    {
        let ghost target = collapse_lines(nodes_view(self.nodes@));
        let mut i: usize = 0;
        while i < self.nodes.len()
            invariant
                0 <= i <= self.nodes@.len(),
                target.len() == self.nodes@.len(),
                self.sorted == old(self).sorted,
                self.sort_by_delay == old(self).sort_by_delay,
                forall|k: int| 0 <= k < i ==> #[trigger] self.nodes@[k]@ == target[k],
                forall|k: int| i <= k < self.nodes@.len() ==> with_expanded(#[trigger] self.nodes@[k]@, false) == target[k],
            decreases self.nodes@.len() - i,
        {
            self.set_expanded(i, false);
            i = i + 1;
        }
        assert(nodes_view(self.nodes@) =~= target);
        self.rebuild_from_proxies(proxies);
    }

    /// Expands every group line and rebuilds.
    pub fn expand_all(&mut self, proxies: &IndexMap<String, Proxy>)
        ensures
            final(self).sorted == old(self).sorted,
            final(self).sort_by_delay == old(self).sort_by_delay,
            final(self).name_index@ == last_index_map(
                nodes_view(final(self).nodes@),
                final(self).nodes@.len() as int,
            ),
            nodes_view(final(self).nodes@) == rebuilt(
                expand_lines(nodes_view(old(self).nodes@)),
                proxy_entries(*proxies),
                old(self).sorted,
                old(self).sort_by_delay,
            ),
    {
        let ghost target = expand_lines(nodes_view(self.nodes@));
        let mut i: usize = 0;
        while i < self.nodes.len()
            invariant
                0 <= i <= self.nodes@.len(),
                target.len() == self.nodes@.len(),
                self.sorted == old(self).sorted,
                self.sort_by_delay == old(self).sort_by_delay,
                forall|k: int| 0 <= k < i ==> #[trigger] self.nodes@[k]@ == target[k],
                forall|k: int|
                    i <= k < self.nodes@.len() ==> expand_if_folder(#[trigger] self.nodes@[k]@)
                        == target[k],
            decreases self.nodes@.len() - i,
        {
            if self.nodes[i].node_type == NodeType::Folder {
                self.set_expanded(i, true);
            }
            i = i + 1;
        }
        assert(nodes_view(self.nodes@) =~= target);
        self.rebuild_from_proxies(proxies);
    }

    /// Sets the expanded flag of one line, stated over the lines' views.
    fn set_expanded_at(&mut self, idx: usize, v: bool)
        requires
            idx < old(self).nodes@.len(),
        ensures
            nodes_view(final(self).nodes@) == nodes_view(old(self).nodes@).update(
                idx as int,
                with_expanded(old(self).nodes@[idx as int]@, v),
            ),
            final(self).sorted == old(self).sorted,
            final(self).sort_by_delay == old(self).sort_by_delay,
    {
        let ghost before = nodes_view(self.nodes@);
        self.set_expanded(idx, v);
        assert(nodes_view(self.nodes@) =~= before.update(idx as int, with_expanded(old(self).nodes@[idx as int]@, v)));
    }

    /// Sets the expanded flag of one line.
    fn set_expanded(&mut self, idx: usize, v: bool)
        requires
            idx < old(self).nodes@.len(),
        ensures
            final(self).nodes@.len() == old(self).nodes@.len(),
            final(self).nodes@[idx as int]@ == with_expanded(old(self).nodes@[idx as int]@, v),
            forall|k: int| 0 <= k < old(self).nodes@.len() && k != idx ==> final(self).nodes@[k]
                == old(self).nodes@[k],
            final(self).sorted == old(self).sorted,
            final(self).sort_by_delay == old(self).sort_by_delay,
            final(self).name_index == old(self).name_index,
    {
        self.nodes[idx].expanded = v;
    }

    /// The position of the first group line with this name.
    pub fn find_folder_index(&self, name: &str) -> (r: Option<usize>)
        ensures
            match r {
                Some(i) => folder_index_from(nodes_view(self.nodes@), name@, 0) == Some(i as int),
                None => folder_index_from(nodes_view(self.nodes@), name@, 0) is None,
            },
            r matches Some(i) ==> i < self.nodes@.len(),
    {
        let ghost nv = nodes_view(self.nodes@);
        let mut i: usize = 0;
        while i < self.nodes.len()
            invariant
                0 <= i <= self.nodes@.len(),
                nv == nodes_view(self.nodes@),
                folder_index_from(nv, name@, 0) == folder_index_from(nv, name@, i as int),
            decreases self.nodes@.len() - i,
        {
            if self.nodes[i].node_type == NodeType::Folder && text_eq(self.nodes[i].name.as_str(), name) {
                assert(nv[i as int].name == self.nodes@[i as int].name@);
                return Some(i);
            }
            i = i + 1;
        }
        None
    }

    /// Maps every name to the last line that carries it.
    pub fn rebuild_index(&mut self)
        ensures
            final(self).nodes == old(self).nodes,
            final(self).sorted == old(self).sorted,
            final(self).sort_by_delay == old(self).sort_by_delay,
            final(self).name_index@ == last_index_map(
                nodes_view(old(self).nodes@),
                old(self).nodes@.len() as int,
            ),
    {
        self.name_index.clear();
        let mut i: usize = 0;
        while i < self.nodes.len()
            invariant
                0 <= i <= self.nodes@.len(),
                self.nodes == old(self).nodes,
                self.sorted == old(self).sorted,
                self.sort_by_delay == old(self).sort_by_delay,
                self.name_index@ == last_index_map(nodes_view(self.nodes@), i as int),
            decreases self.nodes@.len() - i,
        {
            let nm = self.nodes[i].name.clone();
            assert(nodes_view(self.nodes@)[i as int].name == nm@);
            self.name_index.insert(nm, i);
            i = i + 1;
        }
    }

    pub fn node_at(&self, idx: usize) -> (r: Option<&NodeItem>)
        ensures
            idx < self.nodes@.len() ==> r == Some(&self.nodes@[idx as int]),
            idx >= self.nodes@.len() ==> r is None,
    {
        if idx < self.nodes.len() {
            Some(&self.nodes[idx])
        } else {
            None
        }
    }

    pub fn is_empty(&self) -> (r: bool)
        ensures
            r == (self.nodes@.len() == 0),
    {
        self.nodes.len() == 0
    }

    pub fn len(&self) -> (r: usize)
        ensures
            r == self.nodes@.len(),
    {
        self.nodes.len()
    }
}

impl Default for ProxyTree {
    fn default() -> (r: ProxyTree)
        ensures
            r.nodes@.len() == 0,
            r.name_index@ == Map::<Seq<char>, usize>::empty(),
            !r.sorted,
            !r.sort_by_delay,
    {
        ProxyTree::new()
    }
}

} // verus!
