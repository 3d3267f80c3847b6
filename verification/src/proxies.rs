use indexmap::IndexMap;
use vstd::prelude::*;

use crate::text::{concat3, decimal, u64_to_decimal};
use crate::tree::{
    after_set_expanded, clone_opt_string, new_proxy_map, folder_index_from, lookup, map_get, nodes_view,
    opt_string_view, proxy_entries, rebuilt, NodeType, NodeView, Proxy, ProxyTree,
};
use crate::tree::{history_view, key_index_from, map_get_mut, DelayRecord};

verus! {

/// The actions of the proxies tab.
#[derive(Clone, Copy, Debug, PartialEq, Eq, Structural)]
pub enum Key {
    MoveUp,
    MoveDown,
    /// Collapse the group under the cursor, or the group that holds it.
    Parent,
    /// Expand the group under the cursor, or jump to the group a link names.
    Expand,
    /// Expand or collapse a group; switch a group to the proxy under the cursor.
    Select,
    CollapseAll,
    ExpandAll,
    Refresh,
    SortByName,
    SortByDelay,
    ResetSort,
    TestDelay,
    TestAllDelay,
}

/// The settings that the tab reads: the test timeout in seconds and the default test URL.
pub struct ProxySettings {
    pub timeout: Option<u64>,
    pub test_url: Option<String>,
}

/// Work that the tab hands to the caller, which performs it against the core
/// and answers with [`Proxies::apply_proxies`] or [`Proxies::fail`].
pub enum Task {
    Nothing,
    /// Fetch all proxies again.
    Refresh,
    /// Switch `group` to `node`.
    SelectProxy { group: String, node: String, test_url: Option<String>, timeout_ms: u64 },
    /// Test the delay of every member of a group, giving up after `wait_secs`.
    TestGroup { name: String, test_url: Option<String>, timeout_ms: u64, wait_secs: u64 },
    /// Test the delay of one proxy, giving up after `wait_secs`.
    TestProxy { name: String, test_url: Option<String>, timeout_ms: u64, wait_secs: u64 },
    /// Test every group and every top-level proxy.
    TestAll { folders: Vec<String>, files: Vec<String>, timeout_ms: u64, wait_secs: u64 },
}

pub enum TaskView {
    Nothing,
    Refresh,
    SelectProxy { group: Seq<char>, node: Seq<char>, test_url: Option<Seq<char>>, timeout_ms: u64 },
    TestGroup { name: Seq<char>, test_url: Option<Seq<char>>, timeout_ms: u64, wait_secs: u64 },
    TestProxy { name: Seq<char>, test_url: Option<Seq<char>>, timeout_ms: u64, wait_secs: u64 },
    TestAll { folders: Seq<Seq<char>>, files: Seq<Seq<char>>, timeout_ms: u64, wait_secs: u64 },
}

impl View for Task {
    type V = TaskView;

    open spec fn view(&self) -> TaskView {
        match self {
            Task::Nothing => TaskView::Nothing,
            Task::Refresh => TaskView::Refresh,
            Task::SelectProxy { group, node, test_url, timeout_ms } => TaskView::SelectProxy {
                group: group@,
                node: node@,
                test_url: opt_string_view(*test_url),
                timeout_ms: *timeout_ms,
            },
            Task::TestGroup { name, test_url, timeout_ms, wait_secs } => TaskView::TestGroup {
                name: name@,
                test_url: opt_string_view(*test_url),
                timeout_ms: *timeout_ms,
                wait_secs: *wait_secs,
            },
            Task::TestProxy { name, test_url, timeout_ms, wait_secs } => TaskView::TestProxy {
                name: name@,
                test_url: opt_string_view(*test_url),
                timeout_ms: *timeout_ms,
                wait_secs: *wait_secs,
            },
            Task::TestAll { folders, files, timeout_ms, wait_secs } => TaskView::TestAll {
                folders: folders@.map_values(|s: String| s@),
                files: files@.map_values(|s: String| s@),
                timeout_ms: *timeout_ms,
                wait_secs: *wait_secs,
            },
        }
    }
}

/// The timeout in seconds, 5 when none is configured.
pub open spec fn timeout_secs(s: ProxySettings) -> u64 {
    match s.timeout {
        Some(t) => t,
        None => 5,
    }
}

/// The test timeout in milliseconds.
pub open spec fn timeout_ms(s: ProxySettings) -> u64 {
    (timeout_secs(s) * 1000) as u64
}

/// How long to wait for a test before giving up: the timeout (at least one second) plus three.
pub open spec fn wait_secs(s: ProxySettings) -> u64 {
    ((if timeout_secs(s) >= 1 {
        timeout_secs(s)
    } else {
        1
    }) + 3) as u64
}

/// The URL to test a proxy with: its own, else the configured one.
pub open spec fn test_url_for(
    e: Seq<(Seq<char>, ProxyView)>,
    name: Seq<char>,
    s: ProxySettings,
) -> Option<Seq<char>> {
    match lookup(e, name) {
        Some(p) => match p.test_url {
            Some(u) => Some(u),
            None => opt_string_view(s.test_url),
        },
        None => opt_string_view(s.test_url),
    }
}

use crate::tree::ProxyView;

/// Names of the lines that satisfy `f`, in order.
pub open spec fn names_where(nodes: Seq<NodeView>, f: spec_fn(NodeView) -> bool) -> Seq<Seq<char>> {
    nodes.filter(f).map_values(|n: NodeView| n.name)
}

/// Whether a key needs the test timeout.
pub open spec fn uses_timeout(key: Key) -> bool {
    key == Key::Select || key == Key::TestDelay || key == Key::TestAllDelay
}

/// The proxies tab: the proxies as the core last reported them, their tree, and
/// the status line.
pub struct Proxies {
    pub tree: ProxyTree,
    pub proxies: IndexMap<String, Proxy>,
    pub error: Option<String>,
    /// When the running test or switch started, in the caller's clock.
    pub testing_since: Option<u64>,
}

fn selected_or_zero(state: &Option<usize>) -> (r: usize)
    ensures
        r == match *state {
            Some(i) => i,
            None => 0,
        },
{
    match state {
        Some(i) => *i,
        None => 0,
    }
}

impl Proxies {
    /// A tab that knows no proxies yet.
    pub fn new() -> (r: Proxies)
        ensures
            proxy_entries(r.proxies).len() == 0,
            r.tree.nodes@.len() == 0,
            !r.tree.sorted,
            !r.tree.sort_by_delay,
            r.error is None,
            r.testing_since is None,
    {
        Proxies { tree: ProxyTree::new(), proxies: new_proxy_map(), error: None, testing_since: None }
    }

    /// Starts the tab: shows that proxies are loading and asks for them.
    pub fn init(&mut self) -> (task: Task)
        ensures
            final(self).proxies == old(self).proxies,
            final(self).tree == old(self).tree,
            final(self).testing_since == old(self).testing_since,
            final(self).error matches Some(m) && m@ == "Loading proxies..."@,
            task@ == TaskView::Refresh,
    {
        self.error = Some(crate::text::text_to_string("Loading proxies..."));
        Task::Refresh
    }

    /// Takes the first answer of the core: the proxies and a fresh tree built from them.
    pub fn apply_initial(&mut self, proxies: IndexMap<String, Proxy>)
        ensures
            final(self).proxies == proxies,
            nodes_view(final(self).tree.nodes@) == rebuilt(
                Seq::empty(),
                proxy_entries(proxies),
                false,
                false,
            ),
            !final(self).tree.sorted,
            !final(self).tree.sort_by_delay,
            final(self).error is None,
            final(self).testing_since == old(self).testing_since,
    {
        let mut tree = ProxyTree::new();
        assert(nodes_view(tree.nodes@) =~= Seq::<NodeView>::empty());
        tree.rebuild_from_proxies(&proxies);
        self.tree = tree;
        self.proxies = proxies;
        self.error = None;
    }

    /// The URL to test a proxy with.
    fn test_url(&self, name: &str, settings: &ProxySettings) -> (r: Option<String>)
        ensures
            opt_string_view(r) == test_url_for(proxy_entries(self.proxies), name@, *settings),
    {
        match map_get(&self.proxies, name) {
            Some(p) => match &p.test_url {
                Some(u) => Some(u.clone()),
                None => clone_opt_string(&settings.test_url),
            },
            None => clone_opt_string(&settings.test_url),
        }
    }

    /// Takes a fresh answer of the core: the new proxies, the tree rebuilt from
    /// them, and a clear status.
    pub fn apply_proxies(&mut self, proxies: IndexMap<String, Proxy>)
        ensures
            final(self).proxies == proxies,
            nodes_view(final(self).tree.nodes@) == rebuilt(
                nodes_view(old(self).tree.nodes@),
                proxy_entries(proxies),
                old(self).tree.sorted,
                old(self).tree.sort_by_delay,
            ),
            final(self).tree.sorted == old(self).tree.sorted,
            final(self).tree.sort_by_delay == old(self).tree.sort_by_delay,
            final(self).error is None,
            final(self).testing_since is None,
    {
        self.proxies = proxies;
        self.tree.rebuild_from_proxies(&self.proxies);
        self.error = None;
        self.testing_since = None;
    }

    /// Reports that a test or switch failed.
    pub fn fail(&mut self, msg: Option<String>)
        ensures
            final(self).proxies == old(self).proxies,
            final(self).tree == old(self).tree,
            final(self).error == msg,
            final(self).testing_since is None,
    {
        self.error = msg;
        self.testing_since = None;
    }

    /// Handles a key against the list whose selection is `state`, at time `now`;
    /// returns the work to be done against the core.
    pub fn dispatch_key(
        &mut self,
        key: Key,
        state: &mut Option<usize>,
        settings: &ProxySettings,
        now: u64,
    ) -> (task: Task)
        requires
            uses_timeout(key) ==> timeout_secs(*settings) <= u64::MAX / 1000,
        ensures
            final(self).proxies == old(self).proxies,
            (key is MoveUp || key is MoveDown) ==> final(self).tree == old(self).tree,
            ({
                let cur = match *old(state) {
                    Some(i) => i as int,
                    None => 0,
                };
                let nodes = nodes_view(old(self).tree.nodes@);
                let e = proxy_entries(old(self).proxies);
                let srt = old(self).tree.sorted;
                let dly = old(self).tree.sort_by_delay;
                let here = if 0 <= cur < nodes.len() {
                    Some(nodes[cur])
                } else {
                    None
                };
                let unchanged = nodes_view(final(self).tree.nodes@) == nodes
                    && final(self).tree.sorted == srt && final(self).tree.sort_by_delay == dly
                    && final(self).error == old(self).error && final(self).testing_since
                    == old(self).testing_since;
                let status_kept = final(self).tree.sorted == srt && final(self).tree.sort_by_delay
                    == dly && final(self).error == old(self).error && final(self).testing_since
                    == old(self).testing_since;
                match key {
                    Key::MoveUp => unchanged && task@ == TaskView::Nothing && *final(state) == (
                    if cur > 0 {
                        Some((cur - 1) as usize)
                    } else {
                        *old(state)
                    }),
                    Key::MoveDown => unchanged && task@ == TaskView::Nothing && *final(state) == (
                    if cur + 1 < nodes.len() {
                        Some((cur + 1) as usize)
                    } else {
                        *old(state)
                    }),
                    Key::Parent => task@ == TaskView::Nothing && match here {
                        None => unchanged && *final(state) == *old(state),
                        Some(n) => {
                            let target = if n.node_type == NodeType::Folder {
                                Some(n.name)
                            } else {
                                n.parent
                            };
                            match target {
                                None => unchanged && *final(state) == *old(state),
                                Some(g) => {
                                    let after = after_set_expanded(nodes, g, Some(false), e, srt, dly);
                                    &&& status_kept
                                    &&& nodes_view(final(self).tree.nodes@) == after
                                    &&& *final(state) == match folder_index_from(after, g, 0) {
                                        Some(i) => Some(i as usize),
                                        None => *old(state),
                                    }
                                },
                            }
                        },
                    },
                    Key::Expand => task@ == TaskView::Nothing && match here {
                        None => unchanged && *final(state) == *old(state),
                        Some(n) => if n.node_type == NodeType::Folder {
                            &&& status_kept
                            &&& nodes_view(final(self).tree.nodes@) == after_set_expanded(
                                nodes,
                                n.name,
                                Some(true),
                                e,
                                srt,
                                dly,
                            )
                            &&& *final(state) == *old(state)
                        } else if n.node_type == NodeType::Link {
                            unchanged && *final(state) == match folder_index_from(nodes, n.name, 0) {
                                Some(i) => Some(i as usize),
                                None => *old(state),
                            }
                        } else {
                            unchanged && *final(state) == *old(state)
                        },
                    },
                    Key::Select => *final(state) == *old(state) && match here {
                        None => unchanged && task@ == TaskView::Nothing,
                        Some(n) => if n.node_type == NodeType::Folder {
                            &&& status_kept
                            &&& task@ == TaskView::Nothing
                            &&& nodes_view(final(self).tree.nodes@) == after_set_expanded(
                                nodes,
                                n.name,
                                None,
                                e,
                                srt,
                                dly,
                            )
                        } else {
                            match n.parent {
                                None => unchanged && task@ == TaskView::Nothing,
                                Some(g) => {
                                    &&& nodes_view(final(self).tree.nodes@) == nodes
                                    &&& final(self).tree.sorted == srt
                                    &&& final(self).tree.sort_by_delay == dly
                                    &&& final(self).error matches Some(m) && m@ == "Switching to "@
                                        + n.name + "..."@
                                    &&& final(self).testing_since == Some(now)
                                    &&& task@ == TaskView::SelectProxy {
                                        group: g,
                                        node: n.name,
                                        test_url: test_url_for(e, n.name, *settings),
                                        timeout_ms: timeout_ms(*settings),
                                    }
                                },
                            }
                        },
                    },
                    Key::CollapseAll => {
                        &&& task@ == TaskView::Nothing
                        &&& *final(state) == *old(state)
                        &&& status_kept
                        &&& nodes_view(final(self).tree.nodes@) == rebuilt(
                            crate::tree::collapse_lines(nodes),
                            e,
                            srt,
                            dly,
                        )
                    },
                    Key::ExpandAll => {
                        &&& task@ == TaskView::Nothing
                        &&& *final(state) == *old(state)
                        &&& status_kept
                        &&& nodes_view(final(self).tree.nodes@) == rebuilt(
                            crate::tree::expand_lines(nodes),
                            e,
                            srt,
                            dly,
                        )
                    },
                    Key::Refresh => unchanged && *final(state) == *old(state) && task@
                        == TaskView::Refresh,
                    Key::SortByName | Key::SortByDelay | Key::ResetSort => {
                        let s2 = key == Key::SortByName && !srt;
                        let d2 = key == Key::SortByDelay && !dly;
                        &&& task@ == TaskView::Nothing
                        &&& *final(state) == *old(state)
                        &&& final(self).tree.sorted == s2
                        &&& final(self).tree.sort_by_delay == d2
                        &&& final(self).error == old(self).error
                        &&& final(self).testing_since == old(self).testing_since
                        &&& nodes_view(final(self).tree.nodes@) == rebuilt(nodes, e, s2, d2)
                    },
                    Key::TestDelay => *final(state) == *old(state) && nodes_view(
                        final(self).tree.nodes@,
                    ) == nodes && final(self).tree.sorted == srt && final(self).tree.sort_by_delay
                        == dly && match here {
                        None => unchanged && task@ == TaskView::Nothing,
                        Some(n) => {
                            &&& final(self).testing_since == Some(now)
                            &&& if n.node_type == NodeType::Folder {
                                &&& final(self).error matches Some(m) && m@ == "Testing group "@
                                    + n.name + "..."@
                                &&& task@ == TaskView::TestGroup {
                                    name: n.name,
                                    test_url: test_url_for(e, n.name, *settings),
                                    timeout_ms: timeout_ms(*settings),
                                    wait_secs: wait_secs(*settings),
                                }
                            } else {
                                &&& final(self).error matches Some(m) && m@ == "Testing "@ + n.name
                                    + "..."@
                                &&& task@ == TaskView::TestProxy {
                                    name: n.name,
                                    test_url: test_url_for(e, n.name, *settings),
                                    timeout_ms: timeout_ms(*settings),
                                    wait_secs: wait_secs(*settings),
                                }
                            }
                        },
                    },
                    Key::TestAllDelay => {
                        let folders = names_where(
                            nodes,
                            |n: NodeView| n.node_type == NodeType::Folder,
                        );
                        let files = names_where(
                            nodes,
                            |n: NodeView| n.node_type == NodeType::File && n.depth == 0,
                        );
                        let total = folders.len() + files.len();
                        &&& *final(state) == *old(state)
                        &&& nodes_view(final(self).tree.nodes@) == nodes
                        &&& final(self).tree.sorted == srt
                        &&& final(self).tree.sort_by_delay == dly
                        &&& if total == 0 {
                            unchanged && task@ == TaskView::Nothing
                        } else {
                            &&& final(self).error matches Some(m) && m@ == "Testing all ("@
                                + decimal(total as nat) + " groups/nodes)..."@
                            &&& final(self).testing_since == Some(now)
                            &&& task@ == TaskView::TestAll {
                                folders,
                                files,
                                timeout_ms: timeout_ms(*settings),
                                wait_secs: wait_secs(*settings),
                            }
                        }
                    },
                }
            }),
    {
        let current = selected_or_zero(state);
        match key {
            Key::MoveUp => {
                if current > 0 {
                    *state = Some(current - 1);
                }
                Task::Nothing
            },
            Key::MoveDown => {
                if current < self.tree.len() && current + 1 < self.tree.len() {
                    *state = Some(current + 1);
                }
                Task::Nothing
            },
            Key::Parent => {
                let target = match self.tree.node_at(current) {
                    Some(n) => if n.node_type == NodeType::Folder {
                        Some(n.name.clone())
                    } else {
                        clone_opt_string(&n.parent)
                    },
                    None => None,
                };
                if let Some(g) = target {
                    self.tree.collapse_at(g.as_str(), &self.proxies);
                    if let Some(idx) = self.tree.find_folder_index(g.as_str()) {
                        *state = Some(idx);
                    }
                }
                Task::Nothing
            },
            Key::Expand => {
                let info = match self.tree.node_at(current) {
                    Some(n) => Some((n.name.clone(), n.node_type)),
                    None => None,
                };
                if let Some((name, ntype)) = info {
                    match ntype {
                        NodeType::Folder => {
                            self.tree.expand_at(name.as_str(), &self.proxies);
                        },
                        NodeType::Link => {
                            if let Some(idx) = self.tree.find_folder_index(name.as_str()) {
                                *state = Some(idx);
                            }
                        },
                        NodeType::File => {},
                    }
                }
                Task::Nothing
            },
            Key::Select => {
                let info = match self.tree.node_at(current) {
                    Some(n) => Some((n.name.clone(), n.node_type, clone_opt_string(&n.parent))),
                    None => None,
                };
                match info {
                    None => Task::Nothing,
                    Some((name, ntype, parent)) => {
                        if ntype == NodeType::Folder {
                            self.tree.toggle_expand_at(name.as_str(), &self.proxies);
                            Task::Nothing
                        } else {
                            match parent {
                                None => Task::Nothing,
                                Some(group) => {
                                    let secs = match settings.timeout {
                                        Some(t) => t,
                                        None => 5,
                                    };
                                    let test_url = self.test_url(name.as_str(), settings);
                                    self.error = Some(concat3("Switching to ", name.as_str(), "..."));
                                    self.testing_since = Some(now);
                                    Task::SelectProxy { group, node: name, test_url, timeout_ms: secs * 1000 }
                                },
                            }
                        }
                    },
                }
            },
            Key::CollapseAll => {
                self.tree.collapse_all(&self.proxies);
                Task::Nothing
            },
            Key::ExpandAll => {
                self.tree.expand_all(&self.proxies);
                Task::Nothing
            },
            Key::Refresh => Task::Refresh,
            Key::SortByName => {
                self.tree.sorted = !self.tree.sorted;
                self.tree.sort_by_delay = false;
                self.tree.rebuild_from_proxies(&self.proxies);
                Task::Nothing
            },
            Key::SortByDelay => {
                self.tree.sort_by_delay = !self.tree.sort_by_delay;
                self.tree.sorted = false;
                self.tree.rebuild_from_proxies(&self.proxies);
                Task::Nothing
            },
            Key::ResetSort => {
                self.tree.sorted = false;
                self.tree.sort_by_delay = false;
                self.tree.rebuild_from_proxies(&self.proxies);
                Task::Nothing
            },
            Key::TestDelay => {
                let info = match self.tree.node_at(current) {
                    Some(n) => Some((n.name.clone(), n.node_type)),
                    None => None,
                };
                match info {
                    None => Task::Nothing,
                    Some((name, ntype)) => {
                        let secs = match settings.timeout {
                            Some(t) => t,
                            None => 5,
                        };
                        let timeout = secs * 1000;
                        let test_url = self.test_url(name.as_str(), settings);
                        let wait = (if secs >= 1 {
                            secs
                        } else {
                            1
                        }) + 3;
                        if ntype == NodeType::Folder {
                            self.error = Some(concat3("Testing group ", name.as_str(), "..."));
                            self.testing_since = Some(now);
                            Task::TestGroup { name, test_url, timeout_ms: timeout, wait_secs: wait }
                        } else {
                            self.error = Some(concat3("Testing ", name.as_str(), "..."));
                            self.testing_since = Some(now);
                            Task::TestProxy { name, test_url, timeout_ms: timeout, wait_secs: wait }
                        }
                    },
                }
            },
            Key::TestAllDelay => {
                let ghost nodes = nodes_view(self.tree.nodes@);
                let ghost ff = |n: NodeView| n.node_type == NodeType::Folder;
                let ghost fl = |n: NodeView| n.node_type == NodeType::File && n.depth == 0;
                let mut folders: Vec<String> = Vec::new();
                let mut files: Vec<String> = Vec::new();
                let mut i: usize = 0;
                while i < self.tree.nodes.len()
                    invariant
                        0 <= i <= self.tree.nodes@.len(),
                        nodes == nodes_view(self.tree.nodes@),
                        ff == (|n: NodeView| n.node_type == NodeType::Folder),
                        fl == (|n: NodeView| n.node_type == NodeType::File && n.depth == 0),
                        folders@.map_values(|s: String| s@) == names_where(nodes.take(i as int), ff),
                        files@.map_values(|s: String| s@) == names_where(nodes.take(i as int), fl),
                        folders@.len() + files@.len() <= i,
                    decreases self.tree.nodes@.len() - i,
                {
                    let ghost pre = nodes.take(i as int);
                    assert(nodes.take(i + 1) =~= pre.push(nodes[i as int]));
                    assert(pre.push(nodes[i as int]).drop_last() =~= pre);
                    assert(nodes[i as int] == self.tree.nodes@[i as int]@);
                    let ghost fo = folders@;
                    let ghost fi = files@;
                    if self.tree.nodes[i].node_type == NodeType::Folder {
                        folders.push(self.tree.nodes[i].name.clone());
                        assert(folders@.map_values(|s: String| s@) =~= fo.map_values(|s: String| s@).push(nodes[i as int].name));
                    }
                    if self.tree.nodes[i].node_type == NodeType::File && self.tree.nodes[i].depth == 0 {
                        files.push(self.tree.nodes[i].name.clone());
                        assert(files@.map_values(|s: String| s@) =~= fi.map_values(|s: String| s@).push(nodes[i as int].name));
                    }
                    proof {
                        reveal_with_fuel(Seq::<_>::filter, 1);
                        assert(pre.push(nodes[i as int]).filter(ff) == if ff(nodes[i as int]) {
                            pre.filter(ff).push(nodes[i as int])
                        } else {
                            pre.filter(ff)
                        });
                        assert(pre.push(nodes[i as int]).filter(fl) == if fl(nodes[i as int]) {
                            pre.filter(fl).push(nodes[i as int])
                        } else {
                            pre.filter(fl)
                        });
                        assert(names_where(nodes.take(i + 1), ff) =~= folders@.map_values(|s: String| s@));
                        assert(names_where(nodes.take(i + 1), fl) =~= files@.map_values(|s: String| s@));
                    }
                    i = i + 1;
                }
                assert(nodes.take(self.tree.nodes@.len() as int) =~= nodes);
                let total = folders.len() + files.len();
                if total == 0 {
                    return Task::Nothing;
                }
                let secs = match settings.timeout {
                    Some(t) => t,
                    None => 5,
                };
                let wait = (if secs >= 1 {
                    secs
                } else {
                    1
                }) + 3;
                let count = u64_to_decimal(total as u64);
                self.error = Some(concat3("Testing all (", count.as_str(), " groups/nodes)..."));
                self.testing_since = Some(now);
                Task::TestAll { folders, files, timeout_ms: secs * 1000, wait_secs: wait }
            },
        }
    }
}

/// The entries with delay `d` added to the history of the proxy named `name`;
/// unchanged when `d` is 0 or no proxy has that name.
pub open spec fn with_delay(e: Seq<(Seq<char>, ProxyView)>, name: Seq<char>, d: u64) -> Seq<(Seq<char>, ProxyView)> {
    if d == 0 {
        e
    } else {
        match key_index_from(e, name, 0) {
            Some(i) => e.update(i, (e[i].0, ProxyView { history: e[i].1.history.push(d), ..e[i].1 })),
            None => e,
        }
    }
}

/// The entries after the first `n` measured delays are recorded, in order.
pub open spec fn with_delays(e: Seq<(Seq<char>, ProxyView)>, delays: Seq<(Seq<char>, u64)>, n: int) -> Seq<
    (Seq<char>, ProxyView),
>
    decreases n,
{
    if n <= 0 {
        e
    } else {
        with_delay(with_delays(e, delays, n - 1), delays[n - 1].0, delays[n - 1].1)
    }
}

pub open spec fn delays_view(d: Seq<(String, u64)>) -> Seq<(Seq<char>, u64)> {
    d.map_values(|p: (String, u64)| (p.0@, p.1))
}

proof fn lemma_key_index_from(e: Seq<(Seq<char>, ProxyView)>, k: Seq<char>, i: int)
    requires
        0 <= i,
    ensures
        key_index_from(e, k, i) matches Some(j) ==> i <= j < e.len() && e[j].0 == k,
    decreases e.len() - i,
{
    if i < e.len() && e[i].0 != k {
        lemma_key_index_from(e, k, i + 1);
    }
}

/// Records measured delays in the proxies' histories: each positive delay is
/// added to the history of the proxy it was measured for (a test of one
/// proxy passes one pair); a delay of 0 means the test failed and adds nothing.
pub fn record_delays(proxies: &mut IndexMap<String, Proxy>, delays: &Vec<(String, u64)>)
    ensures
        proxy_entries(*final(proxies)) == with_delays(
            proxy_entries(*old(proxies)),
            delays_view(delays@),
            delays@.len() as int,
        ),
{
    let ghost dv = delays_view(delays@);
    let mut i: usize = 0;
    while i < delays.len()
        invariant
            0 <= i <= delays@.len(),
            dv == delays_view(delays@),
            proxy_entries(*proxies) == with_delays(proxy_entries(*old(proxies)), dv, i as int),
        decreases delays@.len() - i,
    {
        let d = delays[i].1;
        assert(dv[i as int] == (delays@[i as int].0@, d));
        if d > 0 {
            let ghost before = proxy_entries(*proxies);
            proof {
                lemma_key_index_from(before, delays@[i as int].0@, 0);
            }
            match map_get_mut(proxies, delays[i].0.as_str()) {
                Some(p) => {
                    let ghost h = p.history@;
                    p.history.push(DelayRecord { delay: d });
                    proof {
                        assert(history_view(p.history@) =~= history_view(h).push(d));
                    }
                },
                None => {},
            }
        }
        i = i + 1;
    }
}

} // verus!
