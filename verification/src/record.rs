//! The flattened record: the validated description of one data-flow graph,
//! ready for instantiation. A record names its nodes, assigns each to a
//! daemon, and lists the links between their ports.

use vstd::prelude::*;
use vstd::seq_lib::*;

verus! {

/// One declared port of a node, with the tag of the payload type it carries.
#[derive(Clone, Copy, Debug, PartialEq, Eq, Structural)]
pub struct PortDesc {
    pub id: u64,
    pub port_type: u64,
}

/// What a node does in the graph.
#[derive(Clone, Copy, Debug, PartialEq, Eq, Structural)]
pub enum NodeKind {
    Source,
    Operator,
    Sink,
}

/// One node of the record: its identifier, the daemon it is placed on, its
/// kind, the loader extension its implementation needs (`0` for a built-in
/// node), its ports and its configuration values.
#[derive(Clone, Debug)]
pub struct NodeDesc {
    pub id: u64,
    pub runtime: u64,
    pub kind: NodeKind,
    pub ext: u64,
    pub inputs: Vec<PortDesc>,
    pub outputs: Vec<PortDesc>,
    pub config: Vec<u64>,
}

/// One directed link: `(from_node, from_port)` feeds `(to_node, to_port)`.
#[derive(Clone, Copy, Debug, PartialEq, Eq, Structural)]
pub struct Link {
    pub from_node: u64,
    pub from_port: u64,
    pub to_node: u64,
    pub to_port: u64,
}

/// The flattened record of one data-flow graph.
#[derive(Clone, Debug)]
pub struct DataFlowRecord {
    pub id: u64,
    pub nodes: Vec<NodeDesc>,
    pub links: Vec<Link>,
}

pub open spec fn has_node(nodes: Seq<NodeDesc>, nid: u64) -> bool {
    exists|i: int| 0 <= i < nodes.len() && nodes[i].id == nid
}

/// The node of `nodes` carrying `nid`; meaningful when `nid` is declared and
/// node identifiers are unique.
pub open spec fn node_of(nodes: Seq<NodeDesc>, nid: u64) -> NodeDesc {
    nodes[choose|i: int| 0 <= i < nodes.len() && nodes[i].id == nid]
}

pub open spec fn has_port(ports: Seq<PortDesc>, pid: u64) -> bool {
    exists|j: int| 0 <= j < ports.len() && ports[j].id == pid
}

/// The type tag of port `pid`; meaningful when `pid` is declared and port
/// identifiers are unique.
pub open spec fn port_type_of(ports: Seq<PortDesc>, pid: u64) -> u64 {
    ports[choose|j: int| 0 <= j < ports.len() && ports[j].id == pid].port_type
}

pub open spec fn unique_node_ids(nodes: Seq<NodeDesc>) -> bool {
    forall|i: int, j: int|
        0 <= i < j < nodes.len() ==> (#[trigger] nodes[i]).id != (#[trigger] nodes[j]).id
}

pub open spec fn unique_port_ids(ports: Seq<PortDesc>) -> bool {
    forall|i: int, j: int|
        0 <= i < j < ports.len() ==> (#[trigger] ports[i]).id != (#[trigger] ports[j]).id
}

/// Some link of `links` feeds input port `pid` of node `nid`.
pub open spec fn input_covered(links: Seq<Link>, nid: u64, pid: u64) -> bool {
    exists|c: int|
        0 <= c < links.len() && (#[trigger] links[c]).to_node == nid && links[c].to_port == pid
}

/// Both endpoints of `l` refer to declared ports of declared nodes, an
/// output feeding an input, and the two port types match.
pub open spec fn link_wf(nodes: Seq<NodeDesc>, l: Link) -> bool {
    &&& has_node(nodes, l.from_node)
    &&& has_node(nodes, l.to_node)
    &&& has_port(node_of(nodes, l.from_node).outputs@, l.from_port)
    &&& has_port(node_of(nodes, l.to_node).inputs@, l.to_port)
    &&& port_type_of(node_of(nodes, l.from_node).outputs@, l.from_port) == port_type_of(
        node_of(nodes, l.to_node).inputs@,
        l.to_port,
    )
}

impl DataFlowRecord {
    /// The record invariant the graph compiler promises: identifiers are
    /// unique, every link endpoint refers to a declared port with matching
    /// types on both sides, and each input port has exactly one incoming
    /// link.
    pub open spec fn wf(self) -> bool {
        &&& unique_node_ids(self.nodes@)
        &&& forall|i: int|
            0 <= i < self.nodes@.len() ==> unique_port_ids(
                (#[trigger] self.nodes@[i]).inputs@,
            ) && unique_port_ids(self.nodes@[i].outputs@)
        &&& forall|k: int| 0 <= k < self.links@.len() ==> link_wf(self.nodes@, #[trigger] self.links@[k])
        &&& forall|k1: int, k2: int|
            0 <= k1 < k2 < self.links@.len() ==> !((#[trigger] self.links@[k1]).to_node
                == (#[trigger] self.links@[k2]).to_node && self.links@[k1].to_port
                == self.links@[k2].to_port)
        &&& forall|i: int, j: int|
            0 <= i < self.nodes@.len() && 0 <= j < (#[trigger] self.nodes@[i]).inputs@.len()
                ==> input_covered(
                self.links@,
                self.nodes@[i].id,
                (#[trigger] self.nodes@[i].inputs@[j]).id,
            )
    }

    /// The daemon on which node `nid` is placed.
    pub open spec fn placement(self, nid: u64) -> u64 {
        node_of(self.nodes@, nid).runtime
    }
}

/// The identifiers of the nodes of `nodes` placed on daemon `t`, in record
/// order.
pub open spec fn assigned_ids(nodes: Seq<NodeDesc>, t: u64) -> Seq<u64>
    decreases nodes.len(),
{
    if nodes.len() == 0 {
        Seq::empty()
    } else {
        let rest = assigned_ids(nodes.drop_last(), t);
        if nodes.last().runtime == t {
            rest.push(nodes.last().id)
        } else {
            rest
        }
    }
}

/// Membership in `assigned_ids` is membership among the nodes placed there.
pub proof fn lemma_assigned_membership(nodes: Seq<NodeDesc>, t: u64, x: u64)
    ensures
        assigned_ids(nodes, t).contains(x) <==> exists|i: int|
            0 <= i < nodes.len() && nodes[i].id == x && (#[trigger] nodes[i]).runtime == t,
    decreases nodes.len(),
{
    if nodes.len() > 0 {
        let prefix = nodes.drop_last();
        let last = nodes.last();
        let ap = assigned_ids(prefix, t);
        let a = assigned_ids(nodes, t);
        lemma_assigned_membership(prefix, t, x);
        if a.contains(x) {
            let idx = choose|idx: int| 0 <= idx < a.len() && a[idx] == x;
            if last.runtime == t && idx == ap.len() {
                assert(nodes[nodes.len() - 1].id == x && nodes[nodes.len() - 1].runtime == t);
            } else {
                assert(ap[idx] == x);
                assert(ap.contains(x));
                let i = choose|i: int|
                    0 <= i < prefix.len() && prefix[i].id == x && (#[trigger] prefix[i]).runtime
                        == t;
                assert(nodes[i].id == x && nodes[i].runtime == t);
            }
        }
        if exists|i: int|
            0 <= i < nodes.len() && nodes[i].id == x && (#[trigger] nodes[i]).runtime == t {
            let i = choose|i: int|
                0 <= i < nodes.len() && nodes[i].id == x && (#[trigger] nodes[i]).runtime == t;
            if i < nodes.len() - 1 {
                assert(prefix[i].id == x && prefix[i].runtime == t);
                assert(ap.contains(x));
                let idx = choose|idx: int| 0 <= idx < ap.len() && ap[idx] == x;
                assert(a[idx] == x);
                assert(a.contains(x));
            } else {
                assert(a[a.len() - 1] == x);
                assert(a.contains(x));
            }
        }
    }
}

/// Some group of `m` is keyed by daemon `t`.
pub open spec fn covers(m: Seq<(u64, Vec<u64>)>, t: u64) -> bool {
    exists|k: int| 0 <= k < m.len() && (#[trigger] m[k]).0 == t
}

/// What `mapping` computes: groups keyed by daemon identifier, one group per
/// daemon that hosts at least one node, each group holding exactly the node
/// identifiers assigned to its daemon.
pub open spec fn mapping_wf(nodes: Seq<NodeDesc>, m: Seq<(u64, Vec<u64>)>) -> bool {
    &&& forall|k1: int, k2: int|
        0 <= k1 < k2 < m.len() ==> (#[trigger] m[k1]).0 != (#[trigger] m[k2]).0
    &&& forall|k: int|
        0 <= k < m.len() ==> (#[trigger] m[k]).1@ == assigned_ids(nodes, m[k].0) && m[k].1@.len()
            > 0
    &&& forall|i: int| 0 <= i < nodes.len() ==> covers(m, (#[trigger] nodes[i]).runtime)
}

impl DataFlowRecord {
    /// Groups the record's nodes by the daemon they are placed on: one entry
    /// per daemon that hosts at least one node, carrying the identifiers of
    /// the nodes assigned there.
    pub fn mapping(&self) -> (m: Vec<(u64, Vec<u64>)>)
        ensures
            mapping_wf(self.nodes@, m@),
    {
        let mut m: Vec<(u64, Vec<u64>)> = Vec::new();
        let n = self.nodes.len();
        let mut i: usize = 0;
        while i < n
            invariant
                i <= n,
                n == self.nodes@.len(),
                forall|k1: int, k2: int|
                    0 <= k1 < k2 < m@.len() ==> (#[trigger] m@[k1]).0 != (#[trigger] m@[k2]).0,
                forall|k: int|
                    0 <= k < m@.len() ==> (#[trigger] m@[k]).1@ == assigned_ids(
                        self.nodes@.take(i as int),
                        m@[k].0,
                    ) && m@[k].1@.len() > 0,
                forall|j: int|
                    0 <= j < i ==> covers(m@, (#[trigger] self.nodes@[j]).runtime),
            decreases n - i,
        {
            let ghost prefix = self.nodes@.take(i as int);
            let ghost prefix1 = self.nodes@.take(i + 1);
            let node = &self.nodes[i];
            let t = node.runtime;
            let mut found: bool = false;
            let mut idx: usize = 0;
            let mlen = m.len();
            for k in 0..mlen
                invariant
                    mlen == m@.len(),
                    !found ==> forall|k2: int| 0 <= k2 < k ==> (#[trigger] m@[k2]).0 != t,
                    found ==> idx < m@.len() && m@[idx as int].0 == t,
            {
                if m[k].0 == t {
                    found = true;
                    idx = k;
                }
            }
            proof {
                assert(prefix1.drop_last() =~= prefix);
                assert(prefix1.last() == self.nodes@[i as int]);
                assert forall|u: u64|
                    #[trigger] assigned_ids(prefix1, u) == if u == t {
                        assigned_ids(prefix, u).push(node.id)
                    } else {
                        assigned_ids(prefix, u)
                    } by {
                    assert(assigned_ids(prefix1, u) == if prefix1.last().runtime == u {
                        assigned_ids(prefix1.drop_last(), u).push(prefix1.last().id)
                    } else {
                        assigned_ids(prefix1.drop_last(), u)
                    });
                }
            }
            let ghost prev = m@;
            if found {
                let mut pair = m.swap_remove(idx);
                pair.1.push(node.id);
                m.push(pair);
                proof {
                    let ln = prev.len() as int;
                    assert forall|k: int| 0 <= k < m@.len() - 1 implies #[trigger] m@[k]
                        == if k == idx { prev[ln - 1] } else { prev[k] } by {}
                    assert(m@[m@.len() - 1].0 == t);
                    assert forall|k: int| 0 <= k < m@.len() - 1 implies (#[trigger] m@[k]).0
                        != t by {
                        if k == idx {
                            if idx != ln - 1 {
                                assert(prev[ln - 1].0 != prev[idx as int].0);
                            }
                        } else {
                            assert(prev[k].0 != prev[idx as int].0);
                        }
                    }
                    assert forall|j: int| 0 <= j < i + 1 implies covers(
                        m@,
                        (#[trigger] self.nodes@[j]).runtime,
                    ) by {
                        let u = self.nodes@[j].runtime;
                        if u == t {
                            assert(m@[m@.len() - 1].0 == u);
                        } else {
                            assert(covers(prev, u));
                            let k0 = choose|k0: int| 0 <= k0 < prev.len() && (#[trigger] prev[k0]).0 == u;
                            if k0 == ln - 1 && idx != ln - 1 {
                                assert(m@[idx as int].0 == u);
                            } else {
                                assert(m@[k0].0 == u);
                            }
                        }
                    }
                }
            } else {
                let mut group = Vec::new();
                group.push(node.id);
                m.push((t, group));
                proof {
                    if assigned_ids(prefix, t).len() > 0 {
                        let x = assigned_ids(prefix, t)[0];
                        assert(assigned_ids(prefix, t).contains(x));
                        lemma_assigned_membership(prefix, t, x);
                        let j = choose|j: int|
                            0 <= j < prefix.len() && prefix[j].id == x && (
                            #[trigger] prefix[j]).runtime == t;
                        assert(self.nodes@[j].runtime == t);
                        assert(covers(prev, t));
                        let k0 = choose|k0: int| 0 <= k0 < prev.len() && (#[trigger] prev[k0]).0 == t;
                        assert(false);
                    }
                    assert(m@[m@.len() - 1].1@ =~= assigned_ids(prefix1, t));
                    assert forall|j: int| #![trigger self.nodes@[j]] 0 <= j < i + 1
                        implies exists|k: int|
                        0 <= k < m@.len() && (#[trigger] m@[k]).0 == self.nodes@[j].runtime by {
                        let u = self.nodes@[j].runtime;
                        if u == t {
                            assert(m@[m@.len() - 1].0 == u);
                        } else {
                            let k0 = choose|k0: int| 0 <= k0 < prev.len() && prev[k0].0 == u;
                            assert(m@[k0].0 == u);
                        }
                    }
                }
            }
            proof {

                assert(forall|k: int|
                    0 <= k < m@.len() ==> (#[trigger] m@[k]).1@ == assigned_ids(
                        self.nodes@.take(i + 1),
                        m@[k].0,
                    ) && m@[k].1@.len() > 0);
                assert(forall|k1: int, k2: int|
                    0 <= k1 < k2 < m@.len() ==> (#[trigger] m@[k1]).0 != (#[trigger] m@[k2]).0);
            }
            i = i + 1;
        }
        proof {
            assert(self.nodes@.take(n as int) =~= self.nodes@);
        }
        m
    }
}

/// `mapping().keys()` exactly partitions the node set of the record: every
/// node's identifier lies in the group of its daemon, in no other group, and
/// groups hold nothing besides declared node identifiers.
pub proof fn lemma_mapping_partitions(nodes: Seq<NodeDesc>, m: Seq<(u64, Vec<u64>)>)
    requires
        mapping_wf(nodes, m),
        unique_node_ids(nodes),
    ensures
        forall|i: int|
            #![trigger nodes[i]]
            0 <= i < nodes.len() ==> exists|k: int|
                0 <= k < m.len() && (#[trigger] m[k]).1@.contains(nodes[i].id),
        forall|k1: int, k2: int, x: u64|
            0 <= k1 < m.len() && 0 <= k2 < m.len() && #[trigger] m[k1].1@.contains(x)
                && #[trigger] m[k2].1@.contains(x) ==> k1 == k2,
        forall|k: int, x: u64|
            0 <= k < m.len() && #[trigger] m[k].1@.contains(x) ==> has_node(nodes, x),
{
    assert forall|i: int| #![trigger nodes[i]] 0 <= i < nodes.len() implies exists|k: int|
        0 <= k < m.len() && (#[trigger] m[k]).1@.contains(nodes[i].id) by {
        let t = nodes[i].runtime;
        let k = choose|k: int| 0 <= k < m.len() && m[k].0 == t;
        lemma_assigned_membership(nodes, t, nodes[i].id);
        assert(m[k].1@.contains(nodes[i].id));
    }
    assert forall|k1: int, k2: int, x: u64|
        0 <= k1 < m.len() && 0 <= k2 < m.len() && #[trigger] m[k1].1@.contains(x)
            && #[trigger] m[k2].1@.contains(x) implies k1 == k2 by {
        lemma_assigned_membership(nodes, m[k1].0, x);
        lemma_assigned_membership(nodes, m[k2].0, x);
        let i1 = choose|i: int|
            0 <= i < nodes.len() && nodes[i].id == x && (#[trigger] nodes[i]).runtime == m[k1].0;
        let i2 = choose|i: int|
            0 <= i < nodes.len() && nodes[i].id == x && (#[trigger] nodes[i]).runtime == m[k2].0;
        assert(i1 == i2);
        if k1 != k2 {
            assert(m[k1].0 != m[k2].0);
        }
    }
    assert forall|k: int, x: u64| 0 <= k < m.len() && #[trigger] m[k].1@.contains(x) implies
        has_node(nodes, x) by {
        lemma_assigned_membership(nodes, m[k].0, x);
    }
}

/// With unique identifiers, looking a node up by its own identifier gives
/// that node.
pub proof fn lemma_node_of_self(nodes: Seq<NodeDesc>, i: int)
    requires
        unique_node_ids(nodes),
        0 <= i < nodes.len(),
    ensures
        has_node(nodes, nodes[i].id),
        node_of(nodes, nodes[i].id) == nodes[i],
{
    assert(has_node(nodes, nodes[i].id));
    let j = choose|j: int| 0 <= j < nodes.len() && nodes[j].id == nodes[i].id;
    assert(j == i);
}

/// In a well-formed record no two links are equal: each input port has at
/// most one incoming link.
pub proof fn lemma_links_distinct(r: DataFlowRecord, j1: int, j2: int)
    requires
        r.wf(),
        0 <= j1 < r.links@.len(),
        0 <= j2 < r.links@.len(),
        j1 != j2,
    ensures
        r.links@[j1] != r.links@[j2],
{
    if j1 < j2 {
        assert(!(r.links@[j1].to_node == r.links@[j2].to_node && r.links@[j1].to_port
            == r.links@[j2].to_port));
    } else {
        assert(!(r.links@[j2].to_node == r.links@[j1].to_node && r.links@[j2].to_port
            == r.links@[j1].to_port));
    }
}


/// With unique port identifiers, looking a port up by its identifier gives
/// that port.
pub proof fn lemma_port_of_self(ports: Seq<PortDesc>, j: int)
    requires
        unique_port_ids(ports),
        0 <= j < ports.len(),
    ensures
        has_port(ports, ports[j].id),
        port_type_of(ports, ports[j].id) == ports[j].port_type,
{
    assert(has_port(ports, ports[j].id));
    let k = choose|k: int| 0 <= k < ports.len() && ports[k].id == ports[j].id;
    assert(k == j);
}

fn ports_unique(ports: &Vec<PortDesc>) -> (r: bool)
    ensures
        r == unique_port_ids(ports@),
{
    let n = ports.len();
    let mut i: usize = 0;
    while i < n
        invariant
            i <= n,
            n == ports@.len(),
            forall|a: int, b: int|
                0 <= a < b < n && a < i ==> (#[trigger] ports@[a]).id != (#[trigger] ports@[b]).id,
        decreases n - i,
    {
        let mut j: usize = i + 1;
        while j < n
            invariant
                i < j <= n,
                n == ports@.len(),
                forall|b: int| i < b < j ==> (#[trigger] ports@[b]).id != ports@[i as int].id,
            decreases n - j,
        {
            if ports[j].id == ports[i].id {
                return false;
            }
            j = j + 1;
        }
        i = i + 1;
    }
    true
}

/// Finds the port with identifier `pid` and returns its type tag.
fn find_port_type(ports: &Vec<PortDesc>, pid: u64) -> (r: Option<u64>)
    requires
        unique_port_ids(ports@),
    ensures
        match r {
            Some(t) => has_port(ports@, pid) && t == port_type_of(ports@, pid),
            None => !has_port(ports@, pid),
        },
{
    let n = ports.len();
    let mut i: usize = 0;
    while i < n
        invariant
            i <= n,
            n == ports@.len(),
            unique_port_ids(ports@),
            forall|k: int| 0 <= k < i ==> (#[trigger] ports@[k]).id != pid,
        decreases n - i,
    {
        if ports[i].id == pid {
            proof {
                lemma_port_of_self(ports@, i as int);
            }
            return Some(ports[i].port_type);
        }
        i = i + 1;
    }
    proof {
        if has_port(ports@, pid) {
            let k = choose|k: int| 0 <= k < ports@.len() && ports@[k].id == pid;
            assert(false);
        }
    }
    None
}

fn find_node<'a>(nodes: &'a Vec<NodeDesc>, nid: u64) -> (r: Option<&'a NodeDesc>)
    requires
        unique_node_ids(nodes@),
    ensures
        match r {
            Some(n) => has_node(nodes@, nid) && *n == node_of(nodes@, nid),
            None => !has_node(nodes@, nid),
        },
{
    let n = nodes.len();
    let mut i: usize = 0;
    while i < n
        invariant
            i <= n,
            n == nodes@.len(),
            unique_node_ids(nodes@),
            forall|k: int| 0 <= k < i ==> (#[trigger] nodes@[k]).id != nid,
        decreases n - i,
    {
        if nodes[i].id == nid {
            proof {
                lemma_node_of_self(nodes@, i as int);
            }
            return Some(&nodes[i]);
        }
        i = i + 1;
    }
    proof {
        if has_node(nodes@, nid) {
            let k = choose|k: int| 0 <= k < nodes@.len() && nodes@[k].id == nid;
            assert(false);
        }
    }
    None
}

impl DataFlowRecord {
    /// Checks the record invariant: what the daemon validates before it
    /// accepts a `Create`.
    pub fn is_well_formed(&self) -> (r: bool)
        ensures
            r == self.wf(),
    {
        let n = self.nodes.len();
        // unique node identifiers
        let mut i: usize = 0;
        while i < n
            invariant
                i <= n,
                n == self.nodes@.len(),
                forall|a: int, b: int|
                    0 <= a < b < n && a < i ==> (#[trigger] self.nodes@[a]).id != (
                    #[trigger] self.nodes@[b]).id,
            decreases n - i,
        {
            let mut j: usize = i + 1;
            while j < n
                invariant
                    i < j <= n,
                    n == self.nodes@.len(),
                    forall|b: int|
                        i < b < j ==> (#[trigger] self.nodes@[b]).id != self.nodes@[i as int].id,
                decreases n - j,
            {
                if self.nodes[j].id == self.nodes[i].id {
                    return false;
                }
                j = j + 1;
            }
            i = i + 1;
        }
        assert(unique_node_ids(self.nodes@));
        // unique port identifiers within each node
        let mut i2: usize = 0;
        while i2 < n
            invariant
                i2 <= n,
                n == self.nodes@.len(),
                forall|a: int|
                    0 <= a < i2 ==> unique_port_ids((#[trigger] self.nodes@[a]).inputs@)
                        && unique_port_ids(self.nodes@[a].outputs@),
            decreases n - i2,
        {
            if !ports_unique(&self.nodes[i2].inputs) {
                return false;
            }
            if !ports_unique(&self.nodes[i2].outputs) {
                return false;
            }
            i2 = i2 + 1;
        }
        // every link joins declared ports of matching types
        let m = self.links.len();
        let mut k: usize = 0;
        while k < m
            invariant
                k <= m,
                m == self.links@.len(),
                n == self.nodes@.len(),
                unique_node_ids(self.nodes@),
                forall|a: int|
                    0 <= a < n ==> unique_port_ids((#[trigger] self.nodes@[a]).inputs@)
                        && unique_port_ids(self.nodes@[a].outputs@),
                forall|a: int| 0 <= a < k ==> link_wf(self.nodes@, #[trigger] self.links@[a]),
            decreases m - k,
        {
            let l = self.links[k];
            let from_ty: u64;
            match find_node(&self.nodes, l.from_node) {
                None => {
                    return false;
                },
                Some(fnode) => {
                    match find_port_type(&fnode.outputs, l.from_port) {
                        None => {
                            return false;
                        },
                        Some(t) => {
                            from_ty = t;
                        },
                    }
                },
            }
            match find_node(&self.nodes, l.to_node) {
                None => {
                    return false;
                },
                Some(tnode) => {
                    match find_port_type(&tnode.inputs, l.to_port) {
                        None => {
                            return false;
                        },
                        Some(t) => {
                            if t != from_ty {
                                return false;
                            }
                        },
                    }
                },
            }
            k = k + 1;
        }
        // each input port has at most one incoming link
        let mut k1: usize = 0;
        while k1 < m
            invariant
                k1 <= m,
                m == self.links@.len(),
                forall|a: int, b: int|
                    0 <= a < b < m && a < k1 ==> !((#[trigger] self.links@[a]).to_node == (
                    #[trigger] self.links@[b]).to_node && self.links@[a].to_port
                        == self.links@[b].to_port),
            decreases m - k1,
        {
            let mut k2: usize = k1 + 1;
            while k2 < m
                invariant
                    k1 < k2 <= m,
                    m == self.links@.len(),
                    forall|b: int|
                        k1 < b < k2 ==> !(self.links@[k1 as int].to_node == (
                        #[trigger] self.links@[b]).to_node && self.links@[k1 as int].to_port
                            == self.links@[b].to_port),
                decreases m - k2,
            {
                if self.links[k2].to_node == self.links[k1].to_node && self.links[k2].to_port
                    == self.links[k1].to_port {
                    return false;
                }
                k2 = k2 + 1;
            }
            k1 = k1 + 1;
        }
        // each input port has at least one incoming link
        let mut i3: usize = 0;
        while i3 < n
            invariant
                i3 <= n,
                n == self.nodes@.len(),
                m == self.links@.len(),
                forall|a: int, b: int|
                    0 <= a < i3 && 0 <= b < (#[trigger] self.nodes@[a]).inputs@.len()
                        ==> input_covered(
                        self.links@,
                        self.nodes@[a].id,
                        (#[trigger] self.nodes@[a].inputs@[b]).id,
                    ),
            decreases n - i3,
        {
            let np = self.nodes[i3].inputs.len();
            let mut b: usize = 0;
            while b < np
                invariant
                    b <= np,
                    i3 < n,
                    n == self.nodes@.len(),
                    m == self.links@.len(),
                    np == self.nodes@[i3 as int].inputs@.len(),
                    forall|b2: int|
                        0 <= b2 < b ==> input_covered(
                            self.links@,
                            self.nodes@[i3 as int].id,
                            (#[trigger] self.nodes@[i3 as int].inputs@[b2]).id,
                        ),
                decreases np - b,
            {
                let pid = self.nodes[i3].inputs[b].id;
                let nid = self.nodes[i3].id;
                let mut covered: bool = false;
                let mut c: usize = 0;
                while c < m
                    invariant
                        c <= m,
                        m == self.links@.len(),
                        covered ==> input_covered(self.links@, nid, pid),
                        !covered ==> forall|c2: int|
                            0 <= c2 < c ==> !((#[trigger] self.links@[c2]).to_node == nid
                                && self.links@[c2].to_port == pid),
                    decreases m - c,
                {
                    if self.links[c].to_node == nid && self.links[c].to_port == pid {
                        covered = true;
                    }
                    c = c + 1;
                }
                if !covered {
                    proof {
                        if input_covered(self.links@, nid, pid) {
                            let c2 = choose|c2: int|
                                0 <= c2 < self.links@.len() && (#[trigger] self.links@[c2]).to_node
                                    == nid && self.links@[c2].to_port == pid;
                            assert(false);
                        }
                    }
                    return false;
                }
                b = b + 1;
            }
            i3 = i3 + 1;
        }
        true
    }
}

} // verus!
