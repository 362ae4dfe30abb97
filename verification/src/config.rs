//! Swarm configuration: where the configuration file lives, how a fresh
//! swarm is numbered, and how a node finds itself and its peers in it.

use vstd::prelude::*;
use crate::feed::lemma_filter_elements_come_from_source;
use crate::records::Duplicate;

verus! {

/// One node of the swarm: its id, its consensus port and its key pair in
/// text form.
#[derive(Debug)]
pub struct NodeConfig {
    pub id: u16,
    pub port: u16,
    pub secret_key: String,
    pub public_key: String,
}

impl Duplicate for NodeConfig {
    fn duplicate(&self) -> (copy: Self) {
        NodeConfig {
            id: self.id,
            port: self.port,
            secret_key: self.secret_key.clone(),
            public_key: self.public_key.clone(),
        }
    }
}

/// The directory that holds the workspace's configuration file, among the
/// current directory and its ancestors (nearest first, `has_lock[i]` telling
/// whether the `i`-th holds `Cargo.lock`): the nearest that holds the lock
/// file. `None` means that none does, and the current directory is used.
pub fn workspace_root_index(has_lock: &Vec<bool>) -> (found: Option<usize>)
    ensures
        match found {
            Some(i) => {
                &&& i < has_lock@.len()
                &&& has_lock@[i as int]
                &&& forall|j: int| 0 <= j < i ==> !has_lock@[j]
            },
            None => forall|j: int| 0 <= j < has_lock@.len() ==> !has_lock@[j],
        },
{
    let mut i: usize = 0;
    while i < has_lock.len()
        invariant
            i <= has_lock@.len(),
            forall|j: int| 0 <= j < i ==> !has_lock@[j],
        decreases has_lock@.len() - i,
    {
        if has_lock[i] {
            return Some(i);
        }
        i = i + 1;
    }
    None
}

/// A fresh swarm: node `i + 1` gets the `i`-th key pair (secret, public)
/// and the port `base_port + i + 1`.
pub fn numbered_configs(keys: Vec<(String, String)>, base_port: u16) -> (configs: Vec<NodeConfig>)
    requires
        base_port + keys@.len() <= u16::MAX,
    ensures
        configs@.len() == keys@.len(),
        forall|i: int|
            0 <= i < keys@.len() ==> {
                &&& #[trigger] configs@[i].id == i + 1
                &&& configs@[i].port == base_port + i + 1
                &&& configs@[i].secret_key == keys@[i].0
                &&& configs@[i].public_key == keys@[i].1
            },
{
    let mut configs: Vec<NodeConfig> = Vec::new();
    let mut i: usize = 0;
    while i < keys.len()
        invariant
            i <= keys@.len(),
            base_port + keys@.len() <= u16::MAX,
            configs@.len() == i,
            forall|j: int|
                0 <= j < i ==> {
                    &&& #[trigger] configs@[j].id == j + 1
                    &&& configs@[j].port == base_port + j + 1
                    &&& configs@[j].secret_key == keys@[j].0
                    &&& configs@[j].public_key == keys@[j].1
                },
        decreases keys@.len() - i,
    {
        let id: u16 = (i + 1) as u16;
        configs.push(
            NodeConfig {
                id,
                port: base_port + id,
                secret_key: keys[i].0.clone(),
                public_key: keys[i].1.clone(),
            },
        );
        i = i + 1;
    }
    configs
}

/// The first configuration with the given id.
pub fn find_config(configs: &Vec<NodeConfig>, id: u16) -> (found: Option<usize>)
    ensures
        match found {
            Some(i) => {
                &&& i < configs@.len()
                &&& configs@[i as int].id == id
                &&& forall|j: int| 0 <= j < i ==> configs@[j].id != id
            },
            None => forall|j: int| 0 <= j < configs@.len() ==> configs@[j].id != id,
        },
{
    let mut i: usize = 0;
    while i < configs.len()
        invariant
            i <= configs@.len(),
            forall|j: int| 0 <= j < i ==> configs@[j].id != id,
        decreases configs@.len() - i,
    {
        if configs[i].id == id {
            return Some(i);
        }
        i = i + 1;
    }
    None
}

/// The configurations of the other nodes.
pub open spec fn others(configs: Seq<NodeConfig>, my_id: u16) -> Seq<NodeConfig> {
    configs.filter(|c: NodeConfig| c.id != my_id)
}

/// The nodes other than `my_id`, in configuration order: the peers that a
/// node registers beside itself.
pub fn peer_configs(configs: &Vec<NodeConfig>, my_id: u16) -> (peers: Vec<NodeConfig>)
    ensures
        peers@ == others(configs@, my_id),
        peers@ == configs@.filter(|c: NodeConfig| c.id != my_id),
{
    let mut peers: Vec<NodeConfig> = Vec::new();
    let mut i: usize = 0;
    while i < configs.len()
        invariant
            i <= configs@.len(),
            peers@ == others(configs@.take(i as int), my_id),
        decreases configs@.len() - i,
    {
        proof {
            let t = configs@.take(i as int + 1);
            assert(t.drop_last() =~= configs@.take(i as int));
            assert(t.last() == configs@[i as int]);
            reveal(Seq::filter);
        }
        if configs[i].id != my_id {
            peers.push(configs[i].duplicate());
        }
        i = i + 1;
    }
    assert(configs@.take(configs@.len() as int) =~= configs@);
    peers
}

/// The peers of a node are unchanged copies of the swarm's configurations:
/// the other nodes, each with its own id, port and keys, all of them, in
/// configuration order; the node itself is not among them.
pub proof fn lemma_peers_are_unchanged_configs(configs: Seq<NodeConfig>, my_id: u16)
    ensures
        others(configs, my_id) == configs.filter(|c: NodeConfig| c.id != my_id),
        others(configs, my_id).len() <= configs.len(),
        forall|i: int|
            0 <= i < others(configs, my_id).len() ==> {
                &&& configs.contains(#[trigger] others(configs, my_id)[i])
                &&& others(configs, my_id)[i].id != my_id
            },
        forall|i: int|
            0 <= i < configs.len() && configs[i].id != my_id ==> others(configs, my_id).contains(
                #[trigger] configs[i],
            ),
{
    broadcast use vstd::seq_lib::group_filter_ensures;

    lemma_filter_elements_come_from_source(configs, |c: NodeConfig| c.id != my_id);
    assert forall|i: int|
        0 <= i < configs.len() && configs[i].id != my_id implies others(configs, my_id).contains(
        #[trigger] configs[i],
    ) by {
        configs.lemma_filter_contains(|c: NodeConfig| c.id != my_id, i);
    }
}

/// The port of a node's captive portal: 8000 plus its id.
pub fn portal_port(id: u16) -> (port: u16)
    requires
        8000 + id <= u16::MAX,
    ensures
        port == 8000 + id,
{
    8000 + id
}

/// The port of a node's read-only state endpoint: 9000 plus its id.
pub fn state_port(id: u16) -> (port: u16)
    requires
        9000 + id <= u16::MAX,
    ensures
        port == 9000 + id,
{
    9000 + id
}

} // verus!
