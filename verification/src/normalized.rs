//! The normalized shapes that a program run's output is reduced to: one
//! record type per kind of event a network driver reports.

use vstd::prelude::*;

verus! {

/// A graphql endpoint.
#[derive(Clone, Debug)]
pub struct GraphqlUri(pub String);

/// A network's identifier.
#[derive(Clone, Debug)]
pub struct NetworkId(pub String);

/// A node's keypair name.
#[derive(Clone, Debug)]
pub struct NetworkKeypair(pub String);

/// A node's identifier.
#[derive(Clone, Debug)]
pub struct NodeId(pub String);

/// A node's log output.
#[derive(Clone, Debug)]
pub struct NodeLogs(pub String);

/// What role a node plays.
#[derive(Clone, Copy, Debug)]
pub enum NodeType {
    ArchiveNode,
    BlockProducer,
    SeedNode,
    SnarkCoordinator,
    SnarkWorker,
}

/// A network was created.
#[derive(Clone, Debug)]
pub struct NetworkCreate {
    pub network_id: NetworkId,
}

/// A network was deployed with its nodes.
#[derive(Clone, Debug)]
pub struct NetworkDeploy {
    pub network_id: NetworkId,
    pub nodes: Vec<(NodeId, NodeInfo)>,
}

/// A network was destroyed.
#[derive(Clone, Debug)]
pub struct NetworkDestroy {}

/// One node of a deployed network.
#[derive(Clone, Debug)]
pub struct NodeInfo {
    pub node_id: NodeId,
    pub node_type: NodeType,
    pub network_id: NetworkId,
    pub network_keypair: Option<NetworkKeypair>,
    pub graphql_uri: Option<GraphqlUri>,
}

/// A network's status was queried.
#[derive(Clone, Debug)]
pub struct NetworkStatus {}

/// A node was started.
#[derive(Clone, Debug)]
pub struct NodeStarted {
    pub node_id: NodeId,
    pub fresh_state: bool,
    pub git_commit: String,
}

/// A node was stopped.
#[derive(Clone, Debug)]
pub struct NodeStopped {
    pub node_id: NodeId,
}

/// A node's archive data was dumped.
#[derive(Clone, Debug)]
pub struct ArchiveDataDump {
    pub node_id: NodeId,
    pub data: String,
}

/// A node's logs were dumped.
#[derive(Clone, Debug)]
pub struct MinaLogsDump {
    pub node_id: NodeId,
    pub logs: String,
}

/// A node's precomputed blocks were dumped.
#[derive(Clone, Debug)]
pub struct PrecomputedBlockDump {
    pub node_id: NodeId,
    pub blocks: String,
}

/// A replayer run's logs.
#[derive(Clone, Debug)]
pub struct ReplayerRun {
    pub node_id: NodeId,
    pub logs: String,
}

/// What a driver must be able to report.
pub trait Output {
    fn network_create() -> NetworkCreate;

    fn network_deploy() -> NetworkDeploy;

    fn network_destroy() -> NetworkDestroy;

    fn network_status() -> NetworkStatus;

    fn node_started() -> NodeStarted;

    fn node_stopped() -> NodeStopped;

    fn archive_data_dump() -> ArchiveDataDump;

    fn mina_logs_dump() -> MinaLogsDump;

    fn precomputed_block_dump() -> PrecomputedBlockDump;

    fn replayer_run() -> ReplayerRun;
}

} // verus!
