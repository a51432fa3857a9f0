//! Cluster membership: configs of voters, the nodes of a cluster, and the
//! membership state that a raft node tracks.

pub mod into_nodes;
pub mod membership;
pub mod effective_membership;
pub mod membership_state;
pub mod stored_membership;
