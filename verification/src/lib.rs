//! Core of a bridge between a ROS 2 / DDS entity graph and a key-expression
//! based pub/sub fabric: discovery state machine, route lifecycle management,
//! QoS adaptation and an admin/introspection plane.

pub mod config;
pub mod endpoints;
pub mod entities;
pub mod gid;
pub mod keyexpr;
pub mod node_info;
pub mod qos;
pub mod ros_discovery;
pub mod routes_mgr;
pub mod seq_find;
pub mod text;
pub mod topic;

pub use gid::Gid;
