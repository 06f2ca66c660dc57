pub mod acl;
pub mod audit;
pub mod auth;
pub mod config;
pub mod consistency;
pub mod dns;
pub mod effects;
pub mod enroll;
pub mod error;
pub mod history;
pub mod ids;
pub mod journal;
pub mod keys;
pub mod laws;
pub mod lifecycle;
pub mod mesh;
pub mod model;
pub mod net;
pub mod netid;
pub mod netmap;
pub mod networks;
pub mod node_effects;
pub mod nodes;
pub mod operations;
pub mod packet;
pub mod pem;
pub mod state;
pub mod stream_relay;
pub mod table;
pub mod text;
pub mod timed;
pub mod tokens;
pub mod topology;
pub mod udp_relay;
pub mod views;
