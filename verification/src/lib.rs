//! Relay rules of a WebSocket relay for EasyTier networks: packet framing, network digests and
//! keys, route state of every network group, RPC dispatch and the decisions of a relay room.

pub mod bytes;
pub mod compress;
pub mod conn_bitmap;
pub mod constants;
pub mod crypto;
pub mod digest_laws;
pub mod gateway;
pub mod global_state;
pub mod group_laws;
pub mod handlers;
pub mod message_laws;
pub mod name_map;
pub mod packet;
pub mod peer_manager;
pub mod proto;
pub mod random;
pub mod relay_laws;
pub mod relay_room;
pub mod room_laws;
pub mod route_group;
pub mod route_laws;
pub mod route_model;
pub mod route_state;
pub mod rpc_handler;
pub mod rpc_laws;
pub mod sync_laws;
pub mod text;
pub mod update_laws;
