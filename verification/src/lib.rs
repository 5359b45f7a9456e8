//! Control and data plane of a reverse tunnel: wire protocol, session
//! bookkeeping, frame routing, settings and enrollment rules.

pub mod admin;
pub mod agent_channel;
pub mod agent_config;
pub mod agent_session;
pub mod agent_streams;
pub mod api;
pub mod backoff;
pub mod bandwidth;
pub mod console;
pub mod display;
pub mod enrollment;
pub mod ids;
pub mod key_values;
pub mod listeners;
pub mod log_view;
pub mod logs;
pub mod messages;
pub mod number;
pub mod pair_map;
pub mod plane;
pub mod plane_model;
pub mod protocol;
pub mod server_config;
pub mod server_session;
pub mod settings;
pub mod text;
pub mod token;
pub mod traffic;
