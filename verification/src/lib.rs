//! Protocol core of a relay that serves the Anthropic Messages API from a Kiro upstream.

pub mod text;
pub mod json;
pub mod sse;
pub mod xml_filter;
pub mod thinking;
pub mod mark_laws;
pub mod state;
pub mod text_map;
pub mod tool_json;
pub mod tool_laws;
pub mod tokens;
pub mod ids;
pub mod events;
pub mod stream_model;
pub mod stream;
pub mod buffered;
pub mod protocol;
pub mod stream_laws;
pub mod delivery_laws;
pub mod signature_laws;
pub mod reasoning_laws;
pub mod thinking_laws;
pub mod gather;
pub mod errors;
pub mod models;
pub mod request;
pub mod request_laws;
pub mod accounting;
pub mod session;
pub mod session_laws;
pub mod search_loop;
pub mod render;
pub mod answer_laws;
pub mod search_laws;
pub mod render_laws;
pub mod call_laws;
pub mod filler_laws;
pub mod ending_laws;
pub mod counting_laws;
pub mod shape_laws;
pub mod block_laws;
pub mod kiro_request;
pub mod kiro_laws;
pub mod version;
pub mod endpoint;
pub mod endpoint_laws;
