//! Verified core of the nAIVE game engine: the render-pipeline graph and
//! resource parsing, input bindings and per-frame input state, the event bus
//! and script listeners, animation state, components and tags, the material
//! cache, project configuration and test discovery, demo selection, dev-log
//! submission, hot-reload batching, scene export framing (GLB) and the
//! beautification requests and replies.

pub mod text;
pub mod pipeline;
pub mod input;
pub mod events;
pub mod animation;
pub mod cli;
pub mod paths;
pub mod project_config;
pub mod components;
pub mod beautify;
pub mod scene_export;
pub mod test_runner;
pub mod material;
pub mod script_events;
pub mod demos;
pub mod dev_log;
pub mod frame_controls;
pub mod hot_reload;
pub mod spawn;
