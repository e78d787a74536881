//! Verified core logic of the RaveEngine studio, server and scripting runtime.
//!
//! Entities are identified by their 64-bit id (the bit pattern of an ECS
//! entity); everything that touches the engine, the renderer, the network or
//! the Lua virtual machine lives outside this crate and hands plain values in.
pub mod hierarchy;
pub mod map_loading;
pub mod text;
pub mod scene;
pub mod explorer;
pub mod selection;
pub mod undo;
pub mod scheduler;
pub mod contacts;
pub mod services;
pub mod scripting;
pub mod gizmos;
pub mod camera;
pub mod line_numbers;
pub mod editor;
pub mod scene_ops;
pub mod interaction;
pub mod players;
pub mod physics;
pub mod project;
pub mod playtest;
pub mod snapshot;
pub mod graphics;
pub mod deletion;
pub mod onboarding;
pub mod properties;
