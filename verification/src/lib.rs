//! Keeps a live scene-node tree in step with a hierarchical level-editor
//! project: worlds, levels, layers and entities, each named by a stable
//! identifier.

pub mod background;
pub mod canvas;
pub mod components;
pub mod defs;
pub mod entity;
pub mod facets;
pub mod generation;
pub mod layer;
pub mod ldtk;
pub mod level;
pub mod load_spec;
pub mod loader;
pub mod project;
pub mod project_asset_loader;
pub mod reconcile;
pub mod scene;
pub mod scene_model;
pub mod system_params;
pub mod systems;
pub mod tiles;
pub mod traits;
pub mod util;
pub mod world;
