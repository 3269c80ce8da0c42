//! Extraction of a CPython-backed UI scene graph from a snapshot of a foreign
//! process's memory.
//!
//! The crate decodes raw byte ranges as CPython object layouts (strings,
//! integers, booleans, dictionaries, type objects), locates a plausible root
//! object with a three-phase heuristic scan, and rebuilds the scene graph as a
//! typed tree annotated with absolute screen geometry and sibling occlusion.
//! All decoding works over an explicit [`memory::MemorySnapshot`] value; the
//! host process is responsible for capturing such a snapshot.

pub mod errors;
pub mod display_region;
pub mod memory;
pub mod values;
pub mod ui_tree_node;
pub mod text;
pub mod memory_reading_cache;
pub mod python_memory_reader;
pub mod float_bits;
pub mod python_type_extractor;
pub mod ui_constants;
pub mod ui_utils;
pub mod display_region_utils;
pub mod ui_tree_node_extractor;
pub mod extract_possible_root_address;
pub mod laws;
pub mod parser_utils;
pub mod overview_window;
pub mod probe_scanner;
pub mod directional_scanner;
pub mod general_window;
pub mod eve_ui_tracker;
pub mod object_type;

pub use errors::ExtractError;
pub use display_region::DisplayRegion;
