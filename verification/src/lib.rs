//! Offsets scanner, patch planner and request rules of Studio-Offline.

pub mod asset_laws;
pub mod assets;
pub mod avatar;
pub mod code;
pub mod code_laws;
pub mod cookie;
pub mod cookie_laws;
pub mod datastores;
pub mod gate_laws;
pub mod image_laws;
pub mod logging;
pub mod numbers;
pub mod offset_laws;
pub mod offsets;
pub mod patch_laws;
pub mod pe;
pub mod runtime;
pub mod scan;
pub mod scan_patterns;
pub mod scan_trust;
pub mod scan_urls;
pub mod search;
pub mod signature_laws;
pub mod startup;
pub mod store_laws;
pub mod text;
pub mod text_laws;
pub mod trust_laws;
pub mod url_entry_laws;
pub mod url_laws;
pub mod url_text_laws;
pub mod utf16;
