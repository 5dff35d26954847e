//! Core of an OpenAPI client generator.
//!
//! [`Generator`] turns an OpenAPI document into the Rust code of a client. What
//! it does is stated over the tokens of that code, as [`tokens::tokens`] gives
//! them; [`generator::generation`] says what comes of a whole run.
pub mod client;
pub mod client_laws;
pub mod distinct;
pub mod document;
pub mod document_laws;
pub mod error;
pub mod generator;
pub mod generator_laws;
pub mod multipart;
pub mod multipart_code;
pub mod multipart_code_laws;
pub mod multipart_laws;
pub mod operations;
pub mod settings;
pub mod spacing;
pub mod tags;
pub mod template;
pub mod template_laws;
pub mod text;
pub mod tokens;
pub mod typespace;
pub mod validate;

pub use document::OpenAPI;
pub use error::Error;
pub use generator::Generator;
pub use multipart_code::{process_multipart_form, MultiPartParts};
pub use operations::Work;
pub use settings::{GenerationSettings, InterfaceStyle, TagStyle};
pub use spacing::space_out_items;
pub use typespace::{TypeImpl, UnknownPolicy};
pub use typify::CrateVers;
pub use typify::TypeSpacePatch as TypePatch;
pub use validate::validate_openapi;
