//! Field enrichment for structured log events: a nested field definition is
//! flattened once into an ordered list of field paths, and the list is then
//! applied to every event that passes.

pub mod value;
pub mod path;
pub mod template;
pub mod event;
pub mod ordered;
pub mod timestamp;
pub mod config;
pub mod flatten;
pub mod transform;
pub mod laws;

pub use config::{ConfigError, ConfigValue, TemplateOrValue};
pub use event::Event;
pub use template::Template;
pub use transform::{AddFields, AddFieldsConfig, DataType};
pub use value::Value;
