//! Matching of contract events against event specs, and projection of a
//! matched event into named values.
//!
//! An event is an ordered list of topic values and one payload value. An
//! event spec declares the shape of one class of events: the name tokens that
//! the leading topics spell, and the named, typed parameters that the
//! remaining topics and the payload carry. The matcher decides whether an
//! event has that shape, the selector picks the first of several specs that
//! it has the shape of, and the projector reads the named values out.

pub mod event;
pub mod event_spec;
pub mod matcher;
pub mod param_types;
pub mod projector;
pub mod selector;
pub mod type_check;
pub mod type_decl;
pub mod value;

pub use event::Event;
pub use event_spec::{DataFormat, EventSpec, ParamLocation, SpecParam};
pub use matcher::{event_matches_spec, find_entry};
pub use param_types::{type_to_value_kind, value_kind, ParamTypes, ValueKind};
pub use projector::{project, Field};
pub use selector::{select, select_index};
pub use type_check::type_matches;
pub use type_decl::TypeDecl;
pub use value::{MapEntry, Value};
