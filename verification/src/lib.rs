//! Deterministic rendering of CAD drawings: the rules a render is written
//! with, verified.
//!
//! A drawing's text is read as the reader sees it ([`text`],
//! [`svg::text_codes`]), hung off its points as the file justifies it
//! ([`svg::justify`]) and escaped for the document ([`svg::format`]); every
//! bound on a number from the file is named, and what it leaves out counted and
//! reported ([`limits`]); what a block reference expands to ([`svg::blocks`])
//! and what the drawing hides ([`svg::visibility`]) are decided; which entities
//! a space walks ([`svg::select`]) and which layouts have a sheet
//! ([`svg::sheet`]), what a picture's frame leaves out ([`svg::crop`],
//! [`svg::guard`]), how each text and each shared definition is named in the
//! document ([`svg::scene`], [`svg::defs`]), which vertices a polyline's
//! segments join ([`svg::polyline`]), how many points an entity is drawn with
//! ([`svg`]), what a change set's redline marks ([`svg::overlay`]), and how
//! large a PNG may be ([`png`]).

pub mod chars;
pub mod limits;
pub mod png;
pub mod svg;
pub mod text;

pub use png::{Fonts, DEFAULT_MAX_EDGE};
pub use svg::crop::LeftOutReason;
pub use svg::overlay::{MarkKind, NotMarkedReason, OverlayFrame};
pub use svg::sheet::{LayoutError, SheetSource};
pub use svg::Space;
