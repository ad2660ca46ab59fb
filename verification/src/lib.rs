//! A codec between the element values of a syndication feed and their XML
//! form, together with a store for the namespaced child elements that the
//! base schema does not know.
//!
//! A document is read into a stream of events and written from one (see
//! [`event`] and [`xml`]). Each element type decodes itself from the events
//! behind its start tag and encodes itself into events ([`category`],
//! [`cloud`], [`image`]). Child elements of other namespaces are captured
//! whole ([`extension`]), and a namespace that is known lifts its fields out
//! of what was captured ([`extension::dublincore`]).

pub mod category;
pub mod cloud;
pub mod error;
pub mod event;
pub mod extension;
pub mod image;
pub mod text;
pub mod toxml;
pub mod util;
pub mod validation;
pub mod xml;

pub use crate::category::Category;
pub use crate::cloud::{Cloud, CloudBuilder};
pub use crate::error::Error;
pub use crate::event::{Attribute, XmlEvent, XmlReader, XmlWriter};
pub use crate::extension::{Extension, ExtensionMap};
pub use crate::image::Image;
