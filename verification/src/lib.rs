//! svg3: the document model and the rendering decisions of an extended
//! SVG renderer for 3D models, with their contracts proved by Verus.
//!
//! - [`dom`]: tag kinds, attribute maps, the node arena and the XML parser.
//! - [`text`]: the string operations the attribute readers are built on.
//! - [`references`], [`definitions`]: `url(#id)` references and the
//!   definitions they name.
//! - [`filters`], [`paint`], [`stroke`], [`color`]: attribute keywords and
//!   definition resolution for filters, clips, masks, paint servers,
//!   markers and strokes.
//! - [`scene`]: what the scene walk draws, skips and passes down.
//! - [`plan`]: the render plan, the painter-order walk over a document.
//! - [`surface_d`], [`surface`]: the `<surface>` patch grammar and its row
//!   bookkeeping.
//! - [`image`], [`image_decode`], [`texture`]: readback images, embedded
//!   PNG images and texture layers.
//! - [`xml`]: the calls into `quick_xml`, and the names of what it reads.
use vstd::prelude::*;

pub mod color;
pub mod definitions;
pub mod dom;
pub mod filters;
pub mod image;
pub mod image_decode;
pub mod paint;
pub mod plan;
pub mod references;
pub mod scene;
pub mod stroke;
pub mod surface;
pub mod surface_d;
pub mod text;
pub mod texture;
pub mod xml;

verus! {

} // verus!
