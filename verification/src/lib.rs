//! Detection of small circular markers in still images.
//!
//! Two independent locators are provided.  The Hough path computes a
//! Sobel-style gradient (`gradient`), turns it into edge points (`edges`),
//! lets them vote for circle centres at a list of radii (`hough`) and keeps
//! the isolated peaks (`candidates`).  The ring walker (`ring`, `walker`)
//! homes onto a dot from a seed pixel.  `detector` offers both behind one
//! choice; `uniform` and `flat` state how the two behave on images of one
//! colour.
//!
//! Images are read through `raster`.  All arithmetic is done on integers;
//! fractional quantities are held in fixed point (`fixed`).
//!
//! `chunks` and `files` hold the rules of the two small tools that come with
//! the detector: a chunked message line and a listing of recent files.

pub mod candidates;
pub mod chunks;
pub mod detector;
pub mod edges;
pub mod files;
pub mod fixed;
pub mod flat;
pub mod gradient;
pub mod hough;
pub mod raster;
pub mod ring;
pub mod types;
pub mod uniform;
pub mod walker;
