//! Verified core of an image viewer: format probing, frame pool bookkeeping,
//! logical albums, EXIF grouping, batch renaming and decoder bookkeeping.

pub mod bytes;
pub mod text;
pub mod frame_pool;
pub mod albums;
pub mod strs;
pub mod native;
pub mod exif_groups;
pub mod calendar;
pub mod batch;
pub mod decode;
pub mod lru;
pub mod hdr;
pub mod anim;
pub mod hybrid;
pub mod raster;
pub mod psd_check;
