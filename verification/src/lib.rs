//! A position engine that locates a small mobile object (the "mini") on a
//! rectangular table from binary visibility reports of optical receivers
//! mounted around the table's perimeter.
//!
//! All geometry is carried out in exact fixed-point arithmetic: coordinates
//! are integers counting thousandths of a millimeter, and directions are
//! integer vectors.  Cone membership, line intersection and polygon
//! construction are therefore exact sign tests on integer cross products,
//! with rounding confined to a few clearly specified places.

pub mod geom;
pub mod line;
pub mod num;
pub mod polygon;
pub mod protocol;
pub mod rat;
pub mod receiver;
pub mod table;
pub mod trig;

pub use geom::Point;
pub use line::Line;
pub use polygon::Polygon;
pub use receiver::Direction;
pub use receiver::Receiver;
pub use receiver::TrackerError;
pub use table::Table;
