//! Room packing and terrain rasterisation.

pub mod compose;
pub mod corridor;
pub mod error;
pub mod generate;
pub mod generator;
pub mod geometry;
pub mod intersect;
pub mod layout;
pub mod placement;
pub mod population;
pub mod raster;
pub mod settle;
pub mod terrain;
pub mod walls;

pub use corridor::Corridor;
pub use error::WorldgenError;
pub use generator::RoomGenerator;
pub use geometry::Rect;
pub use geometry::Room;
pub use geometry::RoomView;
pub use intersect::IntersectState;
pub use intersect::Order;
pub use terrain::TerrainData;
