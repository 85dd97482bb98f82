pub mod grid;
pub mod image;
pub mod rle;
pub mod topology;

pub use grid::GolCube;
pub use grid::step;
pub use image::export_golcube_png;
pub use image::import_golcube_png;
pub use rle::import_golcube_rle;
pub use rle::load_rle;
pub use topology::cube_pixel_idx_in_bounds;
pub use topology::cube_pixel_idx_out_bounds;
