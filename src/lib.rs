//! Riemann-sum explorer core: partitions an interval, picks one sample per
//! subinterval, accumulates the signed area under a function, and maps the
//! samples onto a screen. All quantities are exact fixed-point integers:
//! domain and range values count millionths of a unit, zoom factors count
//! thousandths, and screen positions count thousandths of a pixel.

pub mod fixed;
pub mod sampling;
pub mod seeding;
pub mod evaluator;
pub mod area;
pub mod view;
pub mod frame;

pub use area::{accumulate, area_label, AreaLabel, AreaResult};
pub use evaluator::{evaluate_all, Constant, Cubic, Evaluator};
pub use fixed::{floor_div, DOMAIN_UNIT, FRACTION_ONE};
pub use frame::{area_bars, compute_frame, curve_points, frame_from_samples, Bar, Config, Frame};
pub use sampling::{
    boundaries, sample_points, ConfigError, Interval, PickMode, MAX_COORD, MAX_PARTITIONS,
    MAX_SAMPLE,
};
pub use seeding::{generate_samples, seed_from_text};
pub use view::{max_abs_value, vertical_extent, Tick, ViewTransform, MIN_EXTENT, PIXEL_STEPS, ZOOM_ONE};
