pub mod cache;
pub mod calendar;
pub mod errors;
pub mod history;
pub mod interval;
pub mod model;
pub mod parse;
pub mod presets;
pub mod resample;
pub mod text;
pub mod ts;
