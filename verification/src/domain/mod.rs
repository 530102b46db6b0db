pub mod work;
pub mod series;
pub mod tag;
pub mod user;
