pub mod text;
pub mod strset;
pub mod pattern;
pub mod html;
pub mod common;
pub mod config;
pub mod domain;
pub mod db;
pub mod routes;
pub mod clients;
pub mod laws;
