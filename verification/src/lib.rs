use vstd::prelude::*;

pub mod analysis;
pub mod clock;
pub mod cluster;
pub mod commands;
pub mod db;
pub mod groups;
pub mod ids;
pub mod json;
pub mod numbers;
pub mod order;
pub mod paths;
pub mod patterns;
pub mod scanner;
pub mod score;
pub mod text;
pub mod thumbnail;
pub mod tmdb;
pub mod transcode;
pub mod web;

verus! {

}
