use vstd::prelude::*;

pub mod commands;
pub mod crawl;
pub mod csvfile;
pub mod db;
pub mod email_csv;
pub mod emails;
pub mod export;
pub mod html;
pub mod models;
pub mod order;
pub mod pages;
pub mod regexes;
pub mod robots;
pub mod search;
pub mod text;
pub mod urls;

verus! {

} // verus!
