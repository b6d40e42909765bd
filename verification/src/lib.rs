//! Maps gallery metadata records to ComicInfo records.
#![allow(non_snake_case)]

pub mod comicinfo;
pub mod date;
pub mod decimal;
pub mod sorting;
pub mod tags;
pub mod text;
