//! The logic of a metadata crawler for rusneb.ru: search streams, the state of a crawl, the pages and
//! records of the site, coverage, and exports.

pub mod card;
pub mod commands;
pub mod coverage;
pub mod discovery;
pub mod export;
pub mod finished;
pub mod groups;
pub mod html;
pub mod item_worker;
pub mod items;
pub mod jobs;
pub mod json;
pub mod labels;
pub mod links;
pub mod manifest;
pub mod maps;
pub mod marc;
pub mod model;
pub mod numerals;
pub mod order;
pub mod overflow;
pub mod pages;
pub mod params;
pub mod pauses;
pub mod pointers;
pub mod ranking;
pub mod readback;
pub mod record;
pub mod record_json;
pub mod report;
pub mod search_page;
pub mod settings;
pub mod shards;
pub mod state;
pub mod state_laws;
pub mod summary;
pub mod text;
pub mod tunnel;
pub mod validation;
pub mod views;
pub mod workers;
