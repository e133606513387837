//! A ranking of proxy nodes: which nodes take part, when each is tested, what the tests cost, what
//! they found, and which node comes first.

pub mod batch;
pub mod config;
pub mod controller;
pub mod course_laws;
pub mod cycle;
pub mod day_laws;
pub mod delay;
pub mod digits;
pub mod errors;
pub mod floats;
pub mod flow_laws;
pub mod keywords;
pub mod laws;
pub mod manager;
pub mod manual;
pub mod models;
pub mod order;
pub mod outcome_laws;
pub mod outcomes;
pub mod profile;
pub mod profile_laws;
pub mod queries;
pub mod query_laws;
pub mod ranking_laws;
pub mod rankings;
pub mod reconcile;
pub mod replies;
pub mod row_laws;
pub mod sample_laws;
pub mod scan;
pub mod schedule;
pub mod setting_laws;
pub mod settings;
pub mod size_laws;
pub mod source_laws;
pub mod speed;
pub mod spelling_laws;
pub mod status;
pub mod store;
pub mod store_laws;
pub mod table_laws;
pub mod tables;
pub mod text;
pub mod traffic;
pub mod traffic_laws;
pub mod transfer;
pub mod view_laws;
pub mod visit;
