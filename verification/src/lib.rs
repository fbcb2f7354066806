pub mod auth;
pub mod batches;
pub mod catalog;
pub mod display;
pub mod images;
pub mod local_search;
pub mod lyrics;
pub mod metadata;
pub mod model;
pub mod net;
pub mod numbers;
pub mod pathfinder;
pub mod player;
pub mod playlist;
pub mod queries;
pub mod script;
pub mod search;
pub mod search_results;
pub mod settings;
pub mod sources;
pub mod text;
pub mod timing;
pub mod ttml;
pub mod urls;
pub mod xml;
