//! Verified logic of the mybops web client: parsing of data-source links,
//! NFL standings and tiebreakers, random match queues, list item editing,
//! and the text and addresses that the client shows and requests.

pub mod text;
pub mod numbers;
pub mod nfl;
pub mod games;
pub mod tiebreakers;
pub mod standings;
pub mod scoreboard;
pub mod sources;
pub mod lists;
pub mod rounds;
pub mod items;
pub mod edit;
pub mod api;
pub mod pages;
pub mod tables;
pub mod widgets;
