//! Verified core of the delegate classification tool.
pub mod text;
pub mod category;
pub mod fence;
pub mod json;
pub mod reply;
pub mod retry;
pub mod prompt;
pub mod order;
pub mod scrape;
pub mod crawl;
pub mod report;
pub mod charset;
pub mod run;
