//! Incremental harvesting of a numbered torrent catalogue: scalar parsers,
//! record extraction, a chunked checkpoint store and the crawl decisions.

pub mod driver;
pub mod extract;
pub mod page;
pub mod record;
pub mod scalar;
pub mod scrape;
pub mod stash;
pub mod text;
