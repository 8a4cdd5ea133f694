use torrent_scraper::scrape::{comments_url, page_url};
use torrent_scraper::stash::{chunk_path, CHUNK_SIZE};

#[test]
fn the_detail_page_has_the_id_in_its_path() {
    assert_eq!(page_url(100), "https://1337x.torrentbay.to/torrent/100/friendly-scraper/");
    assert_eq!(page_url(0), "https://1337x.torrentbay.to/torrent/0/friendly-scraper/");
    assert_eq!(
        page_url(5559585),
        "https://1337x.torrentbay.to/torrent/5559585/friendly-scraper/"
    );
}

#[test]
fn the_comment_feed_has_the_id_in_its_query() {
    assert_eq!(comments_url(100), "https://1337x.torrentbay.to/comments.php?torrentid=100");
    assert_eq!(comments_url(7), "https://1337x.torrentbay.to/comments.php?torrentid=7");
}

#[test]
fn a_chunk_lies_under_its_number() {
    assert_eq!(CHUNK_SIZE, 1000);
    assert_eq!(chunk_path(0), "stash/0.json");
    assert_eq!(chunk_path(5559), "stash/5559.json");
    assert_eq!(chunk_path(usize::MAX), format!("stash/{}.json", usize::MAX));
}
