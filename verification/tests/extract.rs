use torrent_scraper::extract::{build_item, comment_count, settle_title, ExtractError, Page};
use torrent_scraper::record::{Comment, File, RawComment, TorrentInfo};
use torrent_scraper::scrape::{
    attach_comments, convert_comments, extract_page, is_absent, read_page, scrape_torrent, Step,
};

const NOW: u64 = 1_700_000_000;

/// The parts of a detail page that the tests vary.
struct Parts {
    heading: &'static str,
    link: &'static str,
    size: &'static str,
    downloads: &'static str,
    checked: &'static str,
    uploaded: &'static str,
    seeders: &'static str,
    leechers: &'static str,
    infohash: &'static str,
    description: &'static str,
    badge: &'static str,
}

fn usual() -> Parts {
    Parts {
        heading: "<h1> Some.Movie.2020... </h1>",
        link: "<a href=\"/movie/12345/some-movie/\">Some Movie</a>",
        size: "1.5 GB",
        downloads: "1234",
        checked: "2 hours ago",
        uploaded: "1 year ago",
        seeders: "10",
        leechers: "3",
        infohash: "<div class=\"infohash-box\"><p><strong>Infohash :</strong> \
                   <span> 0123456789ABCDEF0123456789ABCDEF01234567 </span></p></div>",
        description: "<div id=\"description\"><p>Some.Movie.2020.1080p</p>\n<p> more text </p>\
                      <img data-original=\"http://img.example/1.jpg\"><img src=\"skip.jpg\">\
                      <img data-original=\"http://img.example/1.jpg\"></div>",
        badge: "<span>2</span>",
    }
}

fn page(p: &Parts) -> String {
    format!(
        "<html><head><title>t</title></head><body>{heading}\
         <div class=\"torrent-detail-info\"><h3>{link}</h3></div>\
         <ul class=\"list\"><li><a href=\"#\">Magnet</a></li></ul>\
         <ul class=\"list\">\
         <li><strong>Category</strong> <span>Movies</span></li>\
         <li><strong>Type</strong> <span>HD</span></li>\
         <li><strong>Language</strong> <span>English</span></li>\
         <li><strong>Total size</strong> <span>{size}</span></li>\
         <li><strong>Uploaded By</strong> <span> <a href=\"/user/x/\"> someone </a> </span></li>\
         </ul>\
         <ul class=\"list\">\
         <li><strong>Downloads</strong> <span>{downloads}</span></li>\
         <li><strong>Last checked</strong> <span>{checked}</span></li>\
         <li><strong>Date uploaded</strong> <span>{uploaded}</span></li>\
         <li><strong>Seeders</strong> <span>{seeders}</span></li>\
         <li><strong>Leechers</strong> <span>{leechers}</span></li>\
         </ul>{infohash}\
         <div class=\"torrent-tabs\">\
         <ul class=\"tab-nav\"><li><a href=\"#description\">Description</a></li>\
         <li><a href=\"#comments\">Comments {badge}</a></li></ul>\
         {description}\
         <div id=\"files\"><ul><li> movie.mkv (1.4 GB) </li><li>broken</li>\
         <li>notes <b>(v2)</b>.txt (10 B)</li></ul></div>\
         <div id=\"tracker-list\"><ul><li> udp://tracker.example:80/announce </li>\
         <li>http://<b>other</b>.example/announce</li></ul></div>\
         </div></body></html>",
        heading = p.heading,
        link = p.link,
        size = p.size,
        downloads = p.downloads,
        checked = p.checked,
        uploaded = p.uploaded,
        seeders = p.seeders,
        leechers = p.leechers,
        infohash = p.infohash,
        description = p.description,
        badge = p.badge,
    )
}

fn expected() -> TorrentInfo {
    TorrentInfo {
        name: String::from("Some.Movie.2020.1080p"),
        description: String::from("more text"),
        infohash: String::from("0123456789ABCDEF0123456789ABCDEF01234567"),
        category: String::from("Movies"),
        ty: String::from("HD"),
        language: String::from("English"),
        total_size: 1610612736,
        uploader: String::from("someone"),
        downloads: 1234,
        last_checked_ts: NOW - 7200,
        uploaded_ts: NOW - 365 * 86400,
        seeders: 10,
        leechers: 3,
        scraped_ts: NOW,
        tmdb_id: Some(12345),
        series_id: None,
        images: vec![
            String::from("http://img.example/1.jpg"),
            String::from("http://img.example/1.jpg"),
        ],
        trackers: vec![
            String::from("udp://tracker.example:80/announce"),
            String::from("http://other.example/announce"),
        ],
        files: vec![
            File { name: String::from("movie.mkv"), size: 1503238553 },
            File { name: String::from("notes (v2).txt"), size: 10 },
        ],
        comments: Vec::new(),
    }
}

fn item_of(p: &Parts) -> TorrentInfo {
    match extract_page(&page(p), NOW) {
        Ok(Step::Complete(t)) | Ok(Step::Comments(t)) => t,
        other => panic!("{:?}", other),
    }
}

fn chars(s: &str) -> Vec<char> {
    s.chars().collect()
}

fn settled(heading: &str, description: &str) -> (String, String) {
    let (name, rest) = settle_title(&chars(heading), &chars(description));
    (name.into_iter().collect(), rest.into_iter().collect())
}

#[test]
fn a_detail_page_gives_its_record() {
    assert_eq!(extract_page(&page(&usual()), NOW), Ok(Step::Comments(expected())));
}

#[test]
fn a_page_without_comments_is_complete() {
    let mut parts = usual();
    parts.badge = "<span>0</span>";
    assert_eq!(extract_page(&page(&parts), NOW), Ok(Step::Complete(expected())));
    parts.badge = "";
    assert_eq!(extract_page(&page(&parts), NOW), Ok(Step::Complete(expected())));
    parts.badge = "<span>many</span>";
    assert_eq!(extract_page(&page(&parts), NOW), Ok(Step::Complete(expected())));
    parts.badge = "<span></span>";
    assert_eq!(extract_page(&page(&parts), NOW), Ok(Step::Complete(expected())));
}

#[test]
fn the_page_is_read_element_by_element() {
    let read = read_page(&page(&usual())).unwrap();
    assert_eq!(read.spans.len(), 10);
    assert_eq!(read.spans[0], vec![String::from("Movies")]);
    assert_eq!(
        read.spans[4],
        vec![String::from(" "), String::from(" someone "), String::from(" ")]
    );
    assert_eq!(read.spans[9], vec![String::from("3")]);
    assert_eq!(read.links, vec![Some(String::from("/movie/12345/some-movie/"))]);
    assert_eq!(read.heading, vec![vec![String::from(" Some.Movie.2020... ")]]);
    assert_eq!(
        read.images,
        vec![
            Some(String::from("http://img.example/1.jpg")),
            None,
            Some(String::from("http://img.example/1.jpg")),
        ]
    );
    assert_eq!(read.files.len(), 3);
    assert_eq!(
        read.files[2],
        vec![String::from("notes "), String::from("(v2)"), String::from(".txt (10 B)")]
    );
    assert_eq!(read.trackers.len(), 2);
    assert_eq!(read.badges, vec![vec![String::from("2")]]);
    assert_eq!(comment_count(&read), 2);
    assert_eq!(build_item(&read, NOW), Ok(expected()));
}

#[test]
fn a_page_without_a_third_info_list_cannot_be_read() {
    assert!(read_page("<p>x</p>").is_none());
    assert!(read_page("<ul class=\"list\"></ul><ul class=\"list\"></ul>").is_none());
    let bare = read_page(
        "<ul class=\"list\"><li><span>a</span></li></ul>\
         <ul class=\"list\"><li><span>b</span> <span>c<i>d</i></span></li></ul>\
         <ul class=\"list\"><li><span></span></li><span>e</span></ul><span>f</span>",
    )
    .unwrap();
    assert_eq!(
        bare.spans,
        vec![
            vec![String::from("b")],
            vec![String::from("c"), String::from("d")],
            Vec::<String>::new(),
            vec![String::from("e")],
        ]
    );
    assert!(bare.links.is_empty());
    assert!(bare.heading.is_empty());
    assert!(bare.files.is_empty());
    assert!(bare.badges.is_empty());
}

#[test]
fn a_notice_of_absence_gives_a_tombstone() {
    assert_eq!(
        extract_page("<html><body><p>Bad Torrent ID.</p></body></html>", NOW),
        Ok(Step::Absent)
    );
    assert_eq!(
        extract_page("This torrent is hidden and pending moderation.", NOW),
        Ok(Step::Absent)
    );
    assert!(is_absent("xx Bad Torrent ID. yy"));
    assert!(!is_absent("Bad Torrent ID"));
    assert!(!is_absent(""));
}

#[test]
fn the_notice_of_absence_comes_before_the_page_shape() {
    let mut parts = usual();
    parts.description = "<div id=\"description\"><p>Bad Torrent ID.</p></div>";
    assert_eq!(extract_page(&page(&parts), NOW), Ok(Step::Absent));
}

#[test]
fn a_page_of_another_shape_is_a_fault() {
    assert_eq!(
        extract_page("<html><body><p>nothing here</p></body></html>", NOW),
        Err(ExtractError::ListCount(0))
    );
    assert_eq!(
        extract_page("<ul class=\"list\"></ul><ul class=\"list\"></ul>", NOW),
        Err(ExtractError::ListCount(2))
    );
    assert_eq!(
        extract_page(
            "<ul class=\"list\"></ul><ul class=\"list\"><li><span>a</span></li></ul>\
             <ul class=\"list\"><li><span>b</span><span>c</span></li></ul>",
            NOW
        ),
        Err(ExtractError::SpanCount(3))
    );
}

#[test]
fn each_mandatory_field_has_its_fault() {
    let mut parts = usual();
    parts.size = "big";
    assert_eq!(extract_page(&page(&parts), NOW), Err(ExtractError::Size));
    let mut parts = usual();
    parts.downloads = "1,234";
    assert_eq!(extract_page(&page(&parts), NOW), Err(ExtractError::Downloads));
    let mut parts = usual();
    parts.checked = "yesterday";
    assert_eq!(extract_page(&page(&parts), NOW), Err(ExtractError::LastChecked));
    let mut parts = usual();
    parts.uploaded = "3 moons ago";
    assert_eq!(extract_page(&page(&parts), NOW), Err(ExtractError::Uploaded));
    let mut parts = usual();
    parts.seeders = "";
    assert_eq!(extract_page(&page(&parts), NOW), Err(ExtractError::Seeders));
    let mut parts = usual();
    parts.leechers = "-1";
    assert_eq!(extract_page(&page(&parts), NOW), Err(ExtractError::Leechers));
    let mut parts = usual();
    parts.infohash = "";
    assert_eq!(extract_page(&page(&parts), NOW), Err(ExtractError::Infohash));
    let mut parts = usual();
    parts.heading = "";
    assert_eq!(extract_page(&page(&parts), NOW), Err(ExtractError::Heading));
    let mut parts = usual();
    parts.description = "";
    assert_eq!(extract_page(&page(&parts), NOW), Err(ExtractError::Description));
}

#[test]
fn the_first_fault_is_reported() {
    let mut parts = usual();
    parts.size = "big";
    parts.seeders = "few";
    parts.heading = "";
    assert_eq!(extract_page(&page(&parts), NOW), Err(ExtractError::Size));
    parts.size = "1 KB";
    assert_eq!(extract_page(&page(&parts), NOW), Err(ExtractError::Seeders));
}

#[test]
fn a_movie_link_gives_the_movie_number() {
    let item = item_of(&usual());
    assert_eq!(item.tmdb_id, Some(12345));
    assert_eq!(item.series_id, None);
}

#[test]
fn a_series_link_gives_the_series_name() {
    let mut parts = usual();
    parts.link = "<a href=\"/series/breaking-bad/\">Breaking Bad</a>";
    let item = item_of(&parts);
    assert_eq!(item.tmdb_id, None);
    assert_eq!(item.series_id, Some(String::from("breaking-bad")));
}

#[test]
fn a_link_of_another_shape_names_nothing() {
    for link in [
        "",
        "<a>no target</a>",
        "<a href=\"/movie/abc/some-movie/\">x</a>",
        "<a href=\"/movie/12345/\">x</a>",
        "<a href=\"/movie/12345/a/b/\">x</a>",
        "<a href=\"/series/\">x</a>",
        "<a href=\"/series/a/b/\">x</a>",
        "<a href=\"/person/12345/x/\">x</a>",
        "<a href=\"movie/12345/x/\">x</a>",
    ] {
        let mut parts = usual();
        parts.link = link;
        let item = item_of(&parts);
        assert_eq!((item.tmdb_id, item.series_id), (None, None), "{}", link);
    }
}

#[test]
fn no_record_names_both_a_movie_and_a_series() {
    for link in [
        "<a href=\"/movie/1/x/\">x</a>",
        "<a href=\"/series/movie/\">x</a>",
        "<a href=\"/movie/series/x/\">x</a>",
        "<a href=\"/series/12/\">x</a><a href=\"/movie/1/x/\">y</a>",
        "<a href=\"/movie//7/series/\">x</a>",
    ] {
        let mut parts = usual();
        parts.link = link;
        let item = item_of(&parts);
        assert!(!(item.tmdb_id.is_some() && item.series_id.is_some()), "{}", link);
    }
    let mut parts = usual();
    parts.link = "<a href=\"/series/12/\">x</a><a href=\"/movie/1/x/\">y</a>";
    assert_eq!(item_of(&parts).series_id, Some(String::from("12")));
    parts.link = "<a href=\"/movie//7/series/\">x</a>";
    assert_eq!(item_of(&parts).tmdb_id, Some(7));
    assert_eq!(item_of(&parts).series_id, None);
    parts.link = "<a href=\"/movie//7//series\">x</a>";
    assert_eq!(item_of(&parts).tmdb_id, Some(7));
    parts.link = "<a href=\"/movie/a//7/\">x</a>";
    assert_eq!(item_of(&parts).tmdb_id, None);
    parts.link = "<a href=\"/movie//7//x/\">x</a>";
    assert_eq!(item_of(&parts).tmdb_id, Some(7));
}

#[test]
fn a_cut_heading_is_completed_from_the_description() {
    assert_eq!(
        settled("Foo Ba...", "Foo Bar\nmore text"),
        (String::from("Foo Bar"), String::from("more text"))
    );
    let mut parts = usual();
    parts.heading = "<h1>Foo Ba...</h1>";
    parts.description = "<div id=\"description\"><p>Foo Bar</p><p>more text</p></div>";
    let item = item_of(&parts);
    assert_eq!(item.name, "Foo Bar");
    assert_eq!(item.description, "more text");
}

#[test]
fn a_whole_heading_that_the_description_repeats_is_taken_out_of_it() {
    assert_eq!(
        settled("Foo Bar", "Foo Bar\nmore text\nand more"),
        (String::from("Foo Bar"), String::from("more text\nand more"))
    );
    assert_eq!(
        settled("Foo Bar", "Foo Bar\r\nmore\r\ntext\r"),
        (String::from("Foo Bar"), String::from("Foo Bar\r\nmore\r\ntext\r"))
    );
    assert_eq!(
        settled("Foo", "Foo\n\r\nmore\r\ntext\n"),
        (String::from("Foo"), String::from("\nmore\ntext"))
    );
}

#[test]
fn a_heading_that_the_description_does_not_repeat_stays() {
    assert_eq!(
        settled("Foo Bar", "Foo Bar and more"),
        (String::from("Foo Bar"), String::from("Foo Bar and more"))
    );
    assert_eq!(settled("Foo Bar", "Foo Bar"), (String::from("Foo Bar"), String::from("Foo Bar")));
    assert_eq!(
        settled("Foo Ba...", "Another text"),
        (String::from("Foo Ba"), String::from("Another text"))
    );
    assert_eq!(settled("Foo Ba...", ""), (String::from("Foo Ba"), String::new()));
    assert_eq!(settled("", ""), (String::new(), String::new()));
    assert_eq!(settled("..", "x"), (String::from(".."), String::from("x")));
}

#[test]
fn a_heading_of_dots_alone_takes_the_first_line() {
    assert_eq!(settled("...", "First\nSecond"), (String::from("First"), String::from("Second")));
    assert_eq!(settled("...", ""), (String::new(), String::new()));
    assert_eq!(settled("....", ".x\ny"), (String::from(".x"), String::from("y")));
}

#[test]
fn a_missing_description_is_empty() {
    let mut parts = usual();
    parts.description = "<div id=\"description\"> <p> No description given. </p> </div>";
    let item = item_of(&parts);
    assert_eq!(item.name, "Some.Movie.2020");
    assert_eq!(item.description, "");
    assert_eq!(item.images, Vec::<String>::new());
    parts.description = "<div id=\"description\"><p>No description given.</p><p>But</p></div>";
    assert_eq!(item_of(&parts).description, "No description given.\nBut");
    parts.description = "<div id=\"description\"></div>";
    assert_eq!(item_of(&parts).description, "");
}

#[test]
fn the_response_status_is_checked_first() {
    assert_eq!(scrape_torrent(404, "Bad Torrent ID."), Err(ExtractError::Status(404)));
    assert_eq!(scrape_torrent(500, &page(&usual())), Err(ExtractError::Status(500)));
    assert_eq!(scrape_torrent(200, "Bad Torrent ID."), Ok(Step::Absent));
    assert_eq!(scrape_torrent(200, "<p>x</p>"), Err(ExtractError::ListCount(0)));
}

#[test]
fn the_record_is_stamped_with_the_time_of_capture() {
    let item = match scrape_torrent(200, &page(&usual())) {
        Ok(Step::Comments(t)) => t,
        other => panic!("{:?}", other),
    };
    assert!(item.scraped_ts > 1_600_000_000);
    assert!(item.scraped_ts < 1 << 40);
    assert_eq!(item.last_checked_ts, item.scraped_ts - 7200);
    assert_eq!(item.uploaded_ts, item.scraped_ts - 365 * 86400);
    assert_eq!(item.name, "Some.Movie.2020.1080p");
}

fn raw(id: u64, posted: &str, class: Option<&str>, username: Option<&str>) -> RawComment {
    RawComment {
        avatar: String::from("/images/avatar.jpg"),
        class: class.map(String::from),
        comment: format!("comment {}", id),
        commentid: id,
        posted: String::from(posted),
        username: username.map(String::from),
    }
}

fn stored(id: u64, posted: u64, class: &str, username: &str) -> Comment {
    Comment {
        avatar: String::from("/images/avatar.jpg"),
        class: String::from(class),
        comment: format!("comment {}", id),
        commentid: id,
        posted,
        username: String::from(username),
    }
}

#[test]
fn comments_keep_their_order_and_lose_those_without_a_time() {
    let feed = vec![
        raw(1, "3 days ago", Some("vip"), Some("ann")),
        raw(2, "long ago", Some("user"), Some("bob")),
        raw(3, "1 hour ago", None, None),
        raw(4, "", None, Some("dan")),
        raw(5, "2 weeks ago", Some("user"), None),
    ];
    assert_eq!(
        convert_comments(NOW, &feed),
        vec![
            stored(1, NOW - 3 * 86400, "vip", "ann"),
            stored(3, NOW - 3600, "[deleted]", "[deleted]"),
            stored(5, NOW - 14 * 86400, "user", "[deleted]"),
        ]
    );
    assert_eq!(convert_comments(NOW, &Vec::new()), Vec::new());
    assert_eq!(convert_comments(10, &feed), Vec::new());
}

#[test]
fn the_comment_feed_is_merged_into_the_record() {
    let feed = vec![raw(1, "3 days ago", Some("vip"), Some("ann")), raw(2, "?", None, None)];
    let mut with = expected();
    with.comments = vec![stored(1, NOW - 3 * 86400, "vip", "ann")];
    assert_eq!(attach_comments(expected(), 200, Some(feed.clone())), Ok(with));
    assert_eq!(attach_comments(expected(), 200, Some(Vec::new())), Ok(expected()));
}

#[test]
fn a_refused_comment_feed_leaves_the_record_without_comments() {
    let feed = vec![raw(1, "3 days ago", Some("vip"), Some("ann"))];
    assert_eq!(attach_comments(expected(), 404, Some(feed)), Ok(expected()));
    assert_eq!(attach_comments(expected(), 503, None), Ok(expected()));
}

#[test]
fn a_body_that_is_no_comment_feed_is_a_fault() {
    assert_eq!(attach_comments(expected(), 200, None), Err(ExtractError::Feed));
}

#[test]
fn an_empty_page_record_can_be_built_by_hand() {
    let empty = Page {
        spans: Vec::new(),
        links: Vec::new(),
        infohash: Vec::new(),
        heading: Vec::new(),
        description: Vec::new(),
        images: Vec::new(),
        trackers: Vec::new(),
        files: Vec::new(),
        badges: Vec::new(),
    };
    assert_eq!(build_item(&empty, NOW), Err(ExtractError::SpanCount(0)));
    assert_eq!(comment_count(&empty), 0);
}
