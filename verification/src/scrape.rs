//! One torrent's way from the response of the catalogue to a record: the
//! detail page is queried and read, and where it announces comments the
//! comment feed is asked for and merged.

use crate::extract::{
    announced_comments, build_item, comment_count, item_of, item_view, ExtractError, Page,
    PageView,
};
use crate::page::{
    groups_view, nested_texts, select_attr, select_nested_texts, select_texts, selected_attr,
    selected_texts,
};
use crate::record::{
    text_view, Comment, CommentView, RawComment, RawCommentView, TorrentInfo, TorrentInfoView,
};
use crate::scalar::{parse_time_offset, time_offset};
use crate::text::{chars_of, contains, number_between, numbered, occurs};
use vstd::prelude::*;
use vstd::string::StringExecFns;

verus! {

/// The address of the detail page of the torrent `id`.
pub open spec fn detail_url(id: usize) -> Seq<char> {
    numbered("https://1337x.torrentbay.to/torrent/"@, id as nat, "/friendly-scraper/"@)
}

/// The address of the detail page of the torrent `id`.
pub fn page_url(id: usize) -> (r: String)
    ensures
        r@ == detail_url(id),
{
    number_between("https://1337x.torrentbay.to/torrent/", id as u64, "/friendly-scraper/")
}

/// The address of the comment feed of the torrent `id`.
pub open spec fn feed_url(id: usize) -> Seq<char> {
    numbered("https://1337x.torrentbay.to/comments.php?torrentid="@, id as nat, ""@)
}

/// The address of the comment feed of the torrent `id`.
pub fn comments_url(id: usize) -> (r: String)
    ensures
        r@ == feed_url(id),
{
    number_between("https://1337x.torrentbay.to/comments.php?torrentid=", id as u64, "")
}

/// Whether a response says that its ID names no torrent: it holds the
/// notice of a bad ID or that of a torrent hidden for moderation.
pub open spec fn marked_absent(body: Seq<char>) -> bool {
    occurs("Bad Torrent ID."@, body) || occurs(
        "This torrent is hidden and pending moderation."@,
        body,
    )
}

/// Whether `body` says that its ID names no torrent.
pub fn is_absent(body: &str) -> (r: bool)
    ensures
        r == marked_absent(body@),
{
    let chars = chars_of(body);
    let bad = chars_of("Bad Torrent ID.");
    let hidden = chars_of("This torrent is hidden and pending moderation.");
    contains(chars.as_slice(), bad.as_slice()) || contains(chars.as_slice(), hidden.as_slice())
}

/// What the queries of [`read_page`] give for the document `html`; `None`
/// where one of them is rejected or the document has no third info list.
pub open spec fn page_of(html: Seq<char>) -> Option<PageView> {
    let second = nested_texts(html, ".list"@, 1, "span"@);
    let third = nested_texts(html, ".list"@, 2, "span"@);
    let links = selected_attr(html, ".torrent-detail-info h3>a"@, "href"@);
    let infohash = selected_texts(html, ".infohash-box>p>span"@);
    let heading = selected_texts(html, "h1"@);
    let description = selected_texts(html, ".torrent-tabs #description"@);
    let images = selected_attr(html, ".torrent-tabs #description img"@, "data-original"@);
    let trackers = selected_texts(html, ".torrent-tabs #tracker-list li"@);
    let files = selected_texts(html, ".torrent-tabs #files li"@);
    let badges = selected_texts(html, ".torrent-tabs .tab-nav a[href=\"#comments\"]>span"@);
    if second is Some && third is Some && links is Some && infohash is Some && heading is Some
        && description is Some && images is Some && trackers is Some && files is Some
        && badges is Some {
        Some(
            PageView {
                spans: second->0 + third->0,
                links: links->0,
                infohash: infohash->0,
                heading: heading->0,
                description: description->0,
                images: images->0,
                trackers: trackers->0,
                files: files->0,
                badges: badges->0,
            },
        )
    } else {
        None
    }
}

/// What `r` holds, as plain values.
pub open spec fn page_view(r: Option<Page>) -> Option<PageView> {
    match r {
        Some(p) => Some(p@),
        None => None,
    }
}

/// Puts the queries of a detail page to the document `html`.
pub fn read_page(html: &str) -> (r: Option<Page>)
    ensures
        page_view(r) == page_of(html@),
{
    let mut spans = select_nested_texts(html, ".list", 1, "span")?;
    let mut third = select_nested_texts(html, ".list", 2, "span")?;
    let links = select_attr(html, ".torrent-detail-info h3>a", "href")?;
    let infohash = select_texts(html, ".infohash-box>p>span")?;
    let heading = select_texts(html, "h1")?;
    let description = select_texts(html, ".torrent-tabs #description")?;
    let images = select_attr(html, ".torrent-tabs #description img", "data-original")?;
    let trackers = select_texts(html, ".torrent-tabs #tracker-list li")?;
    let files = select_texts(html, ".torrent-tabs #files li")?;
    let badges = select_texts(html, ".torrent-tabs .tab-nav a[href=\"#comments\"]>span")?;
    let ghost second = groups_view(spans@);
    let ghost rest = groups_view(third@);
    spans.append(&mut third);
    proof {
        assert(groups_view(spans@) =~= second + rest);
    }
    Some(Page { spans, links, infohash, heading, description, images, trackers, files, badges })
}

/// How far a torrent's record has come.
#[derive(Debug, Clone, PartialEq, Eq)]
pub enum Step {
    /// The ID names no torrent.
    Absent,
    /// The record is whole: the page announces no comments.
    Complete(TorrentInfo),
    /// The page announces comments: the record waits for the comment feed.
    Comments(TorrentInfo),
}

/// What a [`Step`] holds, as plain values.
pub enum StepView {
    Absent,
    Complete(TorrentInfoView),
    Comments(TorrentInfoView),
}

impl View for Step {
    type V = StepView;

    open spec fn view(&self) -> StepView {
        match self {
            Step::Absent => StepView::Absent,
            Step::Complete(t) => StepView::Complete(t@),
            Step::Comments(t) => StepView::Comments(t@),
        }
    }
}

/// What the detail page `html`, captured at `now`, leads to.
///
/// A page with a notice of absence names no torrent, whatever else it
/// holds. Any other page must have three info lists and give a record.
pub open spec fn page_step(html: Seq<char>, now: u64) -> Result<StepView, ExtractError> {
    if marked_absent(html) {
        Ok(StepView::Absent)
    } else {
        match selected_texts(html, ".list"@) {
            None => Err(ExtractError::Query),
            Some(lists) => if lists.len() != 3 {
                Err(ExtractError::ListCount(lists.len() as usize))
            } else {
                match page_of(html) {
                    None => Err(ExtractError::Query),
                    Some(page) => match item_of(page, now) {
                        Err(e) => Err(e),
                        Ok(item) => if announced_comments(page.badges) > 0 {
                            Ok(StepView::Comments(item))
                        } else {
                            Ok(StepView::Complete(item))
                        },
                    },
                }
            },
        }
    }
}

/// A page with a notice of absence gives a tombstone, whatever else it
/// holds and whenever it is read: no comment feed is asked for.
pub proof fn lemma_absent_page_is_a_tombstone(html: Seq<char>, now: u64)
    requires
        marked_absent(html),
    ensures
        page_step(html, now) == Ok::<StepView, ExtractError>(StepView::Absent),
{
}

/// What `r` holds, as plain values.
pub open spec fn step_view(r: Result<Step, ExtractError>) -> Result<StepView, ExtractError> {
    match r {
        Ok(s) => Ok(s@),
        Err(e) => Err(e),
    }
}

/// Reads the detail page `html`, captured at `now`.
pub fn extract_page(html: &str, now: u64) -> (r: Result<Step, ExtractError>)
    ensures
        step_view(r) == page_step(html@, now),
        r matches Ok(Step::Complete(t)) ==> t@.wf() && t@.comments.len() == 0,
        r matches Ok(Step::Comments(t)) ==> t@.wf() && t@.comments.len() == 0,
{
    if is_absent(html) {
        return Ok(Step::Absent);
    }
    let lists = match select_texts(html, ".list") {
        Some(lists) => lists,
        None => {
            return Err(ExtractError::Query);
        },
    };
    if lists.len() != 3 {
        return Err(ExtractError::ListCount(lists.len()));
    }
    let page = match read_page(html) {
        Some(page) => page,
        None => {
            return Err(ExtractError::Query);
        },
    };
    let item = build_item(&page, now)?;
    if comment_count(&page) > 0 {
        Ok(Step::Comments(item))
    } else {
        Ok(Step::Complete(item))
    }
}

/// `chrono::Utc::now().timestamp()`: the clock of the machine, in whole
/// seconds since the epoch. Nothing is claimed of the value. `Utc::now`
/// panics on a machine whose clock stands before the epoch.
#[verifier::external_body]
fn capture_instant() -> u64 {
    chrono::Utc::now().timestamp() as u64
}

/// Takes the response to the request for a detail page: any status but 200
/// is a fault; otherwise the body is read with the present instant as the
/// instant of capture.
pub fn scrape_torrent(status: i32, body: &str) -> (r: Result<Step, ExtractError>)
    ensures
        status != 200 ==> r == Err::<Step, ExtractError>(ExtractError::Status(status)),
        status == 200 ==> exists|now: u64| step_view(r) == #[trigger] page_step(body@, now),
        r matches Ok(Step::Complete(t)) ==> t@.wf() && t@.comments.len() == 0,
        r matches Ok(Step::Comments(t)) ==> t@.wf() && t@.comments.len() == 0,
{
    if status != 200 {
        return Err(ExtractError::Status(status));
    }
    let now = capture_instant();
    extract_page(body, now)
}

/// The name that stands for a commenter or a class that the feed leaves
/// out.
pub open spec fn deleted() -> Seq<char> {
    "[deleted]"@
}

/// The stored form of a comment of the feed that was posted at `posted`.
pub open spec fn stored_comment(raw: RawCommentView, posted: u64) -> CommentView {
    CommentView {
        avatar: raw.avatar,
        class: match raw.class {
            Some(c) => c,
            None => deleted(),
        },
        comment: raw.comment,
        commentid: raw.commentid,
        posted,
        username: match raw.username {
            Some(u) => u,
            None => deleted(),
        },
    }
}

/// The comments of a feed in their stored form, in the feed's order; one
/// whose time of posting is no relative time before `now` is passed over.
pub open spec fn converted(now: u64, raw: Seq<RawCommentView>) -> Seq<CommentView>
    decreases raw.len(),
{
    if raw.len() == 0 {
        Seq::empty()
    } else {
        let rest = converted(now, raw.drop_last());
        match time_offset(now, raw.last().posted) {
            Some(posted) => rest.push(stored_comment(raw.last(), posted)),
            None => rest,
        }
    }
}

fn filled_in(name: &Option<String>) -> (r: String)
    ensures
        r@ == match text_view(*name) {
            Some(n) => n,
            None => deleted(),
        },
{
    match name {
        Some(n) => n.clone(),
        None => String::from_str("[deleted]"),
    }
}

/// Turns the comments of a feed into their stored form, with `now` as the
/// instant that their relative times count back from.
pub fn convert_comments(now: u64, raw: &Vec<RawComment>) -> (r: Vec<Comment>)
    ensures
        r@.map_values(|c: Comment| c@) == converted(now, raw@.map_values(|c: RawComment| c@)),
{
    let ghost all = raw@.map_values(|c: RawComment| c@);
    let mut r: Vec<Comment> = Vec::new();
    let mut i: usize = 0;
    proof {
        assert(all.take(0) =~= Seq::<RawCommentView>::empty());
        assert(r@.map_values(|c: Comment| c@) =~= converted(now, all.take(0)));
    }
    while i < raw.len()
        invariant
            i <= raw.len(),
            all == raw@.map_values(|c: RawComment| c@),
            r@.map_values(|c: Comment| c@) == converted(now, all.take(i as int)),
        decreases raw.len() - i,
    {
        let entry = &raw[i];
        proof {
            assert(all.take(i + 1).drop_last() =~= all.take(i as int));
            assert(all.take(i + 1).last() == entry@);
        }
        match parse_time_offset(now, entry.posted.as_str()) {
            Some(posted) => {
                let comment = Comment {
                    avatar: entry.avatar.clone(),
                    class: filled_in(&entry.class),
                    comment: entry.comment.clone(),
                    commentid: entry.commentid,
                    posted,
                    username: filled_in(&entry.username),
                };
                let ghost before = r@.map_values(|c: Comment| c@);
                let ghost cv = comment@;
                r.push(comment);
                proof {
                    assert(cv == stored_comment(entry@, posted));
                    assert(r@.map_values(|c: Comment| c@) =~= before.push(cv));
                }
            },
            None => {},
        }
        i += 1;
    }
    proof {
        assert(all.take(i as int) =~= all);
    }
    r
}

/// What a comment feed holds, as plain values; `None` for a body that is no
/// comment feed.
pub open spec fn feed_view(feed: Option<Vec<RawComment>>) -> Option<Seq<RawCommentView>> {
    match feed {
        Some(raw) => Some(raw@.map_values(|c: RawComment| c@)),
        None => None,
    }
}

/// The record `item` after the response to the request for its comments.
///
/// With any status but 200 the record stays without comments. With status
/// 200 a body that is no comment feed is a fault; otherwise the record
/// takes the feed's comments, their times counted back from the record's
/// instant of capture.
pub open spec fn with_comments(
    item: TorrentInfoView,
    status: i32,
    feed: Option<Seq<RawCommentView>>,
) -> Result<TorrentInfoView, ExtractError> {
    if status != 200 {
        Ok(item)
    } else {
        match feed {
            None => Err(ExtractError::Feed),
            Some(raw) => Ok(
                TorrentInfoView { comments: converted(item.scraped_ts, raw), ..item },
            ),
        }
    }
}

/// Merges the response to the request for a record's comments into the
/// record. `feed` is the body as a comment feed, `None` where it is none.
pub fn attach_comments(item: TorrentInfo, status: i32, feed: Option<Vec<RawComment>>) -> (r:
    Result<TorrentInfo, ExtractError>)
    ensures
        item_view(r) == with_comments(item@, status, feed_view(feed)),
        item@.wf() ==> (r matches Ok(t) ==> t@.wf()),
{
    if status != 200 {
        return Ok(item);
    }
    match feed {
        None => Err(ExtractError::Feed),
        Some(raw) => {
            let mut item = item;
            item.comments = convert_comments(item.scraped_ts, &raw);
            Ok(item)
        },
    }
}

} // verus!
