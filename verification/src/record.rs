//! The records that a crawl produces and persists.

use crate::text::{chars_of, same_chars};
use vstd::prelude::*;
use vstd::string::StringExecFns;

verus! {

/// One entry of a torrent's file listing.
#[derive(Debug, Clone, PartialEq, Eq)]
pub struct File {
    pub name: String,
    pub size: u64,
}

/// What a [`File`] holds, as plain values.
pub struct FileView {
    pub name: Seq<char>,
    pub size: u64,
}

impl View for File {
    type V = FileView;

    open spec fn view(&self) -> FileView {
        FileView { name: self.name@, size: self.size }
    }
}

/// A comment as the comment feed delivers it.
#[derive(Debug, Clone, PartialEq, Eq)]
pub struct RawComment {
    pub avatar: String,
    pub class: Option<String>,
    pub comment: String,
    pub commentid: u64,
    /// When it was posted, as a relative time such as `3 days ago`.
    pub posted: String,
    pub username: Option<String>,
}

/// What a [`RawComment`] holds, as plain values.
pub struct RawCommentView {
    pub avatar: Seq<char>,
    pub class: Option<Seq<char>>,
    pub comment: Seq<char>,
    pub commentid: u64,
    pub posted: Seq<char>,
    pub username: Option<Seq<char>>,
}

/// The characters of an optional string.
pub open spec fn text_view(s: Option<String>) -> Option<Seq<char>> {
    match s {
        Some(s) => Some(s@),
        None => None,
    }
}

/// The characters of each string of a list.
pub open spec fn texts_view(v: Seq<String>) -> Seq<Seq<char>> {
    v.map_values(|s: String| s@)
}

impl View for RawComment {
    type V = RawCommentView;

    open spec fn view(&self) -> RawCommentView {
        RawCommentView {
            avatar: self.avatar@,
            class: text_view(self.class),
            comment: self.comment@,
            commentid: self.commentid,
            posted: self.posted@,
            username: text_view(self.username),
        }
    }
}

/// A comment as it is stored with its torrent.
#[derive(Debug, Clone, PartialEq, Eq)]
pub struct Comment {
    pub avatar: String,
    pub class: String,
    pub comment: String,
    pub commentid: u64,
    /// When it was posted, in seconds since the epoch.
    pub posted: u64,
    pub username: String,
}

/// What a [`Comment`] holds, as plain values.
pub struct CommentView {
    pub avatar: Seq<char>,
    pub class: Seq<char>,
    pub comment: Seq<char>,
    pub commentid: u64,
    pub posted: u64,
    pub username: Seq<char>,
}

impl View for Comment {
    type V = CommentView;

    open spec fn view(&self) -> CommentView {
        CommentView {
            avatar: self.avatar@,
            class: self.class@,
            comment: self.comment@,
            commentid: self.commentid,
            posted: self.posted,
            username: self.username@,
        }
    }
}

/// Everything that is kept of one torrent.
#[derive(Debug, Clone, PartialEq, Eq)]
pub struct TorrentInfo {
    pub name: String,
    pub description: String,
    pub infohash: String,
    pub category: String,
    pub ty: String,
    pub language: String,
    pub total_size: u64,
    pub uploader: String,
    pub downloads: usize,
    pub last_checked_ts: u64,
    pub uploaded_ts: u64,
    pub seeders: usize,
    pub leechers: usize,
    pub scraped_ts: u64,
    pub tmdb_id: Option<usize>,
    pub series_id: Option<String>,
    pub images: Vec<String>,
    pub trackers: Vec<String>,
    pub files: Vec<File>,
    pub comments: Vec<Comment>,
}

/// What a [`TorrentInfo`] holds, as plain values.
pub struct TorrentInfoView {
    pub name: Seq<char>,
    pub description: Seq<char>,
    pub infohash: Seq<char>,
    pub category: Seq<char>,
    pub ty: Seq<char>,
    pub language: Seq<char>,
    pub total_size: u64,
    pub uploader: Seq<char>,
    pub downloads: usize,
    pub last_checked_ts: u64,
    pub uploaded_ts: u64,
    pub seeders: usize,
    pub leechers: usize,
    pub scraped_ts: u64,
    pub tmdb_id: Option<usize>,
    pub series_id: Option<Seq<char>>,
    pub images: Seq<Seq<char>>,
    pub trackers: Seq<Seq<char>>,
    pub files: Seq<FileView>,
    pub comments: Seq<CommentView>,
}

impl TorrentInfoView {
    /// A torrent belongs to a movie or to a series, never to both.
    pub open spec fn wf(self) -> bool {
        !(self.tmdb_id is Some && self.series_id is Some)
    }
}

impl View for TorrentInfo {
    type V = TorrentInfoView;

    open spec fn view(&self) -> TorrentInfoView {
        TorrentInfoView {
            name: self.name@,
            description: self.description@,
            infohash: self.infohash@,
            category: self.category@,
            ty: self.ty@,
            language: self.language@,
            total_size: self.total_size,
            uploader: self.uploader@,
            downloads: self.downloads,
            last_checked_ts: self.last_checked_ts,
            uploaded_ts: self.uploaded_ts,
            seeders: self.seeders,
            leechers: self.leechers,
            scraped_ts: self.scraped_ts,
            tmdb_id: self.tmdb_id,
            series_id: text_view(self.series_id),
            images: texts_view(self.images@),
            trackers: texts_view(self.trackers@),
            files: self.files@.map_values(|f: File| f@),
            comments: self.comments@.map_values(|c: Comment| c@),
        }
    }
}

/// Whether a count is the one that a stored record leaves out.
pub fn is_zero(val: &usize) -> (r: bool)
    ensures
        r == (*val == 0),
{
    *val == 0
}

/// Whether a size is the one that a stored record leaves out.
pub fn is_zero_u64(val: &u64) -> (r: bool)
    ensures
        r == (*val == 0),
{
    *val == 0
}

/// The class of a commenter of whom the record names none.
pub open spec fn default_class() -> Seq<char> {
    "user"@
}

/// The avatar of a commenter of whom the record names none.
pub open spec fn default_avatar() -> Seq<char> {
    "/images/thread-user.jpg"@
}

/// Whether a class is the one that a stored comment leaves out.
pub fn is_user(val: &String) -> (r: bool)
    ensures
        r == (val@ == default_class()),
{
    let chars = chars_of(val.as_str());
    same_chars(chars.as_slice(), "user")
}

/// The class that a stored comment without one has.
pub fn user() -> (r: String)
    ensures
        r@ == default_class(),
{
    String::from_str("user")
}

/// Whether an avatar is the one that a stored comment leaves out.
pub fn is_thread_user_avatar(val: &String) -> (r: bool)
    ensures
        r == (val@ == default_avatar()),
{
    let chars = chars_of(val.as_str());
    same_chars(chars.as_slice(), "/images/thread-user.jpg")
}

/// The avatar that a stored comment without one has.
pub fn thread_user_avatar() -> (r: String)
    ensures
        r@ == default_avatar(),
{
    String::from_str("/images/thread-user.jpg")
}

} // verus!
