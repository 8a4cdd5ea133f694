//! Building a torrent's record from what the queries on its detail page
//! gave.

use crate::page::{attrs_view, groups_view};
use crate::record::{
    text_view, texts_view, Comment, File, FileView, TorrentInfo, TorrentInfoView,
};
use crate::scalar::{
    data_size, file_entry, file_of_chars, parse_data_size, parse_time_offset, time_offset,
};
use crate::text::{
    chars_of, ends_with, glued, join, joined, lemma_split_at, lemma_split_on_len, lines, lines_of,
    parse_bounded, parse_nat, runs_view, same_chars, split, split_on, starts_with, string_of, trim,
    trimmed, without_cr,
};
use vstd::prelude::*;
use vstd::slice::{slice_subrange, slice_to_vec};
use vstd::string::StringExecFns;

verus! {

/// Why a detail page gave no record.
#[derive(Debug, Clone, Copy, PartialEq, Eq)]
pub enum ExtractError {
    /// The catalogue answered the request for the page with this status.
    Status(i32),
    /// The HTML engine rejected a query.
    Query,
    /// The page has this many info lists, not three.
    ListCount(usize),
    /// The second and third info list hold this many spans, not ten.
    SpanCount(usize),
    /// The total size is no size.
    Size,
    /// The download count is no number.
    Downloads,
    /// The time of the last check is no relative time.
    LastChecked,
    /// The time of the upload is no relative time.
    Uploaded,
    /// The seeder count is no number.
    Seeders,
    /// The leecher count is no number.
    Leechers,
    /// The page shows no infohash.
    Infohash,
    /// The page has no heading.
    Heading,
    /// The page has no description block.
    Description,
    /// The body of the comment feed is no comment feed.
    Feed,
}

/// What the queries on a detail page with three info lists gave. Where a
/// field holds a list of lists, the inner list holds the text nodes of one
/// element.
pub struct Page {
    /// The spans of the second info list, then those of the third.
    pub spans: Vec<Vec<String>>,
    /// The link target of each anchor in the detail heading.
    pub links: Vec<Option<String>>,
    /// The elements that show the infohash.
    pub infohash: Vec<Vec<String>>,
    /// The top-level headings.
    pub heading: Vec<Vec<String>>,
    /// The description blocks.
    pub description: Vec<Vec<String>>,
    /// The lazy-load source of each image in the description.
    pub images: Vec<Option<String>>,
    /// The items of the tracker list.
    pub trackers: Vec<Vec<String>>,
    /// The items of the file list.
    pub files: Vec<Vec<String>>,
    /// The badges on the comment tab.
    pub badges: Vec<Vec<String>>,
}

/// What a [`Page`] holds, as plain values.
pub struct PageView {
    pub spans: Seq<Seq<Seq<char>>>,
    pub links: Seq<Option<Seq<char>>>,
    pub infohash: Seq<Seq<Seq<char>>>,
    pub heading: Seq<Seq<Seq<char>>>,
    pub description: Seq<Seq<Seq<char>>>,
    pub images: Seq<Option<Seq<char>>>,
    pub trackers: Seq<Seq<Seq<char>>>,
    pub files: Seq<Seq<Seq<char>>>,
    pub badges: Seq<Seq<Seq<char>>>,
}

impl View for Page {
    type V = PageView;

    open spec fn view(&self) -> PageView {
        PageView {
            spans: groups_view(self.spans@),
            links: attrs_view(self.links@),
            infohash: groups_view(self.infohash@),
            heading: groups_view(self.heading@),
            description: groups_view(self.description@),
            images: attrs_view(self.images@),
            trackers: groups_view(self.trackers@),
            files: groups_view(self.files@),
            badges: groups_view(self.badges@),
        }
    }
}

/// The first text node of an element; the empty text where it has none.
pub open spec fn first_text(nodes: Seq<Seq<char>>) -> Seq<char> {
    if nodes.len() > 0 {
        nodes[0]
    } else {
        Seq::empty()
    }
}

fn first_str(nodes: &Vec<String>) -> (r: &str)
    ensures
        r@ == first_text(texts_view(nodes@)),
{
    if nodes.len() > 0 {
        nodes[0].as_str()
    } else {
        proof {
            reveal_strlit("");
            assert(""@ =~= Seq::<char>::empty());
        }
        ""
    }
}

/// The first text node of an element that is not blank, trimmed; the empty
/// text where all are blank.
pub open spec fn first_filled(nodes: Seq<Seq<char>>) -> Seq<char>
    decreases nodes.len(),
{
    if nodes.len() == 0 {
        Seq::empty()
    } else if trimmed(nodes[0]).len() > 0 {
        trimmed(nodes[0])
    } else {
        first_filled(nodes.drop_first())
    }
}

fn first_filled_node(nodes: &Vec<String>) -> (r: String)
    ensures
        r@ == first_filled(texts_view(nodes@)),
{
    let ghost all = texts_view(nodes@);
    let mut i: usize = 0;
    proof {
        assert(all.skip(0) =~= all);
    }
    while i < nodes.len()
        invariant
            i <= nodes.len(),
            all == texts_view(nodes@),
            first_filled(all) == first_filled(all.skip(i as int)),
        decreases nodes.len() - i,
    {
        let chars = chars_of(nodes[i].as_str());
        let t = trim(chars.as_slice());
        proof {
            assert(all.skip(i as int)[0] == nodes@[i as int]@);
            assert(all.skip(i as int).drop_first() =~= all.skip(i + 1));
        }
        if t.len() > 0 {
            return string_of(t);
        }
        i += 1;
    }
    String::new()
}

fn glue(nodes: &Vec<String>) -> (r: Vec<char>)
    ensures
        r@ == glued(texts_view(nodes@)),
{
    let ghost all = texts_view(nodes@);
    let mut r: Vec<char> = Vec::new();
    let mut i: usize = 0;
    proof {
        assert(all.take(0) =~= Seq::<Seq<char>>::empty());
    }
    while i < nodes.len()
        invariant
            i <= nodes.len(),
            all == texts_view(nodes@),
            r@ == glued(all.take(i as int)),
        decreases nodes.len() - i,
    {
        let mut chars = chars_of(nodes[i].as_str());
        proof {
            assert(all.take(i + 1).drop_last() =~= all.take(i as int));
            assert(all.take(i + 1).last() == nodes@[i as int]@);
        }
        r.append(&mut chars);
        i += 1;
    }
    proof {
        assert(all.take(i as int) =~= all);
    }
    r
}

/// The text of an element: its text nodes one after another, trimmed.
pub open spec fn element_text(nodes: Seq<Seq<char>>) -> Seq<char> {
    trimmed(glued(nodes))
}

fn text_of(nodes: &Vec<String>) -> (r: Vec<char>)
    ensures
        r@ == element_text(texts_view(nodes@)),
{
    let all = glue(nodes);
    slice_to_vec(trim(all.as_slice()))
}

/// The count written in `s`, where it fits the machine's word.
pub open spec fn count_in(s: Seq<char>) -> Option<usize> {
    match parse_nat(s) {
        Some(n) => if n <= usize::MAX {
            Some(n as usize)
        } else {
            None
        },
        None => None,
    }
}

fn count_of(v: &[char]) -> (r: Option<usize>)
    ensures
        r == count_in(v@),
{
    match parse_bounded(v, usize::MAX as u64) {
        Some(n) => Some(n as usize),
        None => None,
    }
}

fn parse_count(s: &str) -> (r: Option<usize>)
    ensures
        r == count_in(s@),
{
    let chars = chars_of(s);
    count_of(chars.as_slice())
}

/// Those runs of a list that are not empty.
pub open spec fn nonempty(parts: Seq<Seq<char>>) -> Seq<Seq<char>>
    decreases parts.len(),
{
    if parts.len() == 0 {
        parts
    } else if parts.last().len() == 0 {
        nonempty(parts.drop_last())
    } else {
        nonempty(parts.drop_last()).push(parts.last())
    }
}

/// The path segments of a link: what stands between its slashes, without
/// the empty pieces.
pub open spec fn segments(link: Seq<char>) -> Seq<Seq<char>> {
    nonempty(split_on(link, '/'))
}

fn segments_of(link: &[char]) -> (r: Vec<Vec<char>>)
    ensures
        runs_view(r@) == segments(link@),
{
    let pieces = split(link, '/');
    let ghost p = split_on(link@, '/');
    let mut r: Vec<Vec<char>> = Vec::new();
    let mut i: usize = 0;
    proof {
        assert(p.take(0) =~= Seq::<Seq<char>>::empty());
        assert(runs_view(r@) =~= nonempty(p.take(0)));
    }
    while i < pieces.len()
        invariant
            i <= pieces.len(),
            pieces@.map_values(|q: &[char]| q@) == p,
            runs_view(r@) == nonempty(p.take(i as int)),
        decreases pieces.len() - i,
    {
        let piece: &[char] = pieces[i];
        proof {
            assert(piece@ == p[i as int]);
            assert(p.take(i + 1).drop_last() =~= p.take(i as int));
            assert(p.take(i + 1).last() == p[i as int]);
        }
        if piece.len() > 0 {
            let ghost before = runs_view(r@);
            r.push(slice_to_vec(piece));
            proof {
                assert(runs_view(r@) =~= before.push(piece@));
            }
        }
        i += 1;
    }
    proof {
        assert(p.take(i as int) =~= p);
    }
    r
}

/// The link target of the first anchor in the detail heading, if it has
/// one.
pub open spec fn first_link(links: Seq<Option<Seq<char>>>) -> Option<Seq<char>> {
    if links.len() > 0 {
        links[0]
    } else {
        None
    }
}

/// The movie that a link names: the link starts with `/movie/` and has
/// exactly three path segments, of which the second is the number.
pub open spec fn movie_id(link: Option<Seq<char>>) -> Option<usize> {
    match link {
        Some(l) => if "/movie/"@.is_prefix_of(l) && segments(l).len() == 3 {
            count_in(segments(l)[1])
        } else {
            None
        },
        None => None,
    }
}

/// The series that a link names: the link starts with `/series/`, names no
/// movie, and has exactly two path segments, of which the second is the
/// series.
pub open spec fn series_name(link: Option<Seq<char>>) -> Option<Seq<char>> {
    match link {
        Some(l) => if !"/movie/"@.is_prefix_of(l) && "/series/"@.is_prefix_of(l) && segments(
            l,
        ).len() == 2 {
            Some(segments(l)[1])
        } else {
            None
        },
        None => None,
    }
}

/// No link names both a movie and a series.
pub proof fn lemma_identity_exclusive(link: Option<Seq<char>>)
    ensures
        !(movie_id(link) is Some && series_name(link) is Some),
{
}

/// The movie or the series that the detail heading links to.
fn identity_of(links: &Vec<Option<String>>) -> (r: (Option<usize>, Option<String>))
    ensures
        r.0 == movie_id(first_link(attrs_view(links@))),
        text_view(r.1) == series_name(first_link(attrs_view(links@))),
{
    if links.len() == 0 {
        return (None, None);
    }
    let link = match &links[0] {
        Some(l) => chars_of(l.as_str()),
        None => {
            return (None, None);
        },
    };
    assert(first_link(attrs_view(links@)) == Some(link@));
    let parts = segments_of(link.as_slice());
    let movie = chars_of("/movie/");
    let series = chars_of("/series/");
    if starts_with(link.as_slice(), movie.as_slice()) {
        if parts.len() != 3 {
            return (None, None);
        }
        assert(parts@[1]@ == segments(link@)[1]);
        (count_of(parts[1].as_slice()), None)
    } else if starts_with(link.as_slice(), series.as_slice()) {
        if parts.len() != 2 {
            return (None, None);
        }
        assert(parts@[1]@ == segments(link@)[1]);
        (None, Some(string_of(parts[1].as_slice())))
    } else {
        (None, None)
    }
}

/// The text nodes of an element that are not blank, each trimmed.
pub open spec fn filled(nodes: Seq<Seq<char>>) -> Seq<Seq<char>>
    decreases nodes.len(),
{
    if nodes.len() == 0 {
        nodes
    } else if trimmed(nodes.last()).len() == 0 {
        filled(nodes.drop_last())
    } else {
        filled(nodes.drop_last()).push(trimmed(nodes.last()))
    }
}

fn filled_nodes(nodes: &Vec<String>) -> (r: Vec<Vec<char>>)
    ensures
        runs_view(r@) == filled(texts_view(nodes@)),
{
    let ghost all = texts_view(nodes@);
    let mut r: Vec<Vec<char>> = Vec::new();
    let mut i: usize = 0;
    proof {
        assert(all.take(0) =~= Seq::<Seq<char>>::empty());
        assert(runs_view(r@) =~= filled(all.take(0)));
    }
    while i < nodes.len()
        invariant
            i <= nodes.len(),
            all == texts_view(nodes@),
            runs_view(r@) == filled(all.take(i as int)),
        decreases nodes.len() - i,
    {
        let chars = chars_of(nodes[i].as_str());
        let t = trim(chars.as_slice());
        proof {
            assert(all.take(i + 1).drop_last() =~= all.take(i as int));
            assert(all.take(i + 1).last() == nodes@[i as int]@);
        }
        if t.len() > 0 {
            let ghost before = runs_view(r@);
            r.push(slice_to_vec(t));
            proof {
                assert(runs_view(r@) =~= before.push(t@));
            }
        }
        i += 1;
    }
    proof {
        assert(all.take(i as int) =~= all);
    }
    r
}

/// The description that a description block holds: its text nodes that are
/// not blank, trimmed and put on a line each; empty where the block only
/// says that no description was given.
pub open spec fn description_text(nodes: Seq<Seq<char>>) -> Seq<char> {
    let parts = filled(nodes);
    if parts.len() == 1 && parts[0] == "No description given."@ {
        Seq::empty()
    } else {
        joined(parts, "\n"@)
    }
}

fn description_chars(nodes: &Vec<String>) -> (r: Vec<char>)
    ensures
        r@ == description_text(texts_view(nodes@)),
{
    let parts = filled_nodes(nodes);
    if parts.len() == 1 && same_chars(parts[0].as_slice(), "No description given.") {
        Vec::new()
    } else {
        let sep = chars_of("\n");
        join(parts.as_slice(), sep.as_slice())
    }
}

/// Whether a heading was cut short: it ends with three dots.
pub open spec fn is_truncated(heading: Seq<char>) -> bool {
    "..."@.is_suffix_of(heading)
}

/// The heading without the three dots of a cut.
pub open spec fn title_stem(heading: Seq<char>) -> Seq<char> {
    if is_truncated(heading) {
        heading.take(heading.len() - "..."@.len())
    } else {
        heading
    }
}

/// Whether the description repeats the title: it starts with the stem of a
/// heading that was cut, or with a whole heading and a line feed.
pub open spec fn repeats_title(heading: Seq<char>, description: Seq<char>) -> bool {
    if is_truncated(heading) {
        title_stem(heading).is_prefix_of(description)
    } else {
        (heading + "\n"@).is_prefix_of(description)
    }
}

/// Whether the first line of the description is taken for the title.
pub open spec fn title_from_description(heading: Seq<char>, description: Seq<char>) -> bool {
    repeats_title(heading, description) && lines_of(description).len() > 0
}

/// The title of a torrent with this heading and this description text.
pub open spec fn title_of(heading: Seq<char>, description: Seq<char>) -> Seq<char> {
    if title_from_description(heading, description) {
        lines_of(description)[0]
    } else {
        title_stem(heading)
    }
}

/// The description of a torrent with this heading and this description
/// text: without its first line where that line became the title.
pub open spec fn description_of(heading: Seq<char>, description: Seq<char>) -> Seq<char> {
    if title_from_description(heading, description) {
        joined(lines_of(description).skip(1), "\n"@)
    } else {
        description
    }
}

/// The lines of a first line, a line feed and a rest are the first line and
/// the lines of the rest.
pub proof fn lemma_lines_after_first(first: Seq<char>, rest: Seq<char>)
    requires
        forall|i: int| 0 <= i < first.len() ==> first[i] != '\n',
    ensures
        lines_of(first + "\n"@ + rest) == seq![without_cr(first)] + lines_of(rest),
{
    reveal_strlit("\n");
    let s = first + "\n"@ + rest;
    let n = first.len() as int;
    assert forall|i: int| 0 <= i < n implies s[i] != '\n' by {
        assert(s[i] == first[i]);
    }
    assert(s[n] == "\n"@[0]);
    lemma_split_at(s, '\n', n);
    assert(s.take(n) =~= first);
    assert(s.skip(n + 1) =~= rest);
    lemma_split_on_len(rest, '\n');
    assert(lines_of(s) =~= seq![without_cr(first)] + lines_of(rest));
}

/// Where the description opens with the full title on a line of its own
/// and the heading shows that title cut short, the title is taken from the
/// description and the description goes on behind it.
pub proof fn lemma_cut_title_is_completed(stem: Seq<char>, title: Seq<char>, rest: Seq<char>)
    requires
        stem.is_prefix_of(title),
        forall|i: int| 0 <= i < title.len() ==> title[i] != '\n',
    ensures
        title_of(stem + "..."@, title + "\n"@ + rest) == without_cr(title),
        description_of(stem + "..."@, title + "\n"@ + rest) == joined(lines_of(rest), "\n"@),
{
    let heading = stem + "..."@;
    let description = title + "\n"@ + rest;
    assert(heading.subrange(heading.len() - "..."@.len(), heading.len() as int) =~= "..."@);
    assert(is_truncated(heading));
    assert(title_stem(heading) =~= stem);
    assert(description.subrange(0, stem.len() as int) =~= title.subrange(0, stem.len() as int));
    assert(stem.is_prefix_of(description));
    lemma_lines_after_first(title, rest);
    let all = lines_of(description);
    assert(all.skip(1) =~= lines_of(rest));
}

/// Where the description opens with the whole heading on a line of its
/// own, that line is taken out of the description.
pub proof fn lemma_repeated_title_is_taken_out(title: Seq<char>, rest: Seq<char>)
    requires
        !is_truncated(title),
        forall|i: int| 0 <= i < title.len() ==> title[i] != '\n',
    ensures
        title_of(title, title + "\n"@ + rest) == without_cr(title),
        description_of(title, title + "\n"@ + rest) == joined(lines_of(rest), "\n"@),
{
    let description = title + "\n"@ + rest;
    let line = title + "\n"@;
    assert(description.subrange(0, line.len() as int) =~= line);
    assert(line.is_prefix_of(description));
    lemma_lines_after_first(title, rest);
    let all = lines_of(description);
    assert(all.skip(1) =~= lines_of(rest));
}

/// Settles title and description from the heading's text and the
/// description's text.
pub fn settle_title(heading: &[char], description: &[char]) -> (r: (Vec<char>, Vec<char>))
    ensures
        r.0@ == title_of(heading@, description@),
        r.1@ == description_of(heading@, description@),
{
    let dots = chars_of("...");
    let feed = chars_of("\n");
    let cut = ends_with(heading, dots.as_slice());
    let stem = if cut {
        slice_subrange(heading, 0, heading.len() - dots.len())
    } else {
        heading
    };
    assert(stem@ =~= title_stem(heading@));
    let repeats = if cut {
        starts_with(description, stem)
    } else {
        let mut line = slice_to_vec(heading);
        line.push('\n');
        proof {
            reveal_strlit("\n");
            assert(line@ =~= heading@ + "\n"@);
        }
        starts_with(description, line.as_slice())
    };
    if repeats {
        let all = lines(description);
        if all.len() > 0 {
            let tail = slice_subrange(all.as_slice(), 1, all.len());
            proof {
                assert(runs_view(tail@) =~= runs_view(all@).skip(1));
            }
            let rest = join(tail, feed.as_slice());
            let first = slice_to_vec(all[0].as_slice());
            return (first, rest);
        }
    }
    (slice_to_vec(stem), slice_to_vec(description))
}

/// The attribute values of a list that are there.
pub open spec fn present(attrs: Seq<Option<Seq<char>>>) -> Seq<Seq<char>>
    decreases attrs.len(),
{
    if attrs.len() == 0 {
        Seq::empty()
    } else {
        match attrs.last() {
            Some(a) => present(attrs.drop_last()).push(a),
            None => present(attrs.drop_last()),
        }
    }
}

fn present_of(attrs: &Vec<Option<String>>) -> (r: Vec<String>)
    ensures
        texts_view(r@) == present(attrs_view(attrs@)),
{
    let ghost all = attrs_view(attrs@);
    let mut r: Vec<String> = Vec::new();
    let mut i: usize = 0;
    proof {
        assert(all.take(0) =~= Seq::<Option<Seq<char>>>::empty());
        assert(texts_view(r@) =~= present(all.take(0)));
    }
    while i < attrs.len()
        invariant
            i <= attrs.len(),
            all == attrs_view(attrs@),
            texts_view(r@) == present(all.take(i as int)),
        decreases attrs.len() - i,
    {
        proof {
            assert(all.take(i + 1).drop_last() =~= all.take(i as int));
            assert(all.take(i + 1).last() == all[i as int]);
        }
        match &attrs[i] {
            Some(a) => {
                let ghost before = texts_view(r@);
                r.push(a.clone());
                proof {
                    assert(texts_view(r@) =~= before.push(a@));
                }
            },
            None => {},
        }
        i += 1;
    }
    proof {
        assert(all.take(i as int) =~= all);
    }
    r
}

/// The text of each element of a list.
pub open spec fn element_texts(items: Seq<Seq<Seq<char>>>) -> Seq<Seq<char>> {
    items.map_values(|nodes: Seq<Seq<char>>| element_text(nodes))
}

fn texts_of(items: &Vec<Vec<String>>) -> (r: Vec<String>)
    ensures
        texts_view(r@) == element_texts(groups_view(items@)),
{
    let mut r: Vec<String> = Vec::new();
    let mut i: usize = 0;
    while i < items.len()
        invariant
            i <= items.len(),
            r.len() == i,
            forall|j: int| 0 <= j < i ==> (#[trigger] r@[j])@ == element_text(texts_view(items@[j]@)),
        decreases items.len() - i,
    {
        let t = text_of(&items[i]);
        r.push(string_of(t.as_slice()));
        i += 1;
    }
    proof {
        assert(texts_view(r@) =~= element_texts(groups_view(items@)));
    }
    r
}

/// The files that the items of a file list name; an item that names none is
/// passed over.
pub open spec fn listed_files(items: Seq<Seq<Seq<char>>>) -> Seq<FileView>
    decreases items.len(),
{
    if items.len() == 0 {
        Seq::empty()
    } else {
        match file_entry(element_text(items.last())) {
            Some(f) => listed_files(items.drop_last()).push(f),
            None => listed_files(items.drop_last()),
        }
    }
}

fn files_of(items: &Vec<Vec<String>>) -> (r: Vec<File>)
    ensures
        r@.map_values(|f: File| f@) == listed_files(groups_view(items@)),
{
    let ghost all = groups_view(items@);
    let mut r: Vec<File> = Vec::new();
    let mut i: usize = 0;
    proof {
        assert(all.take(0) =~= Seq::<Seq<Seq<char>>>::empty());
        assert(r@.map_values(|f: File| f@) =~= listed_files(all.take(0)));
    }
    while i < items.len()
        invariant
            i <= items.len(),
            all == groups_view(items@),
            r@.map_values(|f: File| f@) == listed_files(all.take(i as int)),
        decreases items.len() - i,
    {
        let t = text_of(&items[i]);
        proof {
            assert(all.take(i + 1).drop_last() =~= all.take(i as int));
            assert(all.take(i + 1).last() == texts_view(items@[i as int]@));
        }
        match file_of_chars(t.as_slice()) {
            Some(f) => {
                let ghost before = r@.map_values(|f: File| f@);
                let ghost fv = f@;
                r.push(f);
                proof {
                    assert(r@.map_values(|f: File| f@) =~= before.push(fv));
                }
            },
            None => {},
        }
        i += 1;
    }
    proof {
        assert(all.take(i as int) =~= all);
    }
    r
}

/// The number of comments that the badge on the comment tab announces;
/// zero where there is no badge or it shows no number.
pub open spec fn announced_comments(badges: Seq<Seq<Seq<char>>>) -> usize {
    if badges.len() == 0 {
        0
    } else {
        match count_in(first_text(badges[0])) {
            Some(n) => n,
            None => 0,
        }
    }
}

/// The number of comments that a page announces.
pub fn comment_count(page: &Page) -> (r: usize)
    ensures
        r == announced_comments(page@.badges),
{
    if page.badges.len() == 0 {
        return 0;
    }
    match parse_count(first_str(&page.badges[0])) {
        Some(n) => n,
        None => 0,
    }
}

/// The record of the torrent that a page shows, without its comments, or
/// the first of the page's faults.
pub open spec fn item_of(page: PageView, now: u64) -> Result<TorrentInfoView, ExtractError> {
    if page.spans.len() != 10 {
        Err(ExtractError::SpanCount(page.spans.len() as usize))
    } else if data_size(first_text(page.spans[3])) is None {
        Err(ExtractError::Size)
    } else if count_in(first_text(page.spans[5])) is None {
        Err(ExtractError::Downloads)
    } else if time_offset(now, first_text(page.spans[6])) is None {
        Err(ExtractError::LastChecked)
    } else if time_offset(now, first_text(page.spans[7])) is None {
        Err(ExtractError::Uploaded)
    } else if count_in(first_text(page.spans[8])) is None {
        Err(ExtractError::Seeders)
    } else if count_in(first_text(page.spans[9])) is None {
        Err(ExtractError::Leechers)
    } else if page.infohash.len() == 0 {
        Err(ExtractError::Infohash)
    } else if page.heading.len() == 0 {
        Err(ExtractError::Heading)
    } else if page.description.len() == 0 {
        Err(ExtractError::Description)
    } else {
        let heading = element_text(page.heading[0]);
        let description = description_text(page.description[0]);
        Ok(
            TorrentInfoView {
                name: title_of(heading, description),
                description: description_of(heading, description),
                infohash: element_text(page.infohash[0]),
                category: first_text(page.spans[0]),
                ty: first_text(page.spans[1]),
                language: first_text(page.spans[2]),
                total_size: data_size(first_text(page.spans[3]))->0,
                uploader: first_filled(page.spans[4]),
                downloads: count_in(first_text(page.spans[5]))->0,
                last_checked_ts: time_offset(now, first_text(page.spans[6]))->0,
                uploaded_ts: time_offset(now, first_text(page.spans[7]))->0,
                seeders: count_in(first_text(page.spans[8]))->0,
                leechers: count_in(first_text(page.spans[9]))->0,
                scraped_ts: now,
                tmdb_id: movie_id(first_link(page.links)),
                series_id: series_name(first_link(page.links)),
                images: present(page.images),
                trackers: element_texts(page.trackers),
                files: listed_files(page.files),
                comments: Seq::empty(),
            },
        )
    }
}

/// What an extraction gave, as plain values.
pub open spec fn item_view(r: Result<TorrentInfo, ExtractError>) -> Result<
    TorrentInfoView,
    ExtractError,
> {
    match r {
        Ok(t) => Ok(t@),
        Err(e) => Err(e),
    }
}

/// Builds the record of the torrent that `page` shows, with `now` as the
/// instant of capture. The record has no comments yet, and names a movie or
/// a series but never both.
pub fn build_item(page: &Page, now: u64) -> (r: Result<TorrentInfo, ExtractError>)
    ensures
        item_view(r) == item_of(page@, now),
        r matches Ok(t) ==> t@.wf(),
{
    if page.spans.len() != 10 {
        return Err(ExtractError::SpanCount(page.spans.len()));
    }
    let spans = &page.spans;
    let ghost sv = page@.spans;
    assert(forall|i: int| 0 <= i < 10 ==> #[trigger] sv[i] == texts_view(spans@[i]@));
    let category = String::from_str(first_str(&spans[0]));
    let ty = String::from_str(first_str(&spans[1]));
    let language = String::from_str(first_str(&spans[2]));
    let total_size = match parse_data_size(first_str(&spans[3])) {
        Some(n) => n,
        None => {
            return Err(ExtractError::Size);
        },
    };
    let uploader = first_filled_node(&spans[4]);
    let downloads = match parse_count(first_str(&spans[5])) {
        Some(n) => n,
        None => {
            return Err(ExtractError::Downloads);
        },
    };
    let last_checked_ts = match parse_time_offset(now, first_str(&spans[6])) {
        Some(n) => n,
        None => {
            return Err(ExtractError::LastChecked);
        },
    };
    let uploaded_ts = match parse_time_offset(now, first_str(&spans[7])) {
        Some(n) => n,
        None => {
            return Err(ExtractError::Uploaded);
        },
    };
    let seeders = match parse_count(first_str(&spans[8])) {
        Some(n) => n,
        None => {
            return Err(ExtractError::Seeders);
        },
    };
    let leechers = match parse_count(first_str(&spans[9])) {
        Some(n) => n,
        None => {
            return Err(ExtractError::Leechers);
        },
    };
    let (tmdb_id, series_id) = identity_of(&page.links);
    proof {
        lemma_identity_exclusive(first_link(page@.links));
    }
    if page.infohash.len() == 0 {
        return Err(ExtractError::Infohash);
    }
    let infohash = text_of(&page.infohash[0]);
    if page.heading.len() == 0 {
        return Err(ExtractError::Heading);
    }
    let heading = text_of(&page.heading[0]);
    if page.description.len() == 0 {
        return Err(ExtractError::Description);
    }
    let text = description_chars(&page.description[0]);
    let (name, description) = settle_title(heading.as_slice(), text.as_slice());
    let images = present_of(&page.images);
    let trackers = texts_of(&page.trackers);
    let files = files_of(&page.files);
    let comments: Vec<Comment> = Vec::new();
    proof {
        assert(comments@.map_values(|c: Comment| c@) =~= Seq::empty());
    }
    Ok(
        TorrentInfo {
            name: string_of(name.as_slice()),
            description: string_of(description.as_slice()),
            infohash: string_of(infohash.as_slice()),
            category,
            ty,
            language,
            total_size,
            uploader,
            downloads,
            last_checked_ts,
            uploaded_ts,
            seeders,
            leechers,
            scraped_ts: now,
            tmdb_id,
            series_id,
            images,
            trackers,
            files,
            comments,
        },
    )
}

} // verus!
