//! Reading the release feed: a fixed XML schema with a channel of `item`
//! elements, each carrying a `title`, a `link` whose trailing path segment is
//! the release identity, and a nested torrent publication date.
//!
//! The feed's schema is fixed, so the items are extracted by scanning for
//! the schema's own anchors; element text has the five XML entities decoded.
//! Items whose title announces a bundle of several seasons are excluded
//! before parsing.

use vstd::prelude::*;
use crate::cache_store::MikanItem;
use crate::strutil::{chars_of, find_sub, replace_chars, replace_seq, string_from, sub_at};
use crate::title_parser::{
    codec_tags, has_season_bundle, is_season_bundle, language_tags, parsed_episode,
    parse_filename_to_codec, parse_filename_to_episode, parse_filename_to_language,
};

verus! {

/// The first occurrence of `t` in `s` at or after `from`, or a negative
/// number.
pub open spec fn find_at(s: Seq<char>, t: Seq<char>, from: int) -> int
    decreases s.len() - from,
{
    if from < 0 || from + t.len() > s.len() {
        -1
    } else if sub_at(s, t, from) {
        from
    } else if from >= s.len() {
        -1
    } else {
        find_at(s, t, from + 1)
    }
}

/// What `find_at` yields when the scan up to `k` saw no occurrence.
pub proof fn lemma_find_at_char(s: Seq<char>, t: Seq<char>, from: int, k: int)
    requires
        0 <= from <= k,
        forall|m: int| from <= m < k ==> !sub_at(s, t, m),
    ensures
        k + t.len() <= s.len() && sub_at(s, t, k) ==> find_at(s, t, from) == k,
        (forall|m: int| from <= m ==> !sub_at(s, t, m)) ==> find_at(s, t, from) == -1,
    decreases s.len() - from,
{
    if from >= 0 && from + t.len() <= s.len() && !sub_at(s, t, from) && from < s.len() {
        lemma_find_at_char(s, t, from + 1, if k > from { k } else { from + 1 });
    }
}

/// The first occurrence of `t` in `s` at or after `from`, tied to `find_at`.
pub fn find_from(s: &Vec<char>, t: &Vec<char>, from: usize) -> (r: Option<usize>)
    ensures
        match r {
            Some(i) => from <= i && i as int == find_at(s@, t@, from as int) && sub_at(
                s@,
                t@,
                i as int,
            ),
            None => find_at(s@, t@, from as int) == -1,
        },
{
    match find_sub(s, t, from) {
        Some(i) => {
            proof {
                lemma_find_at_char(s@, t@, from as int, i as int);
            }
            Some(i)
        },
        None => {
            proof {
                lemma_find_at_char(s@, t@, from as int, from as int);
            }
            None
        },
    }
}

/// The text between the first `open` anchor at or after `from` and the next
/// `close` anchor, with where the close anchor ends.
pub open spec fn tag_text_at(
    s: Seq<char>,
    open: Seq<char>,
    close: Seq<char>,
    from: int,
) -> Option<(Seq<char>, int)> {
    let a = find_at(s, open, from);
    if a < from {
        None
    } else {
        let start = a + open.len();
        let b = find_at(s, close, start);
        if b < start {
            None
        } else {
            Some((s.subrange(start, b), b + close.len()))
        }
    }
}

/// The five XML entities decoded.
pub open spec fn xml_decode(s: Seq<char>) -> Seq<char> {
    let s1 = replace_seq(s, "&lt;"@, "<"@);
    let s2 = replace_seq(s1, "&gt;"@, ">"@);
    let s3 = replace_seq(s2, "&quot;"@, "\""@);
    let s4 = replace_seq(s3, "&apos;"@, "'"@);
    replace_seq(s4, "&amp;"@, "&"@)
}

/// The five XML entities decoded.
fn xml_decode_exec(s: &Vec<char>) -> (r: Vec<char>)
    ensures
        r@ == xml_decode(s@),
{
    proof {
        reveal_strlit("&lt;");
        reveal_strlit("&gt;");
        reveal_strlit("&quot;");
        reveal_strlit("&apos;");
        reveal_strlit("&amp;");
    }
    let s1 = replace_chars(s, &chars_of("&lt;"), &chars_of("<"));
    let s2 = replace_chars(&s1, &chars_of("&gt;"), &chars_of(">"));
    let s3 = replace_chars(&s2, &chars_of("&quot;"), &chars_of("\""));
    let s4 = replace_chars(&s3, &chars_of("&apos;"), &chars_of("'"));
    replace_chars(&s4, &chars_of("&amp;"), &chars_of("&"))
}

/// The release identity of a link: everything after its last slash, or the
/// whole link when it has no slash.
pub open spec fn uuid_of_link(link: Seq<char>) -> Seq<char> {
    if (exists|i: int| 0 <= i < link.len() && link[i] == '/') {
        let i = last_slash(link, link.len() - 1);
        link.subrange(i + 1, link.len() as int)
    } else {
        link
    }
}

/// The position of the last slash at or below `i`.
pub open spec fn last_slash(link: Seq<char>, i: int) -> int
    decreases i + 1,
{
    if i < 0 {
        -1
    } else if link[i] == '/' {
        i
    } else {
        last_slash(link, i - 1)
    }
}

/// The release identity of a link.
fn uuid_of_link_exec(link: &Vec<char>) -> (r: Vec<char>)
    ensures
        r@ == uuid_of_link(link@),
{
    let n = link.len();
    let mut i = n;
    while i > 0
        invariant
            i <= n == link@.len(),
            forall|k: int| i <= k < n ==> link@[k] != '/',
        decreases i,
    {
        if link[i - 1] == '/' {
            proof {
                assert(last_slash(link@, n - 1) == i - 1) by {
                    lemma_last_slash(link@, n - 1, i - 1);
                }
                assert(link@[i - 1] == '/');
            }
            let r = crate::strutil::copy_range(link, i, n);
            return r;
        }
        i = i - 1;
    }
    proof {
        assert(forall|k: int| 0 <= k < n ==> link@[k] != '/');
    }
    let mut r: Vec<char> = Vec::new();
    let mut k: usize = 0;
    while k < n
        invariant
            k <= n == link@.len(),
            r@ == link@.take(k as int),
        decreases n - k,
    {
        r.push(link[k]);
        k = k + 1;
        proof {
            assert(r@ =~= link@.take(k as int));
        }
    }
    proof {
        assert(r@ =~= link@);
    }
    r
}

/// Scanning down from `i`, the last slash is the first one met.
proof fn lemma_last_slash(link: Seq<char>, i: int, j: int)
    requires
        0 <= j <= i < link.len(),
        link[j] == '/',
        forall|k: int| j < k <= i ==> link[k] != '/',
    ensures
        last_slash(link, i) == j,
    decreases i - j,
{
    if i > j {
        lemma_last_slash(link, i - 1, j);
    }
}

/// One feed entry: a release title, its identity, and its publication date.
pub struct FeedEntry {
    /// The decoded release title.
    pub title: Seq<char>,
    /// The release identity from the link's trailing path segment.
    pub uuid: Seq<char>,
    /// The torrent's publication date text.
    pub pub_date: Seq<char>,
}

/// The fields of one item block, when the block carries all three.
pub open spec fn entry_of_block(block: Seq<char>) -> Option<FeedEntry> {
    match tag_text_at(block, "<title>"@, "</title>"@, 0) {
        Some(t) => match tag_text_at(block, "<link>"@, "</link>"@, 0) {
            Some(l) => match tag_text_at(block, "<pubDate>"@, "</pubDate>"@, 0) {
                Some(p) => Some(
                    FeedEntry {
                        title: xml_decode(t.0),
                        uuid: uuid_of_link(xml_decode(l.0)),
                        pub_date: xml_decode(p.0),
                    },
                ),
                None => None,
            },
            None => None,
        },
        None => None,
    }
}

/// The feed entries from position `pos` on: every item block whose fields
/// are all present and whose title does not announce a season bundle.
pub open spec fn entries_from(s: Seq<char>, pos: int) -> Seq<FeedEntry>
    decreases s.len() - pos,
    when pos >= 0
{
    let a = find_at(s, "<item>"@, pos);
    if a < pos || a + 6 > s.len() {
        Seq::<FeedEntry>::empty()
    } else {
        let b = find_at(s, "</item>"@, a + 6);
        if b < a + 6 || b + 7 > s.len() {
            Seq::<FeedEntry>::empty()
        } else {
            let rest = entries_from(s, b + 7);
            match entry_of_block(s.subrange(a + 6, b)) {
                Some(e) => if has_season_bundle(e.title) {
                    rest
                } else {
                    seq![e] + rest
                },
                None => rest,
            }
        }
    }
}

/// Every feed entry of a document.
pub open spec fn entries_of(s: Seq<char>) -> Seq<FeedEntry> {
    entries_from(s, 0)
}

/// How a freshly parsed release relates to its feed entry: identity, title
/// and date carried over; episode number, language and codec parsed from the
/// title; everything resolution fills in still at its defaults.
pub open spec fn item_matches_entry(it: MikanItem, e: FeedEntry) -> bool {
    &&& it.mikan_item_uuid@ == e.uuid
    &&& it.mikan_item_title@ == e.title
    &&& it.mikan_item_pub_date@ == e.pub_date
    &&& it.mikan_subject_id == -1
    &&& it.mikan_subgroup_id == -1
    &&& it.mikan_subject_name@.len() == 0
    &&& it.mikan_item_magnet_link@.len() == 0
    &&& it.tmdb_series_name@ == e.title
    &&& it.tmdb_season_name@ == e.title
    &&& it.tmdb_parsed_season_num == -1
    &&& it.bangumi_parsed_season_num == -1
    &&& it.mikan_parsed_episode_num as int == (match parsed_episode(e.title) {
        Some(v) => if v <= 0x7fffffff {
            v
        } else {
            -1
        },
        None => -1,
    })
    &&& it.mikan_parsed_language@ == language_tags(e.title)
    &&& it.mikan_parsed_codec@ == codec_tags(e.title)
    &&& it.bangumi_parsed_episode_id == -1
    &&& it.bangumi_parsed_episode_ep == -1
    &&& it.bangumi_parsed_episode_sort@.len() == 0
}

/// The releases announced by a feed document: one per item element that
/// carries a title, link and publication date and is not a season bundle, in
/// document order, with title-parsed fields filled and resolution fields at
/// their defaults.
pub fn parse_rss(xml: &str) -> (r: Vec<MikanItem>)
    ensures
        r@.len() == entries_of(xml@).len(),
        forall|j: int|
            0 <= j < r@.len() ==> item_matches_entry(#[trigger] r@[j], entries_of(xml@)[j]),
{
    let s = chars_of(xml);
    let item_open = chars_of("<item>");
    let item_close = chars_of("</item>");
    let title_open = chars_of("<title>");
    let title_close = chars_of("</title>");
    let link_open = chars_of("<link>");
    let link_close = chars_of("</link>");
    let date_open = chars_of("<pubDate>");
    let date_close = chars_of("</pubDate>");
    proof {
        reveal_strlit("<item>");
        reveal_strlit("</item>");
    }

    let n = s.len();
    let mut out: Vec<MikanItem> = Vec::new();
    let mut pos: usize = 0;
    let ghost total = entries_of(xml@);
    let ghost mut done: Seq<FeedEntry> = Seq::<FeedEntry>::empty();
    proof {
        assert(total =~= done + entries_from(s@, 0));
    }
    loop
        invariant
            pos <= s@.len(),
            n == s@.len(),
            s@ == xml@,
            item_open@ == "<item>"@,
            item_close@ == "</item>"@,
            title_open@ == "<title>"@,
            title_close@ == "</title>"@,
            link_open@ == "<link>"@,
            link_close@ == "</link>"@,
            date_open@ == "<pubDate>"@,
            date_close@ == "</pubDate>"@,
            total == entries_of(xml@),
            total == done + entries_from(s@, pos as int),
            out@.len() == done.len(),
            forall|j: int| 0 <= j < out@.len() ==> item_matches_entry(#[trigger] out@[j], done[j]),
        decreases s@.len() - pos,
    {
        proof {
            reveal_strlit("<item>");
            reveal_strlit("</item>");
        }
        let a = match find_from(&s, &item_open, pos) {
            Some(a) => {
                proof {
                    assert(a + 6 <= s@.len());
                }
                a
            },
            None => {
                proof {
                    assert(entries_from(s@, pos as int) =~= Seq::<FeedEntry>::empty());
                    assert(total =~= done);
                }
                return out;
            },
        };
        let b = match find_from(&s, &item_close, a + 6) {
            Some(b) => {
                proof {
                    assert(b + 7 <= s@.len());
                }
                b
            },
            None => {
                proof {
                    assert(entries_from(s@, pos as int) =~= Seq::<FeedEntry>::empty());
                    assert(total =~= done);
                }
                return out;
            },
        };
        let block = crate::strutil::copy_range(&s, a + 6, b);
        let ghost blockv = s@.subrange(a + 6, b as int);
        match extract_entry(&block, &title_open, &title_close, &link_open, &link_close, &date_open,
            &date_close) {
            Some((title, uuid, date)) => {
                let titlestr = string_from(&title);
                if !is_season_bundle(titlestr.as_str()) {
                    let episode = match parse_filename_to_episode(titlestr.as_str()) {
                        Some(v) => v,
                        None => -1,
                    };
                    let item = MikanItem {
                        mikan_item_uuid: string_from(&uuid),
                        mikan_subject_id: -1,
                        mikan_subject_name: String::new(),
                        mikan_subgroup_id: -1,
                        mikan_item_title: titlestr.clone(),
                        mikan_item_magnet_link: String::new(),
                        mikan_item_pub_date: string_from(&date),
                        tmdb_series_name: titlestr.clone(),
                        tmdb_season_name: titlestr.clone(),
                        tmdb_parsed_season_num: -1,
                        bangumi_parsed_season_num: -1,
                        mikan_parsed_episode_num: episode,
                        mikan_parsed_language: parse_filename_to_language(titlestr.as_str()),
                        mikan_parsed_codec: parse_filename_to_codec(titlestr.as_str()),
                        bangumi_parsed_episode_id: -1,
                        bangumi_parsed_episode_ep: -1,
                        bangumi_parsed_episode_sort: String::new(),
                    };
                    proof {
                        let e = entry_of_block(blockv)->Some_0;
                        assert(item_matches_entry(item, e));
                        done = done.push(e);
                    }
                    out.push(item);
                } else {
                    proof {
                        assert(has_season_bundle(entry_of_block(blockv)->Some_0.title));
                    }
                }
            },
            None => {},
        }
        proof {
            assert(entries_from(s@, pos as int) == (match entry_of_block(blockv) {
                Some(e) => if has_season_bundle(e.title) {
                    entries_from(s@, b + 7)
                } else {
                    seq![e] + entries_from(s@, b + 7)
                },
                None => entries_from(s@, b + 7),
            }));
            assert(total =~= done + entries_from(s@, b + 7 as int));
        }
        pos = b + 7;
    }
}

/// The three fields of one item block, decoded, when all are present.
fn extract_entry(
    block: &Vec<char>,
    title_open: &Vec<char>,
    title_close: &Vec<char>,
    link_open: &Vec<char>,
    link_close: &Vec<char>,
    date_open: &Vec<char>,
    date_close: &Vec<char>,
) -> (r: Option<(Vec<char>, Vec<char>, Vec<char>)>)
    requires
        title_open@ == "<title>"@,
        title_close@ == "</title>"@,
        link_open@ == "<link>"@,
        link_close@ == "</link>"@,
        date_open@ == "<pubDate>"@,
        date_close@ == "</pubDate>"@,
    ensures
        match r {
            Some(t) => entry_of_block(block@) matches Some(e) && t.0@ == e.title && t.1@ == e.uuid
                && t.2@ == e.pub_date,
            None => entry_of_block(block@) is None,
        },
{
    let title = match extract_tag(block, title_open, title_close) {
        Some(t) => t,
        None => {
            return None;
        },
    };
    let link = match extract_tag(block, link_open, link_close) {
        Some(l) => l,
        None => {
            return None;
        },
    };
    let date = match extract_tag(block, date_open, date_close) {
        Some(p) => p,
        None => {
            return None;
        },
    };
    let title_d = xml_decode_exec(&title);
    let link_d = xml_decode_exec(&link);
    let date_d = xml_decode_exec(&date);
    let uuid = uuid_of_link_exec(&link_d);
    Some((title_d, uuid, date_d))
}

/// The text between the first `open` anchor and the following `close`
/// anchor, if both stand in the block.
fn extract_tag(block: &Vec<char>, open: &Vec<char>, close: &Vec<char>) -> (r: Option<Vec<char>>)
    ensures
        match r {
            Some(t) => tag_text_at(block@, open@, close@, 0) matches Some(p) && t@ == p.0,
            None => tag_text_at(block@, open@, close@, 0) is None,
        },
{
    let n = block.len();
    let a = match find_from(block, open, 0) {
        Some(a) => a,
        None => {
            return None;
        },
    };
    proof {
        assert(a + open@.len() <= block@.len());
    }
    let start = a + open.len();
    let b = match find_from(block, close, start) {
        Some(b) => b,
        None => {
            return None;
        },
    };
    Some(crate::strutil::copy_range(block, start, b))
}

} // verus!
