//! The pure steps of detail resolution: reading the community-catalog
//! subject id off a subject page, assembling the cached subject mapping from
//! the catalogs' answers (partial on a secondary-catalog failure), and
//! completing a release from its detail page and mapping.  The network hops
//! between these steps live outside the library; each step here is a plain
//! function of what was fetched.

use vstd::prelude::*;
use crate::cache_store::{MikanItem, MikanSubject};
use crate::catalog::BangumiSubject;
use crate::detail_page::{number_after, EpisodePage};
use crate::errors::{new_err, AnyError};
use crate::library::in_range;
use crate::strutil::{chars_of, copy_range, string_from};

verus! {

/// What one secondary-catalog resolution yielded: the series and the chosen
/// season.
pub struct TMDBParseResult {
    /// The community-catalog subject this resolution started from.
    pub bangumi_subject_id: i32,
    /// The secondary catalog's series identity.
    pub media_id: i64,
    /// The secondary catalog's series name.
    pub media_name: String,
    /// The chosen season number.
    pub season_number: i64,
    /// The chosen season name.
    pub season_name: String,
}

/// The community-catalog subject id named on a feed subject page: the number
/// after the catalog's address anchor, ended by the closing quote.
pub fn extract_bangumi_subject_id(html: &str) -> (r: Result<i32, AnyError>)
    ensures
        match r {
            Ok(v) => number_after(html@, "https://bgm.tv/subject/"@, '"') == Some(v as int),
            Err(_) => number_after(html@, "https://bgm.tv/subject/"@, '"') is None,
        },
{
    let s = chars_of(html);
    match crate::detail_page::number_after_in(&s, &chars_of("https://bgm.tv/subject/"), '"') {
        Some(v) => {
            proof {
                reveal_strlit("https://bgm.tv/subject/");
            }
            Ok(v)
        },
        None => {
            proof {
                reveal_strlit("https://bgm.tv/subject/");
            }
            Err(new_err("Failed to find bangumi id"))
        },
    }
}

/// A catalog identity clamped to the mapping's field type, or the sentinel.
pub open spec fn clamp_id(n: int) -> int {
    if -0x80000000 <= n <= 0x7fffffff {
        n
    } else {
        -1
    }
}

/// How a full subject mapping relates to what resolution fetched: the page's
/// identity and cover, the community catalog's subject, and the secondary
/// catalog's series and season.
pub open spec fn subject_matches_full(
    sub: MikanSubject,
    page: EpisodePage,
    bangumi: BangumiSubject,
    tmdb: TMDBParseResult,
) -> bool {
    &&& sub.mikan_subject_id == page.mikan_subject_id
    &&& sub.mikan_subject_image_url == page.poster_url
    &&& sub.bangumi_subject_id == bangumi.bangumi_subject_id
    &&& sub.bangumi_subject_name@ == (if bangumi.aliases@.len() > 0 {
        bangumi.aliases@[0]@
    } else {
        Seq::<char>::empty()
    })
    &&& sub.bangumi_season_num == bangumi.season_num
    &&& sub.bangumi_subject_image_url == bangumi.image_url
    &&& sub.tmdb_series_id as int == clamp_id(tmdb.media_id as int)
    &&& sub.tmdb_series_name == tmdb.media_name
    &&& sub.tmdb_season_num as int == clamp_id(tmdb.season_number as int)
    &&& sub.tmdb_season_name == tmdb.season_name
    &&& sub.bangumi_to_tmdb_episode_offset == 0
}

/// How a partial subject mapping relates to what resolution fetched: as the
/// full mapping, but every secondary-catalog field at its sentinel.
pub open spec fn subject_matches_partial(
    sub: MikanSubject,
    page: EpisodePage,
    bangumi: BangumiSubject,
) -> bool {
    &&& sub.mikan_subject_id == page.mikan_subject_id
    &&& sub.mikan_subject_image_url == page.poster_url
    &&& sub.bangumi_subject_id == bangumi.bangumi_subject_id
    &&& sub.bangumi_subject_name@ == (if bangumi.aliases@.len() > 0 {
        bangumi.aliases@[0]@
    } else {
        Seq::<char>::empty()
    })
    &&& sub.bangumi_season_num == bangumi.season_num
    &&& sub.bangumi_subject_image_url == bangumi.image_url
    &&& sub.tmdb_series_id == -1
    &&& sub.tmdb_series_name@.len() == 0
    &&& sub.tmdb_season_num == -1
    &&& sub.tmdb_season_name@.len() == 0
    &&& sub.bangumi_to_tmdb_episode_offset == 0
}

/// The subject mapping resolution persists: full when the secondary catalog
/// answered, partial with sentinels when it did not — a secondary-catalog
/// failure never fails the release.
pub fn build_mikan_subject(
    page: &EpisodePage,
    bangumi: &BangumiSubject,
    tmdb: &Option<TMDBParseResult>,
) -> (sub: MikanSubject)
    ensures
        match tmdb {
            Some(t) => subject_matches_full(sub, *page, *bangumi, *t),
            None => subject_matches_partial(sub, *page, *bangumi),
        },
{
    let bangumi_subject_name = if bangumi.aliases.len() > 0 {
        bangumi.aliases[0].clone()
    } else {
        String::new()
    };
    match tmdb {
        Some(t) => MikanSubject {
            mikan_subject_id: page.mikan_subject_id,
            mikan_subject_image_url: page.poster_url.clone(),
            bangumi_subject_id: bangumi.bangumi_subject_id,
            bangumi_subject_name,
            bangumi_season_num: bangumi.season_num,
            bangumi_subject_image_url: bangumi.image_url.clone(),
            tmdb_series_id: clamp_id_exec(t.media_id),
            tmdb_series_name: t.media_name.clone(),
            tmdb_season_num: clamp_id_exec(t.season_number),
            tmdb_season_name: t.season_name.clone(),
            bangumi_to_tmdb_episode_offset: 0,
        },
        None => MikanSubject {
            mikan_subject_id: page.mikan_subject_id,
            mikan_subject_image_url: page.poster_url.clone(),
            bangumi_subject_id: bangumi.bangumi_subject_id,
            bangumi_subject_name,
            bangumi_season_num: bangumi.season_num,
            bangumi_subject_image_url: bangumi.image_url.clone(),
            tmdb_series_id: -1,
            tmdb_series_name: String::new(),
            tmdb_season_num: -1,
            tmdb_season_name: String::new(),
            bangumi_to_tmdb_episode_offset: 0,
        },
    }
}

/// A catalog identity clamped to the mapping's field type, or the sentinel.
fn clamp_id_exec(n: i64) -> (r: i32)
    ensures
        r as int == clamp_id(n as int),
{
    if n >= -2147483648i64 && n <= 2147483647i64 {
        n as i32
    } else {
        -1
    }
}

/// How a completed release relates to the announcement, its detail page and
/// its subject mapping: page fields and catalog season numbers carried over;
/// the display names prefer the secondary catalog and fall back to the
/// page's subject title; the episode number moves by the mapping's offset;
/// a missing mapping leaves sentinels and the page's title.
pub open spec fn completed_matches(
    r: MikanItem,
    item: MikanItem,
    page: EpisodePage,
    info: Option<MikanSubject>,
) -> bool {
    &&& r.mikan_item_uuid == item.mikan_item_uuid
    &&& r.mikan_subject_id == page.mikan_subject_id
    &&& r.mikan_subgroup_id == page.mikan_subgroup_id
    &&& r.mikan_subject_name == page.subject_title
    &&& r.mikan_item_title == item.mikan_item_title
    &&& r.mikan_item_magnet_link == page.magnet_link
    &&& r.mikan_item_pub_date == item.mikan_item_pub_date
    &&& r.tmdb_series_name@ == (match info {
        Some(i) => if i.tmdb_series_name@.len() > 0 {
            i.tmdb_series_name@
        } else {
            page.subject_title@
        },
        None => page.subject_title@,
    })
    &&& r.tmdb_season_name@ == (match info {
        Some(i) => if i.tmdb_season_name@.len() > 0 {
            i.tmdb_season_name@
        } else {
            page.subject_title@
        },
        None => page.subject_title@,
    })
    &&& r.tmdb_parsed_season_num == (match info {
        Some(i) => i.tmdb_season_num,
        None => -1i32,
    })
    &&& r.bangumi_parsed_season_num == (match info {
        Some(i) => i.bangumi_season_num,
        None => -1i32,
    })
    &&& r.mikan_parsed_episode_num as int == item.mikan_parsed_episode_num + (match info {
        Some(i) => i.bangumi_to_tmdb_episode_offset as int,
        None => 0,
    })
    &&& r.mikan_parsed_language == item.mikan_parsed_language
    &&& r.mikan_parsed_codec == item.mikan_parsed_codec
    &&& r.bangumi_parsed_episode_id == -1
    &&& r.bangumi_parsed_episode_ep == -1
    &&& r.bangumi_parsed_episode_sort@.len() == 0
}

/// Completes an announced release from its scraped detail page and subject
/// mapping.
pub fn complete_item(item: &MikanItem, page: &EpisodePage, info: &Option<MikanSubject>) -> (r:
    MikanItem)
    requires
        in_range(item.mikan_parsed_episode_num as int),
        info matches Some(i) ==> in_range(i.bangumi_to_tmdb_episode_offset as int),
    ensures
        completed_matches(r, *item, *page, *info),
{
    let (series_name, season_name, tmdb_num, bangumi_num, offset): (
        String,
        String,
        i32,
        i32,
        i32,
    ) = match info {
        Some(i) => {
            let series = if !i.tmdb_series_name.as_str().is_empty() {
                i.tmdb_series_name.clone()
            } else {
                page.subject_title.clone()
            };
            let season = if !i.tmdb_season_name.as_str().is_empty() {
                i.tmdb_season_name.clone()
            } else {
                page.subject_title.clone()
            };
            (series, season, i.tmdb_season_num, i.bangumi_season_num,
                i.bangumi_to_tmdb_episode_offset)
        },
        None => (page.subject_title.clone(), page.subject_title.clone(), -1, -1, 0),
    };
    MikanItem {
        mikan_item_uuid: item.mikan_item_uuid.clone(),
        mikan_subject_id: page.mikan_subject_id,
        mikan_subject_name: page.subject_title.clone(),
        mikan_subgroup_id: page.mikan_subgroup_id,
        mikan_item_title: item.mikan_item_title.clone(),
        mikan_item_magnet_link: page.magnet_link.clone(),
        mikan_item_pub_date: item.mikan_item_pub_date.clone(),
        tmdb_series_name: series_name,
        tmdb_season_name: season_name,
        tmdb_parsed_season_num: tmdb_num,
        bangumi_parsed_season_num: bangumi_num,
        mikan_parsed_episode_num: item.mikan_parsed_episode_num + offset,
        mikan_parsed_language: item.mikan_parsed_language.clone(),
        mikan_parsed_codec: item.mikan_parsed_codec.clone(),
        bangumi_parsed_episode_id: -1,
        bangumi_parsed_episode_ep: -1,
        bangumi_parsed_episode_sort: String::new(),
    }
}

/// The search queries the alias retry runs, in order: every alias whole,
/// then, when all of those fail, every alias cut to the first half of its
/// characters.
pub open spec fn halved(a: Seq<char>) -> Seq<char> {
    a.take(a.len() as int / 2)
}

/// The full list of alias search queries: the aliases, then their halves.
pub fn alias_search_queries(aliases: &Vec<String>) -> (r: Vec<String>)
    ensures
        r@.len() == 2 * aliases@.len(),
        forall|j: int| 0 <= j < aliases@.len() ==> (#[trigger] r@[j])@ == aliases@[j]@,
        forall|j: int|
            aliases@.len() <= j < r@.len() ==> (#[trigger] r@[j])@ == halved(
                aliases@[j - aliases@.len()]@,
            ),
{
    let mut out: Vec<String> = Vec::new();
    let mut i: usize = 0;
    while i < aliases.len()
        invariant
            i <= aliases@.len(),
            out@.len() == i,
            forall|j: int| 0 <= j < i ==> (#[trigger] out@[j])@ == aliases@[j]@,
        decreases aliases.len() - i,
    {
        out.push(aliases[i].clone());
        i = i + 1;
    }
    let mut k: usize = 0;
    while k < aliases.len()
        invariant
            k <= aliases@.len(),
            out@.len() == aliases@.len() + k,
            forall|j: int| 0 <= j < aliases@.len() ==> (#[trigger] out@[j])@ == aliases@[j]@,
            forall|j: int|
                aliases@.len() <= j < out@.len() ==> (#[trigger] out@[j])@ == halved(
                    aliases@[j - aliases@.len()]@,
                ),
        decreases aliases.len() - k,
    {
        let a = chars_of(aliases[k].as_str());
        let half = copy_range(&a, 0, a.len() / 2);
        proof {
            assert(half@ =~= halved(aliases@[k as int]@));
        }
        out.push(string_from(&half));
        k = k + 1;
    }
    out
}

/// The distinct (feed-subject, feed-subgroup) pairs of a batch, in
/// first-appearance order: the subjects whose history pages a feed expansion
/// visits, each once.
pub open spec fn expand_targets_spec(items: Seq<MikanItem>, i: int, acc: Seq<(i32, i32)>) -> Seq<
    (i32, i32),
>
    decreases items.len() - i,
{
    if i < 0 || i >= items.len() {
        acc
    } else {
        let p = (items[i].mikan_subject_id, items[i].mikan_subgroup_id);
        let nxt = if acc.contains(p) {
            acc
        } else {
            acc.push(p)
        };
        expand_targets_spec(items, i + 1, nxt)
    }
}

/// The subjects a history expansion visits: each batch item's (feed-subject,
/// feed-subgroup) pair, first appearance only.
pub fn expand_targets(items: &Vec<MikanItem>) -> (r: Vec<(i32, i32)>)
    ensures
        r@ == expand_targets_spec(items@, 0, Seq::<(i32, i32)>::empty()),
{
    let mut acc: Vec<(i32, i32)> = Vec::new();
    let mut i: usize = 0;
    while i < items.len()
        invariant
            i <= items@.len(),
            expand_targets_spec(items@, 0, Seq::<(i32, i32)>::empty()) == expand_targets_spec(
                items@,
                i as int,
                acc@,
            ),
        decreases items.len() - i,
    {
        let p = (items[i].mikan_subject_id, items[i].mikan_subgroup_id);
        let mut seen = false;
        let mut k: usize = 0;
        while k < acc.len()
            invariant
                k <= acc@.len(),
                i < items@.len(),
                p == (items@[i as int].mikan_subject_id, items@[i as int].mikan_subgroup_id),
                seen ==> acc@.contains(p),
                !seen ==> forall|m: int| 0 <= m < k ==> acc@[m] != p,
            decreases acc.len() - k,
        {
            if acc[k].0 == p.0 && acc[k].1 == p.1 {
                seen = true;
                proof {
                    assert(acc@[k as int] == p);
                }
            }
            k = k + 1;
        }
        let ghost prev = acc@;
        if !seen {
            proof {
                assert(!prev.contains(p));
            }
            acc.push(p);
        }
        i = i + 1;
        proof {
            if seen {
                assert(acc@ == prev);
            } else {
                assert(acc@ =~= prev.push(p));
            }
        }
    }
    acc
}

} // verus!
