//! Watch status: reading a subject's per-episode collection status from the
//! community catalog's answer, and writing it back onto the library snapshot
//! by the episode-sort key.

use vstd::prelude::*;
use crate::app_model::{AppAnimeEpisode, AppAnimeSeason, AppAnimeSeries};
use crate::cache_store::BangumiEpisode;
use crate::errors::{new_err, AnyError};
use crate::json::{json_of, parse_json, spec_as_arr, spec_get, JsonValue};
use crate::library::in_range;
use crate::strutil::{i64_to_string, int_str, str_eq};

verus! {

/// A watcher's status for one episode.
#[derive(Clone, Copy, PartialEq, Eq, Structural, Debug)]
pub enum BangumiEpisodeStatus {
    /// Not collected.
    NotCollected,
    /// Marked to be watched.
    WantToWatch,
    /// Watched.
    Watched,
    /// Dropped.
    Dropped,
}

/// The kind of an episode.
#[derive(Clone, Copy, PartialEq, Eq, Structural, Debug)]
pub enum BangumiEpisodeType {
    /// A main-story episode.
    MainStory,
    /// A special.
    Special,
    /// An opening.
    OP,
    /// An ending.
    ED,
    /// Anything else.
    Other,
}

/// One episode's collection entry: the episode's identity and indices, its
/// names, and the watcher's status.
pub struct BangumiEpisodeCollection {
    /// The canonical episode identity.
    pub id: i32,
    /// The display index, as a decimal string.
    pub sort: String,
    /// The raw index.
    pub ep: i32,
    /// The air date, or empty.
    pub airdate: String,
    /// The episode's name, or empty.
    pub name: String,
    /// The localized name, or empty.
    pub name_cn: String,
    /// The kind of episode.
    pub ep_type: BangumiEpisodeType,
    /// The watcher's status.
    pub status: BangumiEpisodeStatus,
}

/// The status a catalog code stands for; unknown codes mean not collected.
pub open spec fn status_of_code(n: int) -> BangumiEpisodeStatus {
    if n == 1 {
        BangumiEpisodeStatus::WantToWatch
    } else if n == 2 {
        BangumiEpisodeStatus::Watched
    } else if n == 3 {
        BangumiEpisodeStatus::Dropped
    } else {
        BangumiEpisodeStatus::NotCollected
    }
}

/// The episode kind a catalog code stands for.
pub open spec fn type_of_code(n: int) -> BangumiEpisodeType {
    if n == 0 {
        BangumiEpisodeType::MainStory
    } else if n == 1 {
        BangumiEpisodeType::Special
    } else if n == 2 {
        BangumiEpisodeType::OP
    } else if n == 3 {
        BangumiEpisodeType::ED
    } else {
        BangumiEpisodeType::Other
    }
}

/// The string under `key`, or empty when missing or not a string.
pub open spec fn str_or_empty(v: JsonValue, key: Seq<char>) -> Option<String> {
    match spec_get(v, key) {
        Some(m) => match m {
            JsonValue::Str(s) => Some(s),
            _ => None,
        },
        None => None,
    }
}

/// One item of the catalog's answer carries everything a collection entry
/// needs: its episode object with identity, raw index, kind code and sort,
/// and the item's own status code.
pub open spec fn collection_wf(item: JsonValue) -> bool {
    match spec_get(item, "episode"@) {
        Some(ep) => {
            &&& crate::catalog::int_member(ep, "id"@) is Some
            &&& crate::catalog::int_member(ep, "ep"@) is Some
            &&& crate::catalog::int_member(ep, "type"@) is Some
            &&& crate::catalog::int_member(item, "type"@) is Some
            &&& crate::catalog::sort_member(ep) is Some
        },
        None => false,
    }
}

/// How a parsed collection entry relates to its catalog item: identity,
/// indices and codes pinned exactly; the optional text fields pinned up to
/// their contents, empty when missing.
pub open spec fn collection_matches(c: BangumiEpisodeCollection, item: JsonValue) -> bool {
    &&& collection_wf(item)
    &&& {
        let ep = spec_get(item, "episode"@)->Some_0;
        &&& c.id as int == crate::catalog::int_member(ep, "id"@)->Some_0
        &&& c.ep as int == crate::catalog::int_member(ep, "ep"@)->Some_0
        &&& c.sort == crate::catalog::sort_member(ep)->Some_0
        &&& c.ep_type == type_of_code(crate::catalog::int_member(ep, "type"@)->Some_0)
        &&& c.status == status_of_code(crate::catalog::int_member(item, "type"@)->Some_0)
        &&& c.airdate@ == (match str_or_empty(ep, "airdate"@) {
            Some(s) => s@,
            None => Seq::<char>::empty(),
        })
        &&& c.name@ == (match str_or_empty(ep, "name"@) {
            Some(s) => s@,
            None => Seq::<char>::empty(),
        })
        &&& c.name_cn@ == (match str_or_empty(ep, "name_cn"@) {
            Some(s) => s@,
            None => Seq::<char>::empty(),
        })
    }
}

/// Parses a subject's per-episode collection status out of the catalog's
/// answer: the `data` array, one entry per item.  It fails exactly when the
/// array is missing or some item lacks its episode object, codes or sort.
pub fn parse_episode_collection(json: &JsonValue) -> (r: Result<
    Vec<BangumiEpisodeCollection>,
    AnyError,
>)
    ensures
        match r {
            Ok(v) => {
                &&& spec_get(*json, "data"@) matches Some(d)
                &&& spec_as_arr(spec_get(*json, "data"@)->Some_0) matches Some(es)
                &&& v@.len() == es.len()
                &&& forall|j: int|
                    0 <= j < v@.len() ==> collection_matches(#[trigger] v@[j], es[j])
            },
            Err(_) => {
                ||| spec_get(*json, "data"@) is None
                ||| spec_as_arr(spec_get(*json, "data"@)->Some_0) is None
                ||| exists|j: int|
                    0 <= j < spec_as_arr(spec_get(*json, "data"@)->Some_0)->Some_0.len()
                        && !collection_wf(
                        #[trigger] spec_as_arr(spec_get(*json, "data"@)->Some_0)->Some_0[j],
                    )
            },
        },
{
    let es = match json.get("data") {
        Some(m) => match m.as_arr() {
            Some(es) => es,
            None => {
                return Err(new_err("Failed to parse the collection list"));
            },
        },
        None => {
            return Err(new_err("Failed to parse the collection list"));
        },
    };
    let ghost all = es@;
    let mut out: Vec<BangumiEpisodeCollection> = Vec::new();
    let mut i: usize = 0;
    while i < es.len()
        invariant
            i <= all.len(),
            es@ == all,
            spec_get(*json, "data"@) is Some,
            spec_as_arr(spec_get(*json, "data"@)->Some_0) == Some(all),
            out@.len() == i,
            forall|j: int| 0 <= j < i ==> collection_matches(#[trigger] out@[j], all[j]),
        decreases es.len() - i,
    {
        let item = &es[i];
        let ep = match item.get("episode") {
            Some(ep) => ep,
            None => {
                proof {
                    assert(!collection_wf(all[i as int]));
                    assert(spec_as_arr(spec_get(*json, "data"@)->Some_0)->Some_0 == all);
                    assert(!collection_wf(
                        spec_as_arr(spec_get(*json, "data"@)->Some_0)->Some_0[i as int],
                    ));
                }
                return Err(new_err("Failed to parse an episode entry"));
            },
        };
        let id = crate::catalog::get_int_member(ep, "id");
        let epn = crate::catalog::get_int_member(ep, "ep");
        let ty = crate::catalog::get_int_member(ep, "type");
        let st = crate::catalog::get_int_member(item, "type");
        let sort = crate::catalog::get_sort_member(ep);
        match (id, epn, ty, st, sort) {
            (Some(id), Some(epn), Some(ty), Some(st), Some(sort)) => {
                let row = BangumiEpisodeCollection {
                    id,
                    sort,
                    ep: epn,
                    airdate: str_or_empty_exec(ep, "airdate"),
                    name: str_or_empty_exec(ep, "name"),
                    name_cn: str_or_empty_exec(ep, "name_cn"),
                    ep_type: type_of_code_exec(ty),
                    status: status_of_code_exec(st),
                };
                proof {
                    assert(collection_wf(all[i as int]));
                    assert(collection_matches(row, all[i as int]));
                }
                out.push(row);
            },
            _ => {
                proof {
                    assert(!collection_wf(all[i as int]));
                    assert(spec_as_arr(spec_get(*json, "data"@)->Some_0)->Some_0 == all);
                    assert(!collection_wf(
                        spec_as_arr(spec_get(*json, "data"@)->Some_0)->Some_0[i as int],
                    ));
                }
                return Err(new_err("Failed to parse an episode entry"));
            },
        }
        i = i + 1;
    }
    Ok(out)
}

/// The string under `key`, or an empty string.
fn str_or_empty_exec(v: &JsonValue, key: &str) -> (r: String)
    ensures
        r@ == (match str_or_empty(*v, key@) {
            Some(s) => s@,
            None => Seq::<char>::empty(),
        }),
{
    match v.get(key) {
        Some(m) => match m.as_str() {
            Some(s) => s.clone(),
            None => String::new(),
        },
        None => String::new(),
    }
}

/// The status a catalog code stands for.
fn status_of_code_exec(n: i32) -> (r: BangumiEpisodeStatus)
    ensures
        r == status_of_code(n as int),
{
    if n == 1 {
        BangumiEpisodeStatus::WantToWatch
    } else if n == 2 {
        BangumiEpisodeStatus::Watched
    } else if n == 3 {
        BangumiEpisodeStatus::Dropped
    } else {
        BangumiEpisodeStatus::NotCollected
    }
}

/// The episode kind a catalog code stands for.
fn type_of_code_exec(n: i32) -> (r: BangumiEpisodeType)
    ensures
        r == type_of_code(n as int),
{
    if n == 0 {
        BangumiEpisodeType::MainStory
    } else if n == 1 {
        BangumiEpisodeType::Special
    } else if n == 2 {
        BangumiEpisodeType::OP
    } else if n == 3 {
        BangumiEpisodeType::ED
    } else {
        BangumiEpisodeType::Other
    }
}

/// The first cached main-story episode whose display index reads as the
/// given sort key.
pub open spec fn episode_with_sort(s: Seq<BangumiEpisode>, sort: Seq<char>) -> Option<
    BangumiEpisode,
>
    decreases s.len(),
{
    if s.len() == 0 {
        None
    } else if s[0].episode_type == 0 && s[0].episode_sort@ == sort {
        Some(s[0])
    } else {
        episode_with_sort(s.skip(1), sort)
    }
}

/// The canonical episode a status update goes to: the first main-story
/// episode of the list whose display index equals the given sort key, if
/// any.
pub fn find_episode_id(episodes: &Vec<BangumiEpisode>, sort: &str) -> (r: Option<i32>)
    ensures
        match r {
            Some(id) => episode_with_sort(episodes@, sort@) matches Some(e) && id == e.episode_id,
            None => episode_with_sort(episodes@, sort@) is None,
        },
{
    let ghost all = episodes@;
    let mut i: usize = 0;
    proof {
        assert(all.skip(0) =~= all);
    }
    while i < episodes.len()
        invariant
            i <= all.len(),
            episodes@ == all,
            episode_with_sort(all, sort@) == episode_with_sort(all.skip(i as int), sort@),
        decreases all.len() - i,
    {
        proof {
            assert(all.skip(i as int)[0] == all[i as int]);
            assert(all.skip(i as int).skip(1) =~= all.skip(i as int + 1));
        }
        let e = &episodes[i];
        if e.episode_type == 0 && str_eq(e.episode_sort.as_str(), sort) {
            return Some(e.episode_id);
        }
        i = i + 1;
    }
    proof {
        assert(all.skip(i as int) =~= Seq::<BangumiEpisode>::empty());
    }
    None
}

/// The last collection entry, scanning the first `j`, whose sort key equals
/// `key`.
pub open spec fn status_last(
    status: Seq<BangumiEpisodeCollection>,
    key: Seq<char>,
    j: int,
) -> Option<BangumiEpisodeCollection>
    decreases j,
{
    if j <= 0 || j > status.len() {
        None
    } else if status[j - 1].sort@ == key {
        Some(status[j - 1])
    } else {
        status_last(status, key, j - 1)
    }
}

/// The episode-sort key of an episode within its season: the display number
/// less the season's episode offset plus its canonical-episode offset.  This
/// key must stay stable: the watch-status tracker matches on it.
pub open spec fn episode_sort_key(ep: AppAnimeEpisode, season: AppAnimeSeason) -> int {
    ep.disp_episode_num - season.conf_tmdb_episode_offset + season.conf_bangumi_episode_offset
}

/// An episode after one subject's status pass: on a season of the subject,
/// the last matching entry's fields are written in; everything else is
/// untouched.
pub open spec fn updated_episode(
    ep: AppAnimeEpisode,
    season: AppAnimeSeason,
    subject_id: int,
    status: Seq<BangumiEpisodeCollection>,
) -> AppAnimeEpisode {
    if season.bangumi_subject_id == subject_id {
        match status_last(status, int_str(episode_sort_key(ep, season)), status.len() as int) {
            Some(s) => AppAnimeEpisode {
                bangumi_sort: s.sort,
                bangumi_airdate: s.airdate,
                bangumi_name: s.name,
                bangumi_name_cn: s.name_cn,
                bangumi_ep_type: s.ep_type,
                bangumi_status: s.status,
                ..ep
            },
            None => ep,
        }
    } else {
        ep
    }
}

/// Writes one subject's collection status onto the library snapshot: in
/// every season of that subject, each episode whose sort key matches an
/// entry takes that entry's fields (the last matching entry winning); every
/// other episode, season and series field is untouched.
pub fn update_watch_status(
    library: &mut Vec<AppAnimeSeries>,
    subject_id: i32,
    status: &Vec<BangumiEpisodeCollection>,
)
    requires
        forall|si: int|
            0 <= si < old(library)@.len() ==> app_series_in_range(#[trigger] old(library)@[si]),
    ensures
        final(library)@.len() == old(library)@.len(),
        forall|si: int|
            0 <= si < old(library)@.len() ==> series_status_updated(
                #[trigger] final(library)@[si],
                old(library)@[si],
                subject_id as int,
                status@,
            ),
{
    let ghost orig = library@;
    let mut out: Vec<AppAnimeSeries> = Vec::new();
    let mut si: usize = 0;
    while si < library.len()
        invariant
            si <= orig.len(),
            library@ == orig,
            forall|k: int| 0 <= k < orig.len() ==> app_series_in_range(#[trigger] orig[k]),
            out@.len() == si,
            forall|k: int|
                0 <= k < si ==> series_status_updated(
                    #[trigger] out@[k],
                    orig[k],
                    subject_id as int,
                    status@,
                ),
        decreases library.len() - si,
    {
        let series = &library[si];
        let mut seasons: Vec<AppAnimeSeason> = Vec::new();
        let mut sj: usize = 0;
        while sj < series.seasons.len()
            invariant
                sj <= series.seasons@.len(),
                si < orig.len(),
                library@ == orig,
                series == orig[si as int],
                app_series_in_range(orig[si as int]),
                seasons@.len() == sj,
                forall|k: int|
                    0 <= k < sj ==> season_status_updated(
                        #[trigger] seasons@[k],
                        orig[si as int].seasons@[k],
                        subject_id as int,
                        status@,
                    ),
            decreases series.seasons.len() - sj,
        {
            let season = &series.seasons[sj];
            let mut eps: Vec<AppAnimeEpisode> = Vec::new();
            let mut ek: usize = 0;
            while ek < season.episodes.len()
                invariant
                    ek <= season.episodes@.len(),
                    si < orig.len(),
                    sj < orig[si as int].seasons@.len(),
                    library@ == orig,
                    series == orig[si as int],
                    season == orig[si as int].seasons@[sj as int],
                    app_series_in_range(orig[si as int]),
                    eps@.len() == ek,
                    forall|k: int|
                        0 <= k < ek ==> #[trigger] eps@[k] == updated_episode(
                            orig[si as int].seasons@[sj as int].episodes@[k],
                            orig[si as int].seasons@[sj as int],
                            subject_id as int,
                            status@,
                        ),
                decreases season.episodes.len() - ek,
            {
                let ep = &season.episodes[ek];
                if season.bangumi_subject_id == subject_id {
                    proof {
                        assert(app_season_in_range(orig[si as int].seasons@[sj as int]));
                        assert(in_range(ep.disp_episode_num as int));
                    }
                    let key: i64 = (ep.disp_episode_num as i64)
                        - (season.conf_tmdb_episode_offset as i64) + (
                    season.conf_bangumi_episode_offset as i64);
                    let key_str = i64_to_string(key);
                    let mut cur: Option<usize> = None;
                    let mut j: usize = 0;
                    while j < status.len()
                        invariant
                            j <= status@.len(),
                            key_str@ == int_str(key as int),
                            match cur {
                                Some(c) => c < status@.len() && status_last(
                                    status@,
                                    key_str@,
                                    j as int,
                                ) == Some(status@[c as int]),
                                None => status_last(status@, key_str@, j as int) is None,
                            },
                        decreases status.len() - j,
                    {
                        if str_eq(status[j].sort.as_str(), key_str.as_str()) {
                            cur = Some(j);
                        }
                        j = j + 1;
                    }
                    match cur {
                        Some(c) => {
                            let s = &status[c];
                            let updated = AppAnimeEpisode {
                                episode_hash: ep.episode_hash.clone(),
                                disp_episode_num: ep.disp_episode_num,
                                bangumi_sort: s.sort.clone(),
                                bangumi_airdate: s.airdate.clone(),
                                bangumi_name: s.name.clone(),
                                bangumi_name_cn: s.name_cn.clone(),
                                bangumi_ep_type: s.ep_type,
                                bangumi_status: s.status,
                            };
                            eps.push(updated);
                        },
                        None => {
                            eps.push(ep.clone());
                        },
                    }
                } else {
                    eps.push(ep.clone());
                }
                ek = ek + 1;
            }
            seasons.push(
                AppAnimeSeason {
                    mikan_subject_id: season.mikan_subject_id,
                    mikan_subgroup_id: season.mikan_subgroup_id,
                    bangumi_subject_id: season.bangumi_subject_id,
                    disp_season_name: season.disp_season_name.clone(),
                    disp_season_num: season.disp_season_num,
                    disp_thumbnail_url: season.disp_thumbnail_url.clone(),
                    default_season_num: season.default_season_num,
                    conf_season_num: season.conf_season_num,
                    conf_tmdb_episode_offset: season.conf_tmdb_episode_offset,
                    conf_bangumi_episode_offset: season.conf_bangumi_episode_offset,
                    episodes: eps,
                },
            );
            sj = sj + 1;
        }
        out.push(AppAnimeSeries { disp_series_name: series.disp_series_name.clone(), seasons });
        si = si + 1;
    }
    *library = out;
}

/// Every number a status pass computes with stays in range.
pub open spec fn app_series_in_range(series: AppAnimeSeries) -> bool {
    forall|sj: int|
        0 <= sj < series.seasons@.len() ==> app_season_in_range(#[trigger] series.seasons@[sj])
}

/// The season's offsets and its episodes' display numbers are in range.
pub open spec fn app_season_in_range(season: AppAnimeSeason) -> bool {
    &&& in_range(season.conf_tmdb_episode_offset as int)
    &&& in_range(season.conf_bangumi_episode_offset as int)
    &&& forall|ek: int|
        0 <= ek < season.episodes@.len() ==> in_range(
            (#[trigger] season.episodes@[ek]).disp_episode_num as int,
        )
}

/// A series after one subject's status pass, season by season.
pub open spec fn series_status_updated(
    new: AppAnimeSeries,
    old_s: AppAnimeSeries,
    subject_id: int,
    status: Seq<BangumiEpisodeCollection>,
) -> bool {
    &&& new.disp_series_name == old_s.disp_series_name
    &&& new.seasons@.len() == old_s.seasons@.len()
    &&& forall|sj: int|
        0 <= sj < old_s.seasons@.len() ==> season_status_updated(
            #[trigger] new.seasons@[sj],
            old_s.seasons@[sj],
            subject_id,
            status,
        )
}

/// A season after one subject's status pass: the season's own fields kept,
/// each episode updated.
pub open spec fn season_status_updated(
    new: AppAnimeSeason,
    old_s: AppAnimeSeason,
    subject_id: int,
    status: Seq<BangumiEpisodeCollection>,
) -> bool {
    &&& new.mikan_subject_id == old_s.mikan_subject_id
    &&& new.mikan_subgroup_id == old_s.mikan_subgroup_id
    &&& new.bangumi_subject_id == old_s.bangumi_subject_id
    &&& new.disp_season_name == old_s.disp_season_name
    &&& new.disp_season_num == old_s.disp_season_num
    &&& new.disp_thumbnail_url == old_s.disp_thumbnail_url
    &&& new.default_season_num == old_s.default_season_num
    &&& new.conf_season_num == old_s.conf_season_num
    &&& new.conf_tmdb_episode_offset == old_s.conf_tmdb_episode_offset
    &&& new.conf_bangumi_episode_offset == old_s.conf_bangumi_episode_offset
    &&& new.episodes@.len() == old_s.episodes@.len()
    &&& forall|ek: int|
        0 <= ek < old_s.episodes@.len() ==> #[trigger] new.episodes@[ek] == updated_episode(
            old_s.episodes@[ek],
            old_s,
            subject_id,
            status,
        )
}

/// The per-episode collection status named by a catalog answer: the text
/// parsed as JSON and the entries read from it.
pub fn get_bangumi_episode_collection_status(text: &str) -> (r: Result<
    Vec<BangumiEpisodeCollection>,
    AnyError,
>)
    ensures
        match r {
            Ok(v) => {
                &&& json_of(text@) matches Some(doc)
                &&& spec_get(json_of(text@)->Some_0, "data"@) matches Some(d)
                &&& spec_as_arr(spec_get(json_of(text@)->Some_0, "data"@)->Some_0) matches Some(es)
                &&& v@.len() == es.len()
                &&& forall|j: int|
                    0 <= j < v@.len() ==> collection_matches(#[trigger] v@[j], es[j])
            },
            Err(_) => {
                ||| json_of(text@) is None
                ||| spec_get(json_of(text@)->Some_0, "data"@) is None
                ||| spec_as_arr(spec_get(json_of(text@)->Some_0, "data"@)->Some_0) is None
                ||| exists|j: int|
                    0 <= j < spec_as_arr(
                        spec_get(json_of(text@)->Some_0, "data"@)->Some_0,
                    )->Some_0.len() && !collection_wf(
                        #[trigger] spec_as_arr(
                            spec_get(json_of(text@)->Some_0, "data"@)->Some_0,
                        )->Some_0[j],
                    )
            },
        },
{
    match parse_json(text) {
        Some(json) => parse_episode_collection(&json),
        None => Err(new_err("Failed to parse json")),
    }
}

} // verus!
